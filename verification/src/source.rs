//! Source text handling: splitting a file into lines and counting the lines
//! that hold code.
//!
//! A line counts as code when, after leading blanks and tabs, it is
//! non-empty and does not begin with a comment marker (`//`, `/*`, `*`
//! or `#`).

use vstd::prelude::*;

verus! {

/// A character sequence split on the separator `sep`. The final piece is
/// always present, so an empty input yields one empty piece.
pub open spec fn split_on_spec(s: Seq<char>, sep: char) -> Seq<Seq<char>>
    decreases s.len(),
{
    if s.len() == 0 {
        seq![Seq::<char>::empty()]
    } else if s[0] == sep {
        seq![Seq::<char>::empty()] + split_on_spec(s.drop_first(), sep)
    } else {
        let rest = split_on_spec(s.drop_first(), sep);
        seq![seq![s[0]] + rest[0]] + rest.drop_first()
    }
}

/// The lines of a character sequence, split on `'\n'`.
pub open spec fn split_lines_spec(s: Seq<char>) -> Seq<Seq<char>> {
    split_on_spec(s, '\n')
}

/// A split always yields at least one piece.
pub proof fn lemma_split_nonempty(s: Seq<char>, sep: char)
    ensures
        split_on_spec(s, sep).len() >= 1,
    decreases s.len(),
{
    if s.len() != 0 && s[0] != sep {
        lemma_split_nonempty(s.drop_first(), sep);
    }
}

/// Splits source text into its lines.
pub fn split_lines(s: &str) -> (r: Vec<Vec<char>>)
    ensures
        r.deep_view() == split_lines_spec(s@),
{
    split_on(s, '\n')
}

/// Splits `s` on the separator `sep`.
pub fn split_on(s: &str, sep: char) -> (r: Vec<Vec<char>>)
    ensures
        r.deep_view() == split_on_spec(s@, sep),
{
    let mut out: Vec<Vec<char>> = Vec::new();
    let mut cur: Vec<char> = Vec::new();
    proof {
        lemma_split_nonempty(s@, sep);
        assert(s@.skip(0) =~= s@);
        assert(split_on_spec(s@, sep) =~~= out.deep_view() + seq![
            cur@ + split_on_spec(s@, sep)[0],
        ] + split_on_spec(s@, sep).drop_first());
    }
    for c in it: s.chars()
        invariant
            it.seq() == s@,
            0 <= it.index() <= s@.len(),
            split_on_spec(s@, sep) =~~= out.deep_view() + seq![
                cur@ + split_on_spec(s@.skip(it.index()), sep)[0],
            ] + split_on_spec(s@.skip(it.index()), sep).drop_first(),
    {
        let ghost idx = it.index();
        let ghost rest = s@.skip(idx);
        proof {
            assert(0 <= idx < s@.len());
            assert(c == it.seq()[idx]);
            assert(rest.len() > 0);
            assert(rest[0] == c);
            assert(rest.drop_first() =~= s@.skip(idx + 1));
            lemma_split_nonempty(s@.skip(idx + 1), sep);
        }
        if c == sep {
            let ghost old_out = out;
            let ghost old_cur = cur;
            out.push(cur);
            cur = Vec::new();
            proof {
                assert(split_on_spec(rest, sep) == seq![Seq::<char>::empty()] + split_on_spec(
                    s@.skip(idx + 1),
                    sep,
                ));
                assert(old_cur@ + split_on_spec(rest, sep)[0] =~= old_cur@);
                assert(out.deep_view() =~~= old_out.deep_view() + seq![old_cur@]);
                assert(split_on_spec(s@, sep) =~~= out.deep_view() + seq![
                    cur@ + split_on_spec(s@.skip(idx + 1), sep)[0],
                ] + split_on_spec(s@.skip(idx + 1), sep).drop_first());
            }
        } else {
            let ghost old_cur = cur;
            cur.push(c);
            proof {
                let tail = split_on_spec(s@.skip(idx + 1), sep);
                assert(split_on_spec(rest, sep) == seq![seq![rest[0]] + tail[0]] + tail.drop_first());
                assert(old_cur@ + split_on_spec(rest, sep)[0] =~= cur@ + tail[0]);
                assert(split_on_spec(s@, sep) =~~= out.deep_view() + seq![cur@ + tail[0]]
                    + tail.drop_first());
            }
        }
    }
    proof {
        assert(s@.skip(s@.len() as int) =~= Seq::<char>::empty());
        assert(split_on_spec(Seq::<char>::empty(), sep) == seq![Seq::<char>::empty()]);
        assert(split_on_spec(Seq::<char>::empty(), sep).drop_first() =~= Seq::<Seq<char>>::empty());
        assert(cur@ + split_on_spec(Seq::<char>::empty(), sep)[0] =~= cur@);
    }
    let ghost old_out = out;
    out.push(cur);
    proof {
        assert(out.deep_view() =~~= old_out.deep_view() + seq![cur@]);
        assert(split_on_spec(s@, sep) =~~= out.deep_view());
    }
    out
}

/// `l` with leading blanks and tabs removed.
pub open spec fn trim_start_spec(l: Seq<char>) -> Seq<char>
    decreases l.len(),
{
    if l.len() > 0 && (l[0] == ' ' || l[0] == '\t') {
        trim_start_spec(l.drop_first())
    } else {
        l
    }
}

/// `l` with trailing blanks and tabs removed.
pub open spec fn trim_end_spec(l: Seq<char>) -> Seq<char>
    decreases l.len(),
{
    if l.len() > 0 && (l.last() == ' ' || l.last() == '\t') {
        trim_end_spec(l.drop_last())
    } else {
        l
    }
}

/// `l` with leading and trailing blanks and tabs removed.
pub open spec fn trim_spec(l: Seq<char>) -> Seq<char> {
    trim_end_spec(trim_start_spec(l))
}

/// Removes leading and trailing blanks and tabs.
pub fn trim_chars(v: &Vec<char>) -> (r: Vec<char>)
    ensures
        r@ == trim_spec(v@),
{
    let n = v.len();
    let mut a: usize = 0;
    proof {
        assert(v@.skip(0) =~= v@);
    }
    while a < n && (v[a] == ' ' || v[a] == '\t')
        invariant
            n == v@.len(),
            a <= n,
            trim_start_spec(v@) == trim_start_spec(v@.skip(a as int)),
        decreases n - a,
    {
        proof {
            assert(v@.skip(a as int).drop_first() =~= v@.skip(a as int + 1));
        }
        a = a + 1;
    }
    let ghost ts = v@.skip(a as int);
    proof {
        if a < n {
            assert(trim_start_spec(v@.skip(a as int)) == ts);
        } else {
            assert(ts =~= Seq::<char>::empty());
        }
        assert(trim_start_spec(v@) == ts);
        assert(ts.take(n - a) =~= ts);
    }
    let mut b: usize = n;
    while b > a && (v[b - 1] == ' ' || v[b - 1] == '\t')
        invariant
            n == v@.len(),
            a <= b <= n,
            ts == v@.skip(a as int),
            trim_end_spec(ts) == trim_end_spec(ts.take(b - a)),
        decreases b,
    {
        proof {
            assert(ts.take(b - a).drop_last() =~= ts.take(b - 1 - a));
            assert(ts.take(b - a).last() == v@[b - 1]);
        }
        b = b - 1;
    }
    proof {
        if b > a {
            assert(ts.take(b - a).last() == v@[b - 1]);
            assert(trim_end_spec(ts.take(b - a)) == ts.take(b - a));
        } else {
            assert(ts.take(0) =~= Seq::<char>::empty());
        }
    }
    let mut r: Vec<char> = Vec::new();
    let mut i: usize = a;
    while i < b
        invariant
            a <= i <= b <= n,
            n == v@.len(),
            r@.len() == i - a,
            forall|k: int| 0 <= k < r@.len() ==> r@[k] == v@[a + k],
        decreases b - i,
    {
        r.push(v[i]);
        i = i + 1;
    }
    proof {
        assert(r@ =~= ts.take(b - a));
    }
    r
}

/// Whether a line holds code: non-blank and not a comment line.
pub open spec fn is_code_line(l: Seq<char>) -> bool {
    let t = trim_start_spec(l);
    t.len() > 0 && !(t[0] == '#' || t[0] == '*') && !(t.len() >= 2 && t[0] == '/' && (t[1] == '/'
        || t[1] == '*'))
}

/// Decides whether one line holds code.
pub fn line_is_code(l: &Vec<char>) -> (r: bool)
    ensures
        r == is_code_line(l@),
{
    let mut i: usize = 0;
    proof {
        assert(l@.skip(0) =~= l@);
    }
    while i < l.len() && (l[i] == ' ' || l[i] == '\t')
        invariant
            i <= l@.len(),
            trim_start_spec(l@) == trim_start_spec(l@.skip(i as int)),
        decreases l@.len() - i,
    {
        proof {
            assert(l@.skip(i as int).drop_first() =~= l@.skip(i as int + 1));
        }
        i = i + 1;
    }
    proof {
        if i < l@.len() {
            assert(trim_start_spec(l@.skip(i as int)) == l@.skip(i as int));
        } else {
            assert(l@.skip(i as int) =~= Seq::<char>::empty());
        }
    }
    if i >= l.len() {
        return false;
    }
    let t0 = l[i];
    if t0 == '#' || t0 == '*' {
        return false;
    }
    if t0 == '/' && i + 1 < l.len() {
        let t1 = l[i + 1];
        if t1 == '/' || t1 == '*' {
            return false;
        }
    }
    assert(trim_start_spec(l@)[0] == l@[i as int]);
    if t0 == '/' && i + 1 >= l.len() {
        assert(trim_start_spec(l@).len() == 1);
    }
    true
}

/// How many of the lines with index in `[a, b)` hold code.
pub open spec fn code_lines_between(lines: Seq<Seq<char>>, a: int, b: int) -> nat
    decreases b - a,
{
    if a >= b {
        0nat
    } else {
        code_lines_between(lines, a, b - 1) + (if 0 <= b - 1 < lines.len() && is_code_line(
            lines[b - 1],
        ) {
            1nat
        } else {
            0nat
        })
    }
}

/// Counts the code lines with index in `[a, b)`.
pub fn count_code_lines(lines: &Vec<Vec<char>>, a: usize, b: usize) -> (r: u64)
    requires
        b <= lines@.len(),
    ensures
        r == code_lines_between(lines.deep_view(), a as int, b as int),
{
    if a >= b {
        return 0;
    }
    let mut r: u64 = 0;
    let mut i: usize = a;
    while i < b
        invariant
            a <= i <= b,
            b <= lines@.len(),
            r == code_lines_between(lines.deep_view(), a as int, i as int),
            r <= i - a,
        decreases b - i,
    {
        assert(lines.deep_view()[i as int] == lines@[i as int]@);
        if line_is_code(&lines[i]) {
            r = r + 1;
        }
        i = i + 1;
    }
    r
}

} // verus!
