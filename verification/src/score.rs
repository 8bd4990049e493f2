//! The aggregate scorer: a stable ranking of functions by complexity, and a
//! histogram of complexity values.
//!
//! The ranking orders by complexity descending; ties are broken by file
//! path and then by start line, ascending, so the order is deterministic.

use vstd::prelude::*;
use crate::extract::FunctionAnalysis;

verus! {

/// One function together with the file it lives in, as ranked functions
/// are reported.
pub struct RankedFunction {
    pub file_path: String,
    pub function: FunctionAnalysis,
}

/// Lexicographic order on character sequences, by code point.
pub open spec fn seq_lt(a: Seq<char>, b: Seq<char>) -> bool
    decreases a.len(),
{
    if b.len() == 0 {
        false
    } else if a.len() == 0 {
        true
    } else if (a[0] as int) < (b[0] as int) {
        true
    } else if (a[0] as int) > (b[0] as int) {
        false
    } else {
        seq_lt(a.drop_first(), b.drop_first())
    }
}

/// Whether `a` comes before `b` (or ties with it) in the ranking:
/// complexity descending, then file path, then start line ascending.
pub open spec fn rank_leq(a: RankedFunction, b: RankedFunction) -> bool {
    if a.function.cyclomatic_complexity != b.function.cyclomatic_complexity {
        a.function.cyclomatic_complexity > b.function.cyclomatic_complexity
    } else if a.file_path@ != b.file_path@ {
        seq_lt(a.file_path@, b.file_path@)
    } else {
        a.function.start_line <= b.function.start_line
    }
}

/// `x` inserted into `s` after every element that ranks no later than it:
/// the insertion step of a stable insertion sort.
pub open spec fn insert_ranked(s: Seq<RankedFunction>, x: RankedFunction) -> Seq<RankedFunction>
    decreases s.len(),
{
    if s.len() == 0 {
        seq![x]
    } else if rank_leq(s[0], x) {
        seq![s[0]] + insert_ranked(s.drop_first(), x)
    } else {
        seq![x] + s
    }
}

/// The stable insertion sort of `s` under the ranking order.
pub open spec fn sort_ranked(s: Seq<RankedFunction>) -> Seq<RankedFunction>
    decreases s.len(),
{
    if s.len() == 0 {
        Seq::empty()
    } else {
        insert_ranked(sort_ranked(s.drop_last()), s.last())
    }
}

/// Decides the lexicographic order of two strings.
pub fn str_lt(a: &str, b: &str) -> (r: bool)
    ensures
        r == seq_lt(a@, b@),
{
    let na = a.unicode_len();
    let nb = b.unicode_len();
    let mut i: usize = 0;
    proof {
        assert(a@.skip(0) =~= a@);
        assert(b@.skip(0) =~= b@);
    }
    while i < na && i < nb
        invariant
            na == a@.len(),
            nb == b@.len(),
            i <= na,
            i <= nb,
            seq_lt(a@, b@) == seq_lt(a@.skip(i as int), b@.skip(i as int)),
        decreases na - i,
    {
        let ca = a.get_char(i);
        let cb = b.get_char(i);
        if (ca as u32) < (cb as u32) {
            return true;
        }
        if (ca as u32) > (cb as u32) {
            return false;
        }
        proof {
            assert(a@.skip(i as int).drop_first() =~= a@.skip(i as int + 1));
            assert(b@.skip(i as int).drop_first() =~= b@.skip(i as int + 1));
        }
        i = i + 1;
    }
    proof {
        if i >= na {
            assert(a@.skip(i as int) =~= Seq::<char>::empty());
        } else {
            assert(b@.skip(i as int) =~= Seq::<char>::empty());
        }
    }
    i >= na && i < nb
}

/// Decides the ranking order of two functions.
pub fn rank_leq_exec(a: &RankedFunction, b: &RankedFunction) -> (r: bool)
    ensures
        r == rank_leq(*a, *b),
{
    if a.function.cyclomatic_complexity != b.function.cyclomatic_complexity {
        a.function.cyclomatic_complexity > b.function.cyclomatic_complexity
    } else if !crate::text::str_eq(a.file_path.as_str(), b.file_path.as_str()) {
        str_lt(a.file_path.as_str(), b.file_path.as_str())
    } else {
        a.function.start_line <= b.function.start_line
    }
}

proof fn lemma_insert_at(s: Seq<RankedFunction>, x: RankedFunction, pos: int)
    requires
        0 <= pos <= s.len(),
        forall|j: int| 0 <= j < pos ==> rank_leq(#[trigger] s[j], x),
        pos < s.len() ==> !rank_leq(s[pos], x),
    ensures
        insert_ranked(s, x) == s.take(pos) + seq![x] + s.skip(pos),
    decreases pos,
{
    if pos == 0 {
        if s.len() == 0 {
            assert(insert_ranked(s, x) =~= s.take(0) + seq![x] + s.skip(0));
        } else {
            assert(insert_ranked(s, x) =~= s.take(0) + seq![x] + s.skip(0));
        }
    } else {
        lemma_insert_at(s.drop_first(), x, pos - 1);
        assert(s.drop_first().take(pos - 1) =~= s.take(pos).drop_first());
        assert(s.drop_first().skip(pos - 1) =~= s.skip(pos));
        assert(insert_ranked(s, x) =~= s.take(pos) + seq![x] + s.skip(pos));
    }
}

/// Sorts functions by complexity descending, ties broken by file path and
/// start line ascending; the sort is the stable insertion sort, so the
/// result is a function of the input alone.
pub fn sort_functions(v: Vec<RankedFunction>) -> (r: Vec<RankedFunction>)
    ensures
        r@ == sort_ranked(v@),
{
    let ghost orig = v@;
    let mut rest = v;
    let mut out: Vec<RankedFunction> = Vec::new();
    let mut i: usize = 0;
    let n = rest.len();
    proof {
        assert(orig.take(0) =~= Seq::<RankedFunction>::empty());
        assert(rest@ =~= orig.skip(0));
    }
    while i < n
        invariant
            i <= n,
            n == orig.len(),
            rest@ == orig.skip(i as int),
            out@ == sort_ranked(orig.take(i as int)),
        decreases n - i,
    {
        // Take the next input element and insert it behind its equals.
        let x = rest.remove(0);
        proof {
            assert(orig.skip(i as int)[0] == orig[i as int]);
            assert(orig.skip(i as int).remove(0) =~= orig.skip(i as int + 1));
        }
        let ghost pre_out = out@;
        let mut pos: usize = 0;
        while pos < out.len() && rank_leq_exec(&out[pos], &x)
            invariant
                pos <= out@.len(),
                out@ == pre_out,
                forall|j: int| 0 <= j < pos ==> rank_leq(#[trigger] out@[j], x),
            decreases out@.len() - pos,
        {
            pos = pos + 1;
        }
        out.insert(pos, x);
        proof {
            lemma_insert_at(pre_out, x, pos as int);
            assert(out@ =~= pre_out.take(pos as int) + seq![x] + pre_out.skip(pos as int));
            assert(orig.take(i as int + 1).drop_last() =~= orig.take(i as int));
            assert(orig.take(i as int + 1).last() == orig[i as int]);
            assert(out@ == sort_ranked(orig.take(i as int + 1)));
        }
        i = i + 1;
    }
    proof {
        assert(orig.take(n as int) =~= orig);
    }
    out
}

/// Whether `s` is ordered by the ranking: every earlier element ranks no
/// later than every later one.
pub open spec fn sorted_ranked(s: Seq<RankedFunction>) -> bool {
    forall|i: int, j: int| 0 <= i < j < s.len() ==> rank_leq(#[trigger] s[i], #[trigger] s[j])
}

proof fn lemma_seq_lt_irrefl(a: Seq<char>)
    ensures
        !seq_lt(a, a),
    decreases a.len(),
{
    if a.len() > 0 {
        lemma_seq_lt_irrefl(a.drop_first());
    }
}

proof fn lemma_seq_lt_total(a: Seq<char>, b: Seq<char>)
    ensures
        seq_lt(a, b) || seq_lt(b, a) || a == b,
    decreases a.len() + b.len(),
{
    if a.len() == 0 && b.len() == 0 {
        assert(a =~= b);
    } else if a.len() > 0 && b.len() > 0 {
        if (a[0] as int) == (b[0] as int) {
            lemma_seq_lt_total(a.drop_first(), b.drop_first());
            if a.drop_first() == b.drop_first() {
                assert forall|i: int| 0 <= i < a.len() implies a[i] == b[i] by {
                    if i > 0 {
                        assert(a[i] == a.drop_first()[i - 1]);
                        assert(b[i] == b.drop_first()[i - 1]);
                    }
                }
                assert(a =~= b);
            }
        }
    }
}

proof fn lemma_seq_lt_trans(a: Seq<char>, b: Seq<char>, c: Seq<char>)
    requires
        seq_lt(a, b),
        seq_lt(b, c),
    ensures
        seq_lt(a, c),
    decreases a.len(),
{
    if a.len() > 0 && b.len() > 0 && c.len() > 0 {
        if (a[0] as int) == (b[0] as int) && (b[0] as int) == (c[0] as int) {
            lemma_seq_lt_trans(a.drop_first(), b.drop_first(), c.drop_first());
        }
    }
}

/// The ranking order is total: of any two functions, one ranks no later
/// than the other.
pub proof fn lemma_rank_total(a: RankedFunction, b: RankedFunction)
    ensures
        rank_leq(a, b) || rank_leq(b, a),
{
    lemma_seq_lt_total(a.file_path@, b.file_path@);
}

/// The ranking order is transitive.
pub proof fn lemma_rank_trans(a: RankedFunction, b: RankedFunction, c: RankedFunction)
    requires
        rank_leq(a, b),
        rank_leq(b, c),
    ensures
        rank_leq(a, c),
{
    let pa = a.file_path@;
    let pb = b.file_path@;
    let pc = c.file_path@;
    if a.function.cyclomatic_complexity == b.function.cyclomatic_complexity
        && b.function.cyclomatic_complexity == c.function.cyclomatic_complexity {
        if pa != pb && pb != pc {
            lemma_seq_lt_trans(pa, pb, pc);
            if pa == pc {
                lemma_seq_lt_trans(pa, pb, pa);
                lemma_seq_lt_irrefl(pa);
            }
        }
    }
}

proof fn lemma_insert_lower_bound(t: Seq<RankedFunction>, x: RankedFunction, b: RankedFunction)
    requires
        rank_leq(b, x),
        forall|i: int| 0 <= i < t.len() ==> rank_leq(b, #[trigger] t[i]),
    ensures
        forall|k: int|
            0 <= k < insert_ranked(t, x).len() ==> rank_leq(b, #[trigger] insert_ranked(t, x)[k]),
    decreases t.len(),
{
    let r = insert_ranked(t, x);
    if t.len() == 0 {
        assert(r[0] == x);
    } else if rank_leq(t[0], x) {
        assert(forall|i: int|
            0 <= i < t.drop_first().len() ==> rank_leq(b, #[trigger] t.drop_first()[i]));
        lemma_insert_lower_bound(t.drop_first(), x, b);
        assert forall|k: int| 0 <= k < r.len() implies rank_leq(b, #[trigger] r[k]) by {
            if k == 0 {
                assert(r[0] == t[0]);
            } else {
                assert(r[k] == insert_ranked(t.drop_first(), x)[k - 1]);
            }
        }
    } else {
        assert forall|k: int| 0 <= k < r.len() implies rank_leq(b, #[trigger] r[k]) by {
            if k == 0 {
                assert(r[0] == x);
            } else {
                assert(r[k] == t[k - 1]);
            }
        }
    }
}

proof fn lemma_insert_sorted(s: Seq<RankedFunction>, x: RankedFunction)
    requires
        sorted_ranked(s),
    ensures
        sorted_ranked(insert_ranked(s, x)),
    decreases s.len(),
{
    let r = insert_ranked(s, x);
    if s.len() == 0 {
    } else if rank_leq(s[0], x) {
        let tail = s.drop_first();
        assert(sorted_ranked(tail)) by {
            assert forall|i: int, j: int| 0 <= i < j < tail.len() implies rank_leq(
                #[trigger] tail[i],
                #[trigger] tail[j],
            ) by {
                assert(tail[i] == s[i + 1]);
                assert(tail[j] == s[j + 1]);
            }
        }
        lemma_insert_sorted(tail, x);
        assert(forall|i: int| 0 <= i < tail.len() ==> rank_leq(s[0], #[trigger] tail[i]));
        lemma_insert_lower_bound(tail, x, s[0]);
        assert forall|i: int, j: int| 0 <= i < j < r.len() implies rank_leq(
            #[trigger] r[i],
            #[trigger] r[j],
        ) by {
            if i == 0 {
                assert(r[j] == insert_ranked(tail, x)[j - 1]);
                assert(r[0] == s[0]);
            } else {
                assert(r[i] == insert_ranked(tail, x)[i - 1]);
                assert(r[j] == insert_ranked(tail, x)[j - 1]);
            }
        }
    } else {
        lemma_rank_total(s[0], x);
        assert(rank_leq(x, s[0]));
        assert forall|i: int, j: int| 0 <= i < j < r.len() implies rank_leq(
            #[trigger] r[i],
            #[trigger] r[j],
        ) by {
            if i == 0 {
                assert(r[0] == x);
                assert(r[j] == s[j - 1]);
                if j > 1 {
                    lemma_rank_trans(x, s[0], s[j - 1]);
                }
            } else {
                assert(r[i] == s[i - 1]);
                assert(r[j] == s[j - 1]);
            }
        }
    }
}

/// The ranking is really a sort: the ranked list is ordered by complexity
/// descending, ties broken by file path and then start line ascending.
pub proof fn lemma_sort_ranked_sorted(s: Seq<RankedFunction>)
    ensures
        sorted_ranked(sort_ranked(s)),
    decreases s.len(),
{
    if s.len() > 0 {
        lemma_sort_ranked_sorted(s.drop_last());
        lemma_insert_sorted(sort_ranked(s.drop_last()), s.last());
    }
}

/// The index of key `k` in the tally `t`, or `-1` when absent.
pub open spec fn key_index(t: Seq<(u64, nat)>, k: u64) -> int
    decreases t.len(),
{
    if t.len() == 0 {
        -1
    } else if t[0].0 == k {
        0
    } else {
        let r = key_index(t.drop_first(), k);
        if r == -1 {
            -1
        } else {
            r + 1
        }
    }
}

proof fn lemma_key_index_range(t: Seq<(u64, nat)>, k: u64)
    ensures
        -1 <= key_index(t, k) < t.len(),
        key_index(t, k) != -1 ==> t[key_index(t, k)].0 == k,
    decreases t.len(),
{
    if t.len() > 0 && t[0].0 != k {
        lemma_key_index_range(t.drop_first(), k);
    }
}

proof fn lemma_key_index_found(t: Seq<(u64, nat)>, k: u64, i: int)
    requires
        0 <= i < t.len(),
        t[i].0 == k,
        forall|j: int| 0 <= j < i ==> (#[trigger] t[j]).0 != k,
    ensures
        key_index(t, k) == i,
    decreases i,
{
    if i > 0 {
        lemma_key_index_found(t.drop_first(), k, i - 1);
    }
}

proof fn lemma_key_index_none(t: Seq<(u64, nat)>, k: u64)
    requires
        forall|j: int| 0 <= j < t.len() ==> (#[trigger] t[j]).0 != k,
    ensures
        key_index(t, k) == -1,
    decreases t.len(),
{
    if t.len() > 0 {
        lemma_key_index_none(t.drop_first(), k);
    }
}

/// The tally `t` with one more occurrence of key `k`.
pub open spec fn bump(t: Seq<(u64, nat)>, k: u64) -> Seq<(u64, nat)> {
    let i = key_index(t, k);
    if i == -1 {
        t.push((k, 1nat))
    } else {
        t.update(i, (k, (t[i].1 + 1) as nat))
    }
}

/// The histogram of `s`: each value with its number of occurrences, keyed
/// in order of first appearance.
pub open spec fn hist(s: Seq<u64>) -> Seq<(u64, nat)>
    decreases s.len(),
{
    if s.len() == 0 {
        Seq::empty()
    } else {
        bump(hist(s.drop_last()), s.last())
    }
}

/// The sum of the counts of a tally.
pub open spec fn hist_total(t: Seq<(u64, nat)>) -> nat
    decreases t.len(),
{
    if t.len() == 0 {
        0nat
    } else {
        hist_total(t.drop_last()) + t.last().1
    }
}

proof fn lemma_total_update_inc(t: Seq<(u64, nat)>, i: int)
    requires
        0 <= i < t.len(),
    ensures
        hist_total(t.update(i, (t[i].0, (t[i].1 + 1) as nat))) == hist_total(t) + 1,
    decreases t.len(),
{
    let t2 = t.update(i, (t[i].0, (t[i].1 + 1) as nat));
    if i == t.len() - 1 {
        assert(t2.drop_last() =~= t.drop_last());
    } else {
        assert(t2.drop_last() =~= t.drop_last().update(i, (t[i].0, (t[i].1 + 1) as nat)));
        lemma_total_update_inc(t.drop_last(), i);
        assert(t2.last() == t.last());
    }
}

proof fn lemma_total_push(t: Seq<(u64, nat)>, k: u64)
    ensures
        hist_total(t.push((k, 1nat))) == hist_total(t) + 1,
{
    assert(t.push((k, 1nat)).drop_last() =~= t);
}

/// The counts of a histogram add up to the number of tallied values.
pub proof fn lemma_hist_total(s: Seq<u64>)
    ensures
        hist_total(hist(s)) == s.len(),
    decreases s.len(),
{
    if s.len() > 0 {
        lemma_hist_total(s.drop_last());
        let t = hist(s.drop_last());
        let k = s.last();
        lemma_key_index_range(t, k);
        if key_index(t, k) == -1 {
            lemma_total_push(t, k);
        } else {
            lemma_total_update_inc(t, key_index(t, k));
        }
    }
}

/// What the stored histogram says about the ghost tally: same keys in the
/// same order, counts clamped to `u64`.
pub open spec fn hist_matches(e: Seq<(u64, u64)>, t: Seq<(u64, nat)>) -> bool {
    &&& e.len() == t.len()
    &&& forall|i: int|
        0 <= i < t.len() ==> (#[trigger] e[i]).0 == t[i].0 && e[i].1 == crate::metrics::sat64(
            t[i].1,
        )
}

proof fn lemma_hist_take(s: Seq<u64>, i: int)
    requires
        0 <= i < s.len(),
    ensures
        hist(s.take(i + 1)) == bump(hist(s.take(i)), s[i]),
{
    assert(s.take(i + 1).drop_last() =~= s.take(i));
    assert(s.take(i + 1).last() == s[i]);
}

/// Builds the histogram of `values`: one entry per distinct value, keyed in
/// order of first appearance, with its number of occurrences.
pub fn histogram(values: &Vec<u64>) -> (r: Vec<(u64, u64)>)
    ensures
        hist_matches(r@, hist(values@)),
{
    let mut r: Vec<(u64, u64)> = Vec::new();
    let mut i: usize = 0;
    proof {
        assert(values@.take(0) =~= Seq::<u64>::empty());
    }
    while i < values.len()
        invariant
            i <= values@.len(),
            hist_matches(r@, hist(values@.take(i as int))),
        decreases values@.len() - i,
    {
        let k = values[i];
        let ghost t = hist(values@.take(i as int));
        proof {
            lemma_hist_take(values@, i as int);
        }
        let mut pos: usize = 0;
        while pos < r.len() && r[pos].0 != k
            invariant
                pos <= r@.len(),
                hist_matches(r@, t),
                forall|j: int| 0 <= j < pos ==> (#[trigger] r@[j]).0 != k,
            decreases r@.len() - pos,
        {
            pos = pos + 1;
        }
        proof {
            assert forall|j: int| 0 <= j < pos implies (#[trigger] t[j]).0 != k by {
                assert(r@[j].0 == t[j].0);
            }
        }
        if pos < r.len() {
            let c = r[pos].1;
            proof {
                assert(t[pos as int].0 == k);
                lemma_key_index_found(t, k, pos as int);
                crate::metrics::lemma_sat_add(t[pos as int].1, 1);
            }
            let c1 = crate::metrics::sat_add64(c, 1);
            r.set(pos, (k, c1));
            proof {
                assert(hist_matches(r@, bump(t, k)));
            }
        } else {
            proof {
                assert(forall|j: int| 0 <= j < t.len() ==> (#[trigger] t[j]).0 != k);
                lemma_key_index_none(t, k);
            }
            r.push((k, 1));
            proof {
                assert(hist_matches(r@, bump(t, k)));
            }
        }
        i = i + 1;
    }
    proof {
        assert(values@.take(values@.len() as int) =~= values@);
    }
    r
}

} // verus!
