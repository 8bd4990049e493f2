//! Plain-text charts for terminal output: bar charts, a complexity chart,
//! a histogram and a summary box. All arithmetic is integer arithmetic;
//! percentages are shown in tenths of a percent, rounded down.

use vstd::prelude::*;
use vstd::string::StringExecFns;
use crate::metrics::{lemma_sat_add, sat_add64};
use crate::text::{has_substring, is_prefix_of, match_at};

verus! {

/// The digit character of `d`.
pub open spec fn digit_char(d: nat) -> char {
    ((48 + d) as u8) as char
}

/// The decimal digits of `n`.
pub open spec fn dec_spec(n: nat) -> Seq<char>
    decreases n,
{
    if n < 10 {
        seq![digit_char(n)]
    } else {
        dec_spec(n / 10).push(digit_char(n % 10))
    }
}

/// Renders `n` in decimal.
pub fn u64_to_dec(n: u64) -> (r: String)
    ensures
        r@ == dec_spec(n as nat),
    decreases n,
{
    let digits = "0123456789";
    proof {
        reveal_strlit("0123456789");
    }
    let d = (n % 10) as usize;
    let piece = digits.substring_char(d, d + 1);
    proof {
        assert(piece@ =~= seq![digits@[d as int]]);
        assert(digits@[d as int] == digit_char((n % 10) as nat));
    }
    if n < 10 {
        String::from_str(piece)
    } else {
        let mut s = u64_to_dec(n / 10);
        s.append(piece);
        proof {
            assert(s@ =~= dec_spec((n / 10) as nat).push(digit_char((n % 10) as nat)));
        }
        s
    }
}

/// `value` as a percentage of `total`, in tenths of a percent, rounded
/// down; zero when `total` is zero.
pub open spec fn pct_tenths(value: u64, total: u64) -> nat {
    if total == 0 {
        0nat
    } else {
        ((value as int * 1000) / (total as int)) as nat
    }
}

/// Renders `value / total` as a percentage with one decimal place, rounded
/// down: for example `33.3%`.
pub fn format_percentage(value: u64, total: u64) -> (r: String)
    requires
        value <= total,
    ensures
        r@ == dec_spec(pct_tenths(value, total) / 10) + seq!['.'] + seq![
            digit_char(pct_tenths(value, total) % 10),
        ] + "%"@,
{
    let tenths: u64 = if total == 0 {
        0
    } else {
        proof {
            assert((value as int) * 1000 / (total as int) <= 1000) by (nonlinear_arith)
                requires
                    0 < total as int,
                    value as int <= total as int,
            ;
            assert((value as int) * 1000 <= 0xffff_ffff_ffff_ffff * 1000) by (nonlinear_arith)
                requires
                    value as int <= 0xffff_ffff_ffff_ffff,
            ;
        }
        ((value as u128) * 1000 / (total as u128)) as u64
    };
    let mut s = u64_to_dec(tenths / 10);
    let digits = "0123456789";
    proof {
        reveal_strlit("0123456789");
    }
    let d = (tenths % 10) as usize;
    let piece = digits.substring_char(d, d + 1);
    proof {
        assert(piece@ =~= seq![digits@[d as int]]);
        assert(digits@[d as int] == digit_char((tenths % 10) as nat));
    }
    s.append(".");
    s.append(piece);
    s.append("%");
    proof {
        reveal_strlit(".");
        assert("."@ =~= seq!['.']);
        assert(s@ =~= dec_spec(pct_tenths(value, total) / 10) + seq!['.'] + seq![
            digit_char(pct_tenths(value, total) % 10),
        ] + "%"@);
    }
    s
}

/// `n` blanks.
pub open spec fn spaces(n: nat) -> Seq<char>
    decreases n,
{
    if n == 0 {
        Seq::<char>::empty()
    } else {
        spaces((n - 1) as nat).push(' ')
    }
}

/// `s` padded with blanks to `max_len` characters, or cut to it with a
/// trailing ellipsis when it is longer.
pub open spec fn truncated(s: Seq<char>, max_len: nat) -> Seq<char> {
    if s.len() <= max_len {
        s + spaces((max_len - s.len()) as nat)
    } else {
        s.take(if max_len == 0 {
            0
        } else {
            max_len - 1
        }) + "\u{2026}"@
    }
}

/// Pads or cuts `s` to exactly the display width `max_len`.
pub fn truncate_string(s: &str, max_len: usize) -> (r: String)
    ensures
        r@ == truncated(s@, max_len as nat),
{
    let n = s.unicode_len();
    if n <= max_len {
        let mut r = String::from_str(s);
        let mut i: usize = 0;
        proof {
            assert(r@ =~= s@ + spaces(0));
        }
        while i < max_len - n
            invariant
                n <= max_len,
                n == s@.len(),
                i <= max_len - n,
                r@ == s@ + spaces(i as nat),
            decreases max_len - n - i,
        {
            r.append(" ");
            proof {
                reveal_strlit(" ");
                assert(" "@ =~= seq![' ']);
                assert(r@ =~= s@ + spaces((i + 1) as nat));
            }
            i = i + 1;
        }
        r
    } else {
        let keep = if max_len == 0 {
            0
        } else {
            max_len - 1
        };
        let mut r = String::from_str(s.substring_char(0, keep));
        r.append("\u{2026}");
        proof {
            assert(s@.subrange(0, keep as int) =~= s@.take(keep as int));
        }
        r
    }
}

/// `n` filled-block characters.
pub open spec fn blocks(n: nat) -> Seq<char>
    decreases n,
{
    if n == 0 {
        Seq::<char>::empty()
    } else {
        blocks((n - 1) as nat) + "\u{2588}"@
    }
}

/// Appends `count` filled-block characters.
fn push_bar(out: &mut String, count: u64)
    ensures
        final(out)@ == old(out)@ + blocks(count as nat),
{
    let mut i: u64 = 0;
    proof {
        assert(out@ =~= old(out)@ + blocks(0));
    }
    while i < count
        invariant
            i <= count,
            out@ == old(out)@ + blocks(i as nat),
        decreases count - i,
    {
        out.append("\u{2588}");
        proof {
            assert(out@ =~= old(out)@ + blocks((i + 1) as nat));
        }
        i = i + 1;
    }
}

/// The scaled bar length: `value * width / max_value`.
fn scaled(value: u64, max_value: u64, width: u64) -> (r: u64)
    requires
        value <= max_value,
    ensures
        r <= width,
{
    if max_value == 0 {
        0
    } else {
        proof {
            assert((value as int) * (width as int) / (max_value as int) <= width as int)
                by (nonlinear_arith)
                requires
                    0 < max_value as int,
                    value as int <= max_value as int,
            ;
            assert((value as int) * (width as int) <= 0xffff_ffff_ffff_ffff
                * 0xffff_ffff_ffff_ffff) by (nonlinear_arith)
                requires
                    value as int <= 0xffff_ffff_ffff_ffff,
                    width as int <= 0xffff_ffff_ffff_ffff,
            ;
        }
        ((value as u128) * (width as u128) / (max_value as u128)) as u64
    }
}

/// Renders a horizontal bar chart: the title, a rule, then one labeled bar
/// per entry, in the given order, with its value and share of the total.
pub fn generate_bar_chart(data: &Vec<(String, u64)>, title: &str, max_width: u64) -> (r: String)
    ensures
        is_prefix_of(title@, r@),
        forall|i: int|
            0 <= i < data@.len() ==> has_substring(r@, truncated((#[trigger] data@[i]).0@, 20)),
{
    let mut out = String::from_str(title);
    proof {
        assert(out@.subrange(0, title@.len() as int) =~= title@);
    }
    out.append("\n");
    if data.len() == 0 {
        out.append("(no data to display)\n");
        proof {
            assert(out@.subrange(0, title@.len() as int) =~= title@);
        }
        return out;
    }
    // The tallest bar and the sum of all values set the scale.
    let mut max_value: u64 = 0;
    let mut total: u64 = 0;
    let mut i: usize = 0;
    while i < data.len()
        invariant
            i <= data@.len(),
        decreases data@.len() - i,
    {
        if data[i].1 > max_value {
            max_value = data[i].1;
        }
        total = crate::metrics::sat_add64(total, data[i].1);
        i = i + 1;
    }
    let width = if max_width > 30 {
        max_width - 30
    } else {
        10
    };
    proof {
        assert(out@.subrange(0, title@.len() as int) =~= title@);
    }
    let mut i: usize = 0;
    while i < data.len()
        invariant
            i <= data@.len(),
            is_prefix_of(title@, out@),
            forall|j: int|
                0 <= j < i ==> has_substring(out@, truncated((#[trigger] data@[j]).0@, 20)),
        decreases data@.len() - i,
    {
        let ghost pre = out@;
        let value = data[i].1;
        // Compose the entry's line, label first, then add it at one stroke.
        let mut line = truncate_string(data[i].0.as_str(), 20);
        line.append(" |");
        let bar = if value <= max_value {
            scaled(value, max_value, width)
        } else {
            width
        };
        push_bar(&mut line, bar);
        line.append(" ");
        line.append(u64_to_dec(value).as_str());
        line.append(" (");
        if value <= total {
            line.append(format_percentage(value, total).as_str());
        }
        line.append(")\n");
        let ghost label = truncated(data@[i as int].0@, 20);
        proof {
            assert(line@.subrange(0, label.len() as int) =~= label);
        }
        out.append(line.as_str());
        proof {
            assert(out@.subrange(0, pre.len() as int) =~= pre);
            lemma_prefix_extends(title@, pre, out@);
            assert(out@.subrange(pre.len() as int, pre.len() as int + label.len() as int) =~= line@.subrange(
                0,
                label.len() as int,
            ));
            assert(match_at(out@, label, pre.len() as int));
            assert forall|j: int| 0 <= j < i + 1 implies has_substring(
                out@,
                truncated((#[trigger] data@[j]).0@, 20),
            ) by {
                if j < i {
                    lemma_substring_extends(truncated(data@[j].0@, 20), pre, out@);
                }
            }
        }
        i = i + 1;
    }
    out
}

/// A prefix of a string stays a prefix when the string only grows.
proof fn lemma_prefix_extends(p: Seq<char>, a: Seq<char>, b: Seq<char>)
    requires
        is_prefix_of(p, a),
        a.len() <= b.len(),
        b.subrange(0, a.len() as int) == a,
    ensures
        is_prefix_of(p, b),
{
    assert(b.subrange(0, p.len() as int) =~= a.subrange(0, p.len() as int));
}

/// A substring of a string survives when the string only grows.
proof fn lemma_substring_extends(x: Seq<char>, a: Seq<char>, b: Seq<char>)
    requires
        has_substring(a, x),
        a.len() <= b.len(),
        b.subrange(0, a.len() as int) == a,
    ensures
        has_substring(b, x),
{
    let w = choose|w: int| match_at(a, x, w);
    assert(b.subrange(w, w + x.len()) =~= a.subrange(w, w + x.len()));
    assert(match_at(b, x, w));
}

/// The risk marker of a complexity value: green up to 5, yellow up to 10,
/// red above.
pub open spec fn marker_spec(c: u64) -> Seq<char> {
    if c <= 5 {
        "\u{1f7e2} "@
    } else if c <= 10 {
        "\u{1f7e1} "@
    } else {
        "\u{1f534} "@
    }
}

/// Renders the complexity chart: one line per function (up to ten), with a
/// risk marker, the name and a scaled bar.
pub fn generate_complexity_chart(complexities: &Vec<(String, u64)>, max_width: u64) -> (r: String)
    ensures
        is_prefix_of("Complexity Distribution"@, r@),
        forall|i: int|
            0 <= i < complexities@.len() && i < 10 ==> {
                &&& has_substring(r@, truncated((#[trigger] complexities@[i]).0@, 20))
                &&& has_substring(r@, marker_spec(complexities@[i].1))
            },
{
    let mut out = String::from_str("Complexity Distribution");
    proof {
        assert(out@.subrange(0, "Complexity Distribution"@.len() as int)
            =~= "Complexity Distribution"@);
    }
    out.append("\n");
    if complexities.len() == 0 {
        out.append("(no functions analyzed)\n");
        proof {
            assert(out@.subrange(0, "Complexity Distribution"@.len() as int)
                =~= "Complexity Distribution"@);
        }
        return out;
    }
    let mut max_value: u64 = 1;
    let mut i: usize = 0;
    while i < complexities.len()
        invariant
            i <= complexities@.len(),
            max_value >= 1,
        decreases complexities@.len() - i,
    {
        if complexities[i].1 > max_value {
            max_value = complexities[i].1;
        }
        i = i + 1;
    }
    let width = if max_width > 30 {
        max_width - 30
    } else {
        10
    };
    proof {
        assert(out@.subrange(0, "Complexity Distribution"@.len() as int)
            =~= "Complexity Distribution"@);
    }
    let mut i: usize = 0;
    let shown = if complexities.len() < 10 {
        complexities.len()
    } else {
        10
    };
    while i < shown
        invariant
            max_value >= 1,
            shown == (if complexities@.len() < 10 {
                complexities@.len() as int
            } else {
                10
            }),
            shown <= complexities@.len(),
            i <= shown,
            is_prefix_of("Complexity Distribution"@, out@),
            forall|j: int|
                0 <= j < i ==> {
                    &&& has_substring(out@, truncated((#[trigger] complexities@[j]).0@, 20))
                    &&& has_substring(out@, marker_spec(complexities@[j].1))
                },
        decreases shown - i,
    {
        let ghost pre = out@;
        let c = complexities[i].1;
        let marker = if c <= 5 {
            "\u{1f7e2} "
        } else if c <= 10 {
            "\u{1f7e1} "
        } else {
            "\u{1f534} "
        };
        // Compose the entry's line, marker and label first.
        let mut line = String::from_str(marker);
        line.append(truncate_string(complexities[i].0.as_str(), 20).as_str());
        line.append(" |");
        let bar = if c <= max_value {
            scaled(c, max_value, width)
        } else {
            width
        };
        push_bar(&mut line, if bar == 0 {
            1
        } else {
            bar
        });
        line.append(" ");
        line.append(u64_to_dec(c).as_str());
        line.append("\n");
        let ghost mk = marker_spec(complexities@[i as int].1);
        let ghost label = truncated(complexities@[i as int].0@, 20);
        proof {
            assert(line@.subrange(0, mk.len() as int) =~= mk);
            assert(line@.subrange(mk.len() as int, mk.len() as int + label.len() as int)
                =~= label);
        }
        out.append(line.as_str());
        proof {
            assert(out@.subrange(0, pre.len() as int) =~= pre);
            lemma_prefix_extends("Complexity Distribution"@, pre, out@);
            assert(out@.subrange(pre.len() as int, pre.len() as int + mk.len() as int)
                =~= line@.subrange(0, mk.len() as int));
            assert(match_at(out@, mk, pre.len() as int));
            assert(out@.subrange(
                pre.len() as int + mk.len() as int,
                pre.len() as int + mk.len() as int + label.len() as int,
            ) =~= line@.subrange(mk.len() as int, mk.len() as int + label.len() as int));
            assert(match_at(out@, label, pre.len() as int + mk.len() as int));
            assert forall|j: int| 0 <= j < i + 1 implies {
                &&& has_substring(out@, truncated((#[trigger] complexities@[j]).0@, 20))
                &&& has_substring(out@, marker_spec(complexities@[j].1))
            } by {
                if j < i {
                    lemma_substring_extends(truncated(complexities@[j].0@, 20), pre, out@);
                    lemma_substring_extends(marker_spec(complexities@[j].1), pre, out@);
                }
            }
        }
        i = i + 1;
    }
    out
}


/// The bucket a value falls into: its offset from `lo`, scaled over the
/// spread into `bins` equal ranges, clamped to the last bucket.
pub open spec fn bin_index(v: u64, lo: u64, spread: u64, bins: int) -> int {
    let off: int = if v >= lo {
        v - lo
    } else {
        0
    };
    let raw: int = off * bins / (spread as int + 1);
    if raw >= bins {
        bins - 1
    } else {
        raw
    }
}

/// A bucket index is always one of the `bins` buckets.
pub proof fn lemma_bin_index_range(v: u64, lo: u64, spread: u64, bins: int)
    requires
        bins >= 1,
    ensures
        0 <= bin_index(v, lo, spread, bins) < bins,
{
    let off: int = if v >= lo {
        v - lo
    } else {
        0
    };
    assert(off * bins / (spread as int + 1) >= 0) by (nonlinear_arith)
        requires
            off >= 0,
            bins >= 1,
            spread as int + 1 >= 1,
    ;
}

/// How many of the values fall into bucket `b`.
pub open spec fn count_in_bin(values: Seq<u64>, lo: u64, spread: u64, bins: int, b: int) -> nat
    decreases values.len(),
{
    if values.len() == 0 {
        0nat
    } else {
        count_in_bin(values.drop_last(), lo, spread, bins, b) + (if bin_index(
            values.last(),
            lo,
            spread,
            bins,
        ) == b {
            1nat
        } else {
            0nat
        })
    }
}

/// The counts of the buckets below `b`, summed.
pub open spec fn counts_total(values: Seq<u64>, lo: u64, spread: u64, bins: int, b: int) -> nat
    decreases b,
{
    if b <= 0 {
        0nat
    } else {
        counts_total(values, lo, spread, bins, b - 1) + count_in_bin(values, lo, spread, bins, b - 1)
    }
}

proof fn lemma_counts_total_empty(lo: u64, spread: u64, bins: int, b: int)
    ensures
        counts_total(Seq::<u64>::empty(), lo, spread, bins, b) == 0,
    decreases b,
{
    if b > 0 {
        lemma_counts_total_empty(lo, spread, bins, b - 1);
    }
}

proof fn lemma_counts_total_value(values: Seq<u64>, lo: u64, spread: u64, bins: int, b: int)
    requires
        values.len() > 0,
    ensures
        counts_total(values, lo, spread, bins, b) == counts_total(
            values.drop_last(),
            lo,
            spread,
            bins,
            b,
        ) + (if 0 <= bin_index(values.last(), lo, spread, bins) < b {
            1nat
        } else {
            0nat
        }),
    decreases b,
{
    if b > 0 {
        lemma_counts_total_value(values, lo, spread, bins, b - 1);
    }
}

/// Every value lands in exactly one bucket: the bucket counts sum to the
/// number of values.
pub proof fn lemma_bin_partition(values: Seq<u64>, lo: u64, spread: u64, bins: int)
    requires
        bins >= 1,
    ensures
        counts_total(values, lo, spread, bins, bins) == values.len(),
    decreases values.len(),
{
    if values.len() > 0 {
        lemma_bin_partition(values.drop_last(), lo, spread, bins);
        lemma_counts_total_value(values, lo, spread, bins, bins);
        lemma_bin_index_range(values.last(), lo, spread, bins);
    } else {
        assert(values =~= Seq::<u64>::empty());
        lemma_counts_total_empty(lo, spread, bins, bins);
    }
}

proof fn lemma_count_in_bin_take(values: Seq<u64>, lo: u64, spread: u64, bins: int, b: int, i: int)
    requires
        0 <= i < values.len(),
    ensures
        count_in_bin(values.take(i + 1), lo, spread, bins, b) == count_in_bin(
            values.take(i),
            lo,
            spread,
            bins,
            b,
        ) + (if bin_index(values[i], lo, spread, bins) == b {
            1nat
        } else {
            0nat
        }),
{
    assert(values.take(i + 1).drop_last() =~= values.take(i));
    assert(values.take(i + 1).last() == values[i]);
}

/// Sorts the values into `bins` equal buckets over the spread `lo ..= lo +
/// spread` and counts each bucket's members; with `lemma_bin_partition`,
/// the counts sum to the number of values.
pub fn bin_counts(values: &Vec<u64>, lo: u64, spread: u64, bins: usize) -> (r: Vec<u64>)
    requires
        bins >= 1,
    ensures
        r@.len() == bins,
        forall|b: int|
            0 <= b < bins ==> #[trigger] r@[b] == crate::metrics::sat64(
                count_in_bin(values@, lo, spread, bins as int, b),
            ),
{
    let mut counts: Vec<u64> = Vec::new();
    let mut b: usize = 0;
    while b < bins
        invariant
            counts@.len() == b,
            b <= bins,
            forall|k: int| 0 <= k < b ==> #[trigger] counts@[k] == 0,
        decreases bins - b,
    {
        counts.push(0);
        b = b + 1;
    }
    let mut i: usize = 0;
    proof {
        assert(values@.take(0) =~= Seq::<u64>::empty());
    }
    while i < values.len()
        invariant
            i <= values@.len(),
            counts@.len() == bins,
            bins >= 1,
            forall|b: int|
                0 <= b < bins ==> #[trigger] counts@[b] == crate::metrics::sat64(
                    count_in_bin(values@.take(i as int), lo, spread, bins as int, b),
                ),
        decreases values@.len() - i,
    {
        let v = values[i];
        let off: u64 = if v >= lo {
            v - lo
        } else {
            0
        };
        proof {
            assert((off as int) * (bins as int) <= 0xffff_ffff_ffff_ffff
                * 0xffff_ffff_ffff_ffff) by (nonlinear_arith)
                requires
                    off as int <= 0xffff_ffff_ffff_ffff,
                    bins as int <= 0xffff_ffff_ffff_ffff,
            ;
            lemma_bin_index_range(v, lo, spread, bins as int);
        }
        let idx128: u128 = (off as u128) * (bins as u128) / ((spread as u128) + 1);
        let idx: usize = if idx128 < bins as u128 {
            idx128 as usize
        } else {
            bins - 1
        };
        proof {
            assert(idx as int == bin_index(v, lo, spread, bins as int));
        }
        let ghost pre = counts@;
        let c = counts[idx];
        proof {
            lemma_sat_add(
                count_in_bin(values@.take(i as int), lo, spread, bins as int, idx as int),
                1,
            );
        }
        counts.set(idx, sat_add64(c, 1));
        proof {
            assert forall|b: int| 0 <= b < bins implies #[trigger] counts@[b]
                == crate::metrics::sat64(
                count_in_bin(values@.take(i as int + 1), lo, spread, bins as int, b),
            ) by {
                lemma_count_in_bin_take(values@, lo, spread, bins as int, b, i as int);
                if b != idx as int {
                    assert(counts@[b] == pre[b]);
                }
            }
        }
        i = i + 1;
    }
    proof {
        assert(values@.take(values@.len() as int) =~= values@);
    }
    counts
}

/// Renders a histogram of `values` over `bins` equal ranges: the title, a
/// rule, then one bar per bin with its range and count.
pub fn generate_histogram(values: &Vec<u64>, title: &str, bins: usize, max_width: u64) -> (r:
    String)
    ensures
        is_prefix_of(title@, r@),
{
    let mut out = String::from_str(title);
    proof {
        assert(out@.subrange(0, title@.len() as int) =~= title@);
    }
    out.append("\n");
    if values.len() == 0 || bins == 0 {
        out.append("(no data to display)\n");
        proof {
            assert(out@.subrange(0, title@.len() as int) =~= title@);
        }
        return out;
    }
    let mut min_val = values[0];
    let mut max_val = values[0];
    let mut i: usize = 1;
    while i < values.len()
        invariant
            i <= values@.len(),
            min_val <= max_val,
        decreases values@.len() - i,
    {
        if values[i] < min_val {
            min_val = values[i];
        }
        if values[i] > max_val {
            max_val = values[i];
        }
        i = i + 1;
    }
    proof {
        assert(out@.subrange(0, title@.len() as int) =~= title@);
    }
    if min_val == max_val {
        let ghost pre = out@;
        out.append("all values are ");
        out.append(u64_to_dec(min_val).as_str());
        out.append("\n");
        proof {
            assert(out@.subrange(0, pre.len() as int) =~= pre);
            assert(pre.subrange(0, title@.len() as int) =~= title@);
            lemma_prefix_extends(title@, pre, out@);
        }
        return out;
    }
    // Count the values per bucket; the counts provably sum to the number
    // of values (`lemma_bin_partition`).
    let spread = max_val - min_val;
    let counts = bin_counts(values, min_val, spread, bins);
    let mut max_count: u64 = 1;
    let mut b: usize = 0;
    while b < bins
        invariant
            counts@.len() == bins,
            b <= bins,
            max_count >= 1,
        decreases bins - b,
    {
        if counts[b] > max_count {
            max_count = counts[b];
        }
        b = b + 1;
    }
    let width = if max_width > 20 {
        max_width - 20
    } else {
        10
    };
    let mut b: usize = 0;
    while b < bins
        invariant
            counts@.len() == bins,
            b <= bins,
            max_count >= 1,
            is_prefix_of(title@, out@),
        decreases bins - b,
    {
        let ghost pre = out@;
        let c = counts[b];
        out.append(u64_to_dec(b as u64).as_str());
        out.append(" |");
        let bar = if c <= max_count {
            scaled(c, max_count, width)
        } else {
            width
        };
        push_bar(&mut out, if bar == 0 && c > 0 {
            1
        } else {
            bar
        });
        out.append(" (");
        out.append(u64_to_dec(c).as_str());
        out.append(")\n");
        proof {
            assert(out@.subrange(0, pre.len() as int) =~= pre);
            lemma_prefix_extends(title@, pre, out@);
        }
        b = b + 1;
    }
    out
}

/// Renders a box with a title and one `key: value` line per metric.
pub fn generate_summary_box(metrics: &Vec<(String, String)>, title: &str) -> (r: String)
    ensures
        has_substring(r@, title@),
        forall|i: int|
            0 <= i < metrics@.len() ==> {
                &&& has_substring(r@, (#[trigger] metrics@[i]).0@)
                &&& has_substring(r@, metrics@[i].1@)
            },
{
    let mut out = String::from_str("\u{250c}\u{2500}\u{2500}\u{2500}\n\u{2502} ");
    let ghost at = out@.len() as int;
    out.append(title);
    proof {
        assert(out@.subrange(at, at + title@.len()) =~= title@);
        assert(match_at(out@, title@, at));
    }
    out.append("\n\u{251c}\u{2500}\u{2500}\u{2500}\n");
    proof {
        assert(out@.subrange(at, at + title@.len()) =~= title@);
        assert(match_at(out@, title@, at));
    }
    let mut i: usize = 0;
    while i < metrics.len()
        invariant
            i <= metrics@.len(),
            has_substring(out@, title@),
            forall|j: int|
                0 <= j < i ==> {
                    &&& has_substring(out@, (#[trigger] metrics@[j]).0@)
                    &&& has_substring(out@, metrics@[j].1@)
                },
        decreases metrics@.len() - i,
    {
        let ghost pre = out@;
        // Compose the entry's line, then add it at one stroke.
        let mut line = String::from_str("\u{2502} ");
        line.append(metrics[i].0.as_str());
        line.append(": ");
        line.append(metrics[i].1.as_str());
        line.append("\n");
        let ghost kofs = "\u{2502} "@.len() as int;
        let ghost key = metrics@[i as int].0@;
        let ghost vofs = kofs + key.len() + ": "@.len();
        let ghost value = metrics@[i as int].1@;
        proof {
            assert(line@.subrange(kofs, kofs + key.len()) =~= key);
            assert(line@.subrange(vofs, vofs + value.len()) =~= value);
        }
        out.append(line.as_str());
        proof {
            assert(out@.subrange(0, pre.len() as int) =~= pre);
            lemma_substring_extends(title@, pre, out@);
            assert(out@.subrange(pre.len() + kofs, pre.len() + kofs + key.len()) =~= line@.subrange(
                kofs,
                kofs + key.len(),
            ));
            assert(match_at(out@, key, pre.len() + kofs));
            assert(out@.subrange(pre.len() + vofs, pre.len() + vofs + value.len())
                =~= line@.subrange(vofs, vofs + value.len()));
            assert(match_at(out@, value, pre.len() + vofs));
            assert forall|j: int| 0 <= j < i + 1 implies {
                &&& has_substring(out@, (#[trigger] metrics@[j]).0@)
                &&& has_substring(out@, metrics@[j].1@)
            } by {
                if j < i {
                    lemma_substring_extends(metrics@[j].0@, pre, out@);
                    lemma_substring_extends(metrics@[j].1@, pre, out@);
                }
            }
        }
        i = i + 1;
    }
    let ghost pre = out@;
    out.append("\u{2514}\u{2500}\u{2500}\u{2500}\n");
    proof {
        assert(out@.subrange(0, pre.len() as int) =~= pre);
        lemma_substring_extends(title@, pre, out@);
        assert forall|j: int| 0 <= j < metrics@.len() implies {
            &&& has_substring(out@, (#[trigger] metrics@[j]).0@)
            &&& has_substring(out@, metrics@[j].1@)
        } by {
            lemma_substring_extends(metrics@[j].0@, pre, out@);
            lemma_substring_extends(metrics@[j].1@, pre, out@);
        }
    }
    out
}

} // verus!
