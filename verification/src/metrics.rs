//! Complexity and nesting metrics over syntax trees.
//!
//! The cyclomatic complexity of a span is one (its baseline path) plus the
//! number of decision and loop points anywhere below it; nested functions
//! and closures are not treated as boundaries, so their decision points
//! count toward the enclosing span as well. The nesting depth is the length
//! of the deepest chain of control-structure nodes.

use vstd::prelude::*;
use crate::adapter::{is_complexity_kind, is_control_kind};
use crate::lang::Language;
use crate::tree::{count_forest, count_tree, lemma_count_forest_take, ParseNode};

verus! {

/// The largest value a `u64` holds.
pub open spec fn u64_max() -> nat {
    0xffff_ffff_ffff_ffff as nat
}

/// `x` clamped to the range of `u64`.
pub open spec fn sat64(x: nat) -> u64 {
    if x > u64_max() {
        0xffff_ffff_ffff_ffffu64
    } else {
        x as u64
    }
}

/// Saturating addition on `u64`.
pub fn sat_add64(a: u64, b: u64) -> (r: u64)
    ensures
        r == sat64(a as nat + b as nat),
{
    if a > u64::MAX - b {
        u64::MAX
    } else {
        a + b
    }
}

/// Saturation distributes over addition.
pub proof fn lemma_sat_add(x: nat, y: nat)
    ensures
        sat64(sat64(x) as nat + sat64(y) as nat) == sat64(x + y),
{
}

/// The predicate picking the nodes that add one point of complexity.
pub open spec fn complexity_pred(lang: Language) -> spec_fn(ParseNode) -> bool {
    |x: ParseNode| is_complexity_kind(lang, x.kind@)
}

/// How many decision and loop points the tree rooted at `n` holds,
/// `n` itself included.
pub open spec fn complexity_points(lang: Language, n: ParseNode) -> nat {
    count_tree(n, complexity_pred(lang))
}

/// The cyclomatic complexity of the span rooted at `n`: one baseline path
/// plus one per decision or loop point.
pub open spec fn cyclomatic_of(lang: Language, n: ParseNode) -> nat {
    1 + complexity_points(lang, n)
}

/// Counts the decision and loop points in the tree rooted at `n`.
pub fn count_complexity_points(lang: &Language, n: &ParseNode) -> (r: u64)
    ensures
        r == sat64(complexity_points(*lang, *n)),
    decreases *n,
{
    let mut total: u64 = if lang.complexity_kind(n.kind.as_str()) {
        1
    } else {
        0
    };
    let ghost own: nat = total as nat;
    let mut i: usize = 0;
    while i < n.children.len()
        invariant
            i <= n.children@.len(),
            own == if complexity_pred(*lang)(*n) {
                1nat
            } else {
                0nat
            },
            total == sat64(own + count_forest(n.children@.take(i as int), complexity_pred(*lang))),
        decreases n.children@.len() - i,
    {
        let c = count_complexity_points(lang, &n.children[i]);
        proof {
            lemma_count_forest_take(n.children@, complexity_pred(*lang), i as int);
            lemma_sat_add(
                own + count_forest(n.children@.take(i as int), complexity_pred(*lang)),
                count_tree(n.children@[i as int], complexity_pred(*lang)),
            );
        }
        total = sat_add64(total, c);
        i = i + 1;
    }
    proof {
        assert(n.children@.take(n.children@.len() as int) =~= n.children@);
    }
    total
}

/// The complexity figures of one span of code. The engine computes no
/// separate cognitive measure; it mirrors the cyclomatic one.
pub struct ComplexityMetrics {
    pub cyclomatic: u64,
    pub cognitive: u64,
    pub nesting_depth: u64,
}

/// Computes the complexity metrics of the whole span rooted at `root`.
pub fn calculate_complexity(lang: &Language, root: &ParseNode) -> (r: ComplexityMetrics)
    ensures
        r.cyclomatic == sat64(cyclomatic_of(*lang, *root)),
        r.cognitive == r.cyclomatic,
        r.nesting_depth == sat64(nest_below(*lang, *root)),
{
    let points = count_complexity_points(lang, root);
    proof {
        lemma_sat_add(1, complexity_points(*lang, *root));
    }
    let cyclomatic = sat_add64(1, points);
    let nesting_depth = nesting_below(lang, root);
    ComplexityMetrics { cyclomatic, cognitive: cyclomatic, nesting_depth }
}

/// The predicate picking the control-structure nodes.
pub open spec fn control_pred(lang: Language) -> spec_fn(ParseNode) -> bool {
    |x: ParseNode| is_control_kind(lang, x.kind@)
}

/// The nesting depth immediately below `n`: the length of the deepest chain
/// of control-structure nodes among `n`'s descendants.
pub open spec fn nest_below(lang: Language, n: ParseNode) -> nat
    decreases n,
{
    nest_forest(lang, n.children@)
}

/// The deepest control-structure chain found in any tree of `s`.
pub open spec fn nest_forest(lang: Language, s: Seq<ParseNode>) -> nat
    decreases s,
{
    if s.len() == 0 {
        0nat
    } else {
        let rest = nest_forest(lang, s.drop_last());
        let here = (if is_control_kind(lang, s.last().kind@) {
            1nat
        } else {
            0nat
        }) + nest_below(lang, s.last());
        if rest >= here {
            rest
        } else {
            here
        }
    }
}

/// A forest-prefix version of `nest_forest`, one tree at a time.
pub proof fn lemma_nest_forest_take(lang: Language, s: Seq<ParseNode>, i: int)
    requires
        0 <= i < s.len(),
    ensures
        nest_forest(lang, s.take(i + 1)) == {
            let rest = nest_forest(lang, s.take(i));
            let here = (if is_control_kind(lang, s[i].kind@) {
                1nat
            } else {
                0nat
            }) + nest_below(lang, s[i]);
            if rest >= here {
                rest
            } else {
                here
            }
        },
{
    assert(s.take(i + 1).drop_last() =~= s.take(i));
    assert(s.take(i + 1).last() == s[i]);
}

/// The larger of two `u64` values.
pub fn max64(a: u64, b: u64) -> (r: u64)
    ensures
        r == if a >= b {
            a
        } else {
            b
        },
{
    if a >= b {
        a
    } else {
        b
    }
}

/// Computes the nesting depth below `n`.
pub fn nesting_below(lang: &Language, n: &ParseNode) -> (r: u64)
    ensures
        r == sat64(nest_below(*lang, *n)),
    decreases *n,
{
    let mut deepest: u64 = 0;
    let mut i: usize = 0;
    while i < n.children.len()
        invariant
            i <= n.children@.len(),
            deepest == sat64(nest_forest(*lang, n.children@.take(i as int))),
        decreases n.children@.len() - i,
    {
        let child = &n.children[i];
        let below = nesting_below(lang, child);
        let here: u64 = if lang.control_kind(child.kind.as_str()) {
            proof {
                lemma_sat_add(1, nest_below(*lang, n.children@[i as int]));
            }
            sat_add64(1, below)
        } else {
            below
        };
        proof {
            lemma_nest_forest_take(*lang, n.children@, i as int);
        }
        deepest = max64(deepest, here);
        i = i + 1;
    }
    proof {
        assert(n.children@.take(n.children@.len() as int) =~= n.children@);
    }
    deepest
}

} // verus!
