//! The syntax tree that the engine analyzes.
//!
//! A tree is a plain recursive value: every node carries the grammar's
//! node-kind string, the exact source text of its span, its (1-based,
//! inclusive) line span, a flag saying whether the parser marked the node as
//! an error, and its children in source order. All metric calculations are
//! verified functions over this value.

use vstd::prelude::*;

verus! {

/// One node of a parsed syntax tree.
pub struct ParseNode {
    /// The grammar's node-kind string (for example `if_expression`).
    pub kind: String,
    /// The exact source text that this node spans.
    pub text: String,
    /// 1-based line on which the node's span starts.
    pub start_line: u64,
    /// 1-based line on which the node's span ends (inclusive).
    pub end_line: u64,
    /// Whether the parser flagged this node as an error or as missing.
    pub is_error: bool,
    /// The node's children, in source order.
    pub children: Vec<ParseNode>,
}

/// How many nodes of the tree rooted at `n` (including `n` itself)
/// satisfy `p`.
pub open spec fn count_tree(n: ParseNode, p: spec_fn(ParseNode) -> bool) -> nat
    decreases n,
{
    (if p(n) {
        1nat
    } else {
        0nat
    }) + count_forest(n.children@, p)
}

/// How many nodes of the trees of `s`, taken together, satisfy `p`.
pub open spec fn count_forest(s: Seq<ParseNode>, p: spec_fn(ParseNode) -> bool) -> nat
    decreases s,
{
    if s.len() == 0 {
        0nat
    } else {
        count_forest(s.drop_last(), p) + count_tree(s.last(), p)
    }
}

/// Counting over a forest prefix grows by the last tree's count.
pub proof fn lemma_count_forest_take(s: Seq<ParseNode>, p: spec_fn(ParseNode) -> bool, i: int)
    requires
        0 <= i < s.len(),
    ensures
        count_forest(s.take(i + 1), p) == count_forest(s.take(i), p) + count_tree(s[i], p),
{
    assert(s.take(i + 1).drop_last() =~= s.take(i));
    assert(s.take(i + 1).last() == s[i]);
}

/// Whether any node of the tree rooted at `n` (including `n`) satisfies `p`.
pub open spec fn any_tree(n: ParseNode, p: spec_fn(ParseNode) -> bool) -> bool
    decreases n,
{
    p(n) || any_forest(n.children@, p)
}

/// Whether any node of the trees of `s` satisfies `p`.
pub open spec fn any_forest(s: Seq<ParseNode>, p: spec_fn(ParseNode) -> bool) -> bool
    decreases s,
{
    if s.len() == 0 {
        false
    } else {
        any_forest(s.drop_last(), p) || any_tree(s.last(), p)
    }
}

/// Extending a forest prefix by one tree extends what `any_forest` sees.
pub proof fn lemma_any_forest_take(s: Seq<ParseNode>, p: spec_fn(ParseNode) -> bool, i: int)
    requires
        0 <= i < s.len(),
    ensures
        any_forest(s.take(i + 1), p) == (any_forest(s.take(i), p) || any_tree(s[i], p)),
{
    assert(s.take(i + 1).drop_last() =~= s.take(i));
    assert(s.take(i + 1).last() == s[i]);
}

/// A match in a forest prefix is a match in the whole forest.
pub proof fn lemma_any_forest_mono(s: Seq<ParseNode>, p: spec_fn(ParseNode) -> bool, k: int)
    requires
        0 <= k <= s.len(),
        any_forest(s.take(k), p),
    ensures
        any_forest(s, p),
    decreases s.len() - k,
{
    if k == s.len() {
        assert(s.take(k) =~= s);
    } else {
        lemma_any_forest_take(s, p, k);
        lemma_any_forest_mono(s, p, k + 1);
    }
}

} // verus!
