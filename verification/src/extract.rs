//! The function extractor: walks a parsed tree and yields one record per
//! function or method found, annotated with its metrics.

use vstd::prelude::*;
use vstd::string::StringExecFns;
use crate::adapter::{
    is_async_kind, is_call_kind, is_function_kind, is_name_kind, is_param_kind,
    is_param_list_kind, name_kind_matches,
};
use crate::lang::Language;
use crate::metrics::{
    count_complexity_points, cyclomatic_of, lemma_sat_add, nest_below, nesting_below, sat64,
    sat_add64,
};
use crate::source::{code_lines_between, count_code_lines};
use crate::text::str_eq;
use crate::tree::{any_forest, any_tree, lemma_any_forest_take, ParseNode};

verus! {

/// One analyzed function or method.
///
/// `start_line` and `end_line` are 1-based and inclusive; the complexity is
/// at least 1 (the baseline path); `lines_of_code` counts the non-blank,
/// non-comment lines of the span; `calls` holds the raw callee text of every
/// call found below the function, in source order.
#[derive(Clone, Debug, PartialEq)]
pub struct FunctionAnalysis {
    pub name: String,
    pub start_line: u64,
    pub end_line: u64,
    pub parameter_count: u64,
    pub cyclomatic_complexity: u64,
    pub nesting_depth: u64,
    pub lines_of_code: u64,
    pub is_async: bool,
    pub is_recursive: bool,
    pub calls: Vec<String>,
}

/// The name of the function defined by `n`: the text of the first direct
/// child that is a name node, or `anonymous` when there is none.
pub open spec fn fn_name_of(n: ParseNode) -> Seq<char> {
    first_name(n.children@)
}

/// The text of the first name node of `s`, or `anonymous`.
pub open spec fn first_name(s: Seq<ParseNode>) -> Seq<char>
    decreases s.len(),
{
    if s.len() == 0 {
        "anonymous"@
    } else if is_name_kind(s[0].kind@) {
        s[0].text@
    } else {
        first_name(s.drop_first())
    }
}

/// Extracts the name of the function defined by `n`.
pub fn extract_name(n: &ParseNode) -> (r: String)
    ensures
        r@ == fn_name_of(*n),
{
    let mut i: usize = 0;
    proof {
        assert(n.children@.skip(0) =~= n.children@);
    }
    while i < n.children.len()
        invariant
            i <= n.children@.len(),
            first_name(n.children@) == first_name(n.children@.skip(i as int)),
        decreases n.children@.len() - i,
    {
        if name_kind_matches(n.children[i].kind.as_str()) {
            return n.children[i].text.clone();
        }
        proof {
            assert(n.children@.skip(i as int).drop_first() =~= n.children@.skip(i as int + 1));
        }
        i = i + 1;
    }
    proof {
        assert(n.children@.skip(i as int) =~= Seq::<ParseNode>::empty());
    }
    String::from_str("anonymous")
}

/// How many actual parameters the parameter lists among `s` hold.
pub open spec fn param_forest(lang: Language, s: Seq<ParseNode>) -> nat
    decreases s.len(),
{
    if s.len() == 0 {
        0nat
    } else {
        param_forest(lang, s.drop_last()) + (if is_param_list_kind(lang, s.last().kind@) {
            params_in_list(lang, s.last().children@)
        } else {
            0nat
        })
    }
}

/// How many children of a parameter list are actual parameters.
pub open spec fn params_in_list(lang: Language, s: Seq<ParseNode>) -> nat
    decreases s.len(),
{
    if s.len() == 0 {
        0nat
    } else {
        params_in_list(lang, s.drop_last()) + (if is_param_kind(lang, s.last().kind@) {
            1nat
        } else {
            0nat
        })
    }
}

/// The parameter count of the function defined by `n`.
pub open spec fn param_count_of(lang: Language, n: ParseNode) -> nat {
    param_forest(lang, n.children@)
}

proof fn lemma_param_forest_take(lang: Language, s: Seq<ParseNode>, i: int)
    requires
        0 <= i < s.len(),
    ensures
        param_forest(lang, s.take(i + 1)) == param_forest(lang, s.take(i)) + (if is_param_list_kind(
            lang,
            s[i].kind@,
        ) {
            params_in_list(lang, s[i].children@)
        } else {
            0nat
        }),
{
    assert(s.take(i + 1).drop_last() =~= s.take(i));
    assert(s.take(i + 1).last() == s[i]);
}

proof fn lemma_params_in_list_take(lang: Language, s: Seq<ParseNode>, i: int)
    requires
        0 <= i < s.len(),
    ensures
        params_in_list(lang, s.take(i + 1)) == params_in_list(lang, s.take(i)) + (if is_param_kind(
            lang,
            s[i].kind@,
        ) {
            1nat
        } else {
            0nat
        }),
{
    assert(s.take(i + 1).drop_last() =~= s.take(i));
    assert(s.take(i + 1).last() == s[i]);
}

/// Counts the parameters in one parameter-list node.
fn count_params_in_list(lang: &Language, list: &ParseNode) -> (r: u64)
    ensures
        r == params_in_list(*lang, list.children@),
{
    let mut r: u64 = 0;
    let mut i: usize = 0;
    while i < list.children.len()
        invariant
            i <= list.children@.len(),
            r <= i,
            r == params_in_list(*lang, list.children@.take(i as int)),
        decreases list.children@.len() - i,
    {
        proof {
            lemma_params_in_list_take(*lang, list.children@, i as int);
        }
        if lang.param_kind(list.children[i].kind.as_str()) {
            r = r + 1;
        }
        i = i + 1;
    }
    proof {
        assert(list.children@.take(list.children@.len() as int) =~= list.children@);
    }
    r
}

/// Counts the parameters of the function defined by `n`.
pub fn count_parameters(lang: &Language, n: &ParseNode) -> (r: u64)
    ensures
        r == sat64(param_count_of(*lang, *n)),
{
    let mut r: u64 = 0;
    let ghost p = *lang;
    let mut i: usize = 0;
    while i < n.children.len()
        invariant
            i <= n.children@.len(),
            r == sat64(param_forest(*lang, n.children@.take(i as int))),
        decreases n.children@.len() - i,
    {
        proof {
            lemma_param_forest_take(*lang, n.children@, i as int);
        }
        if lang.param_list_kind(n.children[i].kind.as_str()) {
            let c = count_params_in_list(lang, &n.children[i]);
            proof {
                lemma_sat_add(
                    param_forest(*lang, n.children@.take(i as int)),
                    params_in_list(*lang, n.children@[i as int].children@),
                );
                assert(sat64(params_in_list(*lang, n.children@[i as int].children@)) == c);
            }
            r = sat_add64(r, c);
        }
        i = i + 1;
    }
    proof {
        assert(n.children@.take(n.children@.len() as int) =~= n.children@);
    }
    r
}

/// The raw callee texts of every call in the tree rooted at `n`, in
/// source order: a node first, then its children left to right.
pub open spec fn calls_tree(lang: Language, n: ParseNode) -> Seq<Seq<char>>
    decreases n,
{
    (if is_call_kind(lang, n.kind@) && n.children@.len() > 0 {
        seq![n.children@[0].text@]
    } else {
        Seq::<Seq<char>>::empty()
    }) + calls_forest(lang, n.children@)
}

/// The callee texts found in the trees of `s`, left to right.
pub open spec fn calls_forest(lang: Language, s: Seq<ParseNode>) -> Seq<Seq<char>>
    decreases s,
{
    if s.len() == 0 {
        Seq::<Seq<char>>::empty()
    } else {
        calls_forest(lang, s.drop_last()) + calls_tree(lang, s.last())
    }
}

proof fn lemma_calls_forest_take(lang: Language, s: Seq<ParseNode>, i: int)
    requires
        0 <= i < s.len(),
    ensures
        calls_forest(lang, s.take(i + 1)) == calls_forest(lang, s.take(i)) + calls_tree(
            lang,
            s[i],
        ),
{
    assert(s.take(i + 1).drop_last() =~= s.take(i));
    assert(s.take(i + 1).last() == s[i]);
}

/// Appends the callee texts of every call below `n` to `out`.
pub fn collect_calls(lang: &Language, n: &ParseNode, out: &mut Vec<String>)
    ensures
        final(out).deep_view() == old(out).deep_view() + calls_tree(*lang, *n),
    decreases *n,
{
    let ghost head: Seq<Seq<char>> = if is_call_kind(*lang, n.kind@) && n.children@.len() > 0 {
        seq![n.children@[0].text@]
    } else {
        Seq::<Seq<char>>::empty()
    };
    if lang.call_kind(n.kind.as_str()) && n.children.len() > 0 {
        let ghost before = out.deep_view();
        out.push(n.children[0].text.clone());
        proof {
            assert(out.deep_view() =~~= before + head);
        }
    } else {
        proof {
            assert(out.deep_view() =~~= old(out).deep_view() + head);
        }
    }
    let ghost base = out.deep_view();
    let mut i: usize = 0;
    proof {
        assert(calls_forest(*lang, n.children@.take(0)) =~~= Seq::<Seq<char>>::empty());
        assert(out.deep_view() =~~= base + calls_forest(*lang, n.children@.take(0)));
    }
    while i < n.children.len()
        invariant
            i <= n.children@.len(),
            base == old(out).deep_view() + head,
            out.deep_view() =~~= base + calls_forest(*lang, n.children@.take(i as int)),
        decreases n.children@.len() - i,
    {
        collect_calls(lang, &n.children[i], out);
        proof {
            lemma_calls_forest_take(*lang, n.children@, i as int);
            assert(out.deep_view() =~~= base + calls_forest(
                *lang,
                n.children@.take(i as int + 1),
            ));
        }
        i = i + 1;
    }
    proof {
        assert(n.children@.take(n.children@.len() as int) =~= n.children@);
        assert(out.deep_view() =~~= old(out).deep_view() + calls_tree(*lang, *n));
    }
}

/// The predicate picking the asynchrony-marker nodes.
pub open spec fn async_pred(lang: Language) -> spec_fn(ParseNode) -> bool {
    |x: ParseNode| is_async_kind(lang, x.kind@)
}

/// Whether the function defined by `n` carries this language's asynchrony
/// marker anywhere in its subtree.
pub open spec fn has_async(lang: Language, n: ParseNode) -> bool {
    any_tree(n, async_pred(lang))
}

/// Decides whether `n`'s subtree carries an asynchrony marker.
pub fn has_async_marker(lang: &Language, n: &ParseNode) -> (r: bool)
    ensures
        r == has_async(*lang, *n),
    decreases *n,
{
    let ghost p = async_pred(*lang);
    if lang.async_kind(n.kind.as_str()) {
        return true;
    }
    let mut i: usize = 0;
    while i < n.children.len()
        invariant
            i <= n.children@.len(),
            p == async_pred(*lang),
            !p(*n),
            !any_forest(n.children@.take(i as int), p),
        decreases n.children@.len() - i,
    {
        if has_async_marker(lang, &n.children[i]) {
            proof {
                lemma_any_forest_take(n.children@, p, i as int);
                crate::tree::lemma_any_forest_mono(n.children@, p, i as int + 1);
            }
            return true;
        }
        proof {
            lemma_any_forest_take(n.children@, p, i as int);
        }
        i = i + 1;
    }
    proof {
        assert(n.children@.take(n.children@.len() as int) =~= n.children@);
    }
    false
}

/// Whether the function defined by `n` calls itself by name.
pub open spec fn is_recursive_of(lang: Language, n: ParseNode) -> bool {
    fn_name_of(n) != "anonymous"@ && calls_tree(lang, n).contains(fn_name_of(n))
}

/// Whether any of `calls` equals `name`.
fn calls_contain(calls: &Vec<String>, name: &str) -> (r: bool)
    ensures
        r == calls.deep_view().contains(name@),
{
    let mut i: usize = 0;
    while i < calls.len()
        invariant
            i <= calls@.len(),
            forall|j: int| 0 <= j < i ==> calls.deep_view()[j] != name@,
        decreases calls@.len() - i,
    {
        if str_eq(calls[i].as_str(), name) {
            assert(calls.deep_view()[i as int] == name@);
            return true;
        }
        assert(calls.deep_view()[i as int] == calls@[i as int]@);
        i = i + 1;
    }
    assert(forall|j: int| 0 <= j < calls.deep_view().len() ==> calls.deep_view()[j] != name@);
    false
}

/// What every field of a record says about the function node it describes.
pub open spec fn fa_matches(
    lang: Language,
    lines: Seq<Seq<char>>,
    n: ParseNode,
    fa: FunctionAnalysis,
) -> bool {
    &&& fa.name@ == fn_name_of(n)
    &&& fa.start_line == n.start_line
    &&& fa.end_line == n.end_line
    &&& fa.parameter_count == sat64(param_count_of(lang, n))
    &&& fa.cyclomatic_complexity == sat64(cyclomatic_of(lang, n))
    &&& fa.nesting_depth == sat64(nest_below(lang, n))
    &&& fa.lines_of_code == loc_of(lines, n)
    &&& fa.is_async == has_async(lang, n)
    &&& fa.is_recursive == is_recursive_of(lang, n)
    &&& fa.calls.deep_view() == calls_tree(lang, n)
}

/// The lines of code of the span of `n`: the code lines among the lines
/// `n.start_line ..= n.end_line`, clamped to the file.
pub open spec fn loc_of(lines: Seq<Seq<char>>, n: ParseNode) -> nat {
    let a: int = if n.start_line >= 1 {
        n.start_line - 1
    } else {
        0
    };
    let b: int = if n.end_line <= lines.len() {
        n.end_line as int
    } else {
        lines.len() as int
    };
    code_lines_between(lines, a, b)
}

/// Builds the record for the function defined by `n`.
pub fn make_record(lang: &Language, n: &ParseNode, lines: &Vec<Vec<char>>) -> (r: FunctionAnalysis)
    ensures
        fa_matches(*lang, lines.deep_view(), *n, r),
{
    let name = extract_name(n);
    let points = count_complexity_points(lang, n);
    proof {
        lemma_sat_add(1, crate::metrics::complexity_points(*lang, *n));
    }
    let cyclomatic = sat_add64(1, points);
    let nesting = nesting_below(lang, n);
    let parameter_count = count_parameters(lang, n);
    let a0: u64 = if n.start_line >= 1 {
        n.start_line - 1
    } else {
        0
    };
    let a: usize = if a0 > lines.len() as u64 {
        lines.len()
    } else {
        a0 as usize
    };
    let b: usize = if n.end_line <= lines.len() as u64 {
        n.end_line as usize
    } else {
        lines.len()
    };
    let lines_of_code = count_code_lines(lines, a, b);
    proof {
        let lv = lines.deep_view();
        assert(lv.len() == lines@.len());
        if a0 > lines@.len() as u64 {
            // The span starts past the end of the file: both counts are zero.
            assert(code_lines_between(lv, a as int, b as int) == 0);
            assert(loc_of(lv, *n) == 0);
        } else {
            assert(a as int == a0 as int);
        }
    }
    let mut calls: Vec<String> = Vec::new();
    collect_calls(lang, n, &mut calls);
    let is_recursive = !str_eq(name.as_str(), "anonymous") && calls_contain(&calls, name.as_str());
    let is_async = has_async_marker(lang, n);
    FunctionAnalysis {
        name,
        start_line: n.start_line,
        end_line: n.end_line,
        parameter_count,
        cyclomatic_complexity: cyclomatic,
        nesting_depth: nesting,
        lines_of_code,
        is_async,
        is_recursive,
        calls,
    }
}

/// The function-definition nodes of the tree rooted at `n`, in source
/// order; a nested function appears after the one that encloses it.
pub open spec fn fn_nodes_tree(lang: Language, n: ParseNode) -> Seq<ParseNode>
    decreases n,
{
    (if is_function_kind(lang, n.kind@) {
        seq![n]
    } else {
        Seq::<ParseNode>::empty()
    }) + fn_nodes_forest(lang, n.children@)
}

/// The function-definition nodes of the trees of `s`, left to right.
pub open spec fn fn_nodes_forest(lang: Language, s: Seq<ParseNode>) -> Seq<ParseNode>
    decreases s,
{
    if s.len() == 0 {
        Seq::<ParseNode>::empty()
    } else {
        fn_nodes_forest(lang, s.drop_last()) + fn_nodes_tree(lang, s.last())
    }
}

proof fn lemma_fn_nodes_forest_take(lang: Language, s: Seq<ParseNode>, i: int)
    requires
        0 <= i < s.len(),
    ensures
        fn_nodes_forest(lang, s.take(i + 1)) == fn_nodes_forest(lang, s.take(i)) + fn_nodes_tree(
            lang,
            s[i],
        ),
{
    assert(s.take(i + 1).drop_last() =~= s.take(i));
    assert(s.take(i + 1).last() == s[i]);
}

/// Whether `rs` holds exactly one correct record per node of `nodes`.
pub open spec fn extraction_matches(
    lang: Language,
    lines: Seq<Seq<char>>,
    nodes: Seq<ParseNode>,
    rs: Seq<FunctionAnalysis>,
) -> bool {
    &&& rs.len() == nodes.len()
    &&& forall|i: int| 0 <= i < nodes.len() ==> fa_matches(lang, lines, nodes[i], #[trigger] rs[i])
}

/// Appends one record per function node below `n` to `out`.
fn collect_records(
    lang: &Language,
    n: &ParseNode,
    lines: &Vec<Vec<char>>,
    out: &mut Vec<FunctionAnalysis>,
)
    ensures
        final(out)@.len() == old(out)@.len() + fn_nodes_tree(*lang, *n).len(),
        forall|i: int| 0 <= i < old(out)@.len() ==> final(out)@[i] == old(out)@[i],
        extraction_matches(
            *lang,
            lines.deep_view(),
            fn_nodes_tree(*lang, *n),
            final(out)@.skip(old(out)@.len() as int),
        ),
    decreases *n,
{
    let ghost oldlen = old(out)@.len() as int;
    let ghost head: Seq<ParseNode> = if is_function_kind(*lang, n.kind@) {
        seq![*n]
    } else {
        Seq::<ParseNode>::empty()
    };
    if lang.function_kind(n.kind.as_str()) {
        let r = make_record(lang, n, lines);
        out.push(r);
        proof {
            assert(out@.skip(oldlen) =~= seq![r]);
        }
    }
    proof {
        assert(fn_nodes_forest(*lang, n.children@.take(0)) =~= Seq::<ParseNode>::empty());
        assert(extraction_matches(
            *lang,
            lines.deep_view(),
            head + fn_nodes_forest(*lang, n.children@.take(0)),
            out@.skip(oldlen),
        ));
    }
    let mut i: usize = 0;
    while i < n.children.len()
        invariant
            i <= n.children@.len(),
            oldlen == old(out)@.len() as int,
            head == if is_function_kind(*lang, n.kind@) {
                seq![*n]
            } else {
                Seq::<ParseNode>::empty()
            },
            out@.len() == oldlen + head.len() + fn_nodes_forest(
                *lang,
                n.children@.take(i as int),
            ).len(),
            forall|j: int| 0 <= j < oldlen ==> out@[j] == old(out)@[j],
            extraction_matches(
                *lang,
                lines.deep_view(),
                head + fn_nodes_forest(*lang, n.children@.take(i as int)),
                out@.skip(oldlen),
            ),
        decreases n.children@.len() - i,
    {
        let ghost pre = out@;
        let ghost f0 = head + fn_nodes_forest(*lang, n.children@.take(i as int));
        collect_records(lang, &n.children[i], lines, out);
        proof {
            lemma_fn_nodes_forest_take(*lang, n.children@, i as int);
            let lv = lines.deep_view();
            let ft = fn_nodes_tree(*lang, n.children@[i as int]);
            let f1 = head + fn_nodes_forest(*lang, n.children@.take(i as int + 1));
            assert(f1 =~= f0 + ft);
            assert(out@.len() == pre.len() + ft.len());
            assert forall|k: int| 0 <= k < f1.len() implies fa_matches(
                *lang,
                lv,
                f1[k],
                #[trigger] out@.skip(oldlen)[k],
            ) by {
                if k < f0.len() {
                    assert(f1[k] == f0[k]);
                    assert(out@.skip(oldlen)[k] == out@[oldlen + k]);
                    assert(out@[oldlen + k] == pre[oldlen + k]);
                    assert(pre.skip(oldlen)[k] == pre[oldlen + k]);
                } else {
                    assert(f1[k] == ft[k - f0.len()]);
                    assert(out@.skip(oldlen)[k] == out@[oldlen + k]);
                    assert(pre.len() == oldlen + f0.len());
                    assert(out@.skip(pre.len() as int)[k - f0.len()] == out@[oldlen + k]);
                }
            }
        }
        i = i + 1;
    }
    proof {
        assert(n.children@.take(n.children@.len() as int) =~= n.children@);
        assert(head + fn_nodes_forest(*lang, n.children@) =~= fn_nodes_tree(*lang, *n));
    }
}

/// Extracts one record per function or method found below `root`.
///
/// The records come in source order; every field of every record is pinned,
/// as a function of the language, the tree and the source lines alone, by
/// [`extraction_matches`].
pub fn extract_functions(lang: &Language, root: &ParseNode, lines: &Vec<Vec<char>>) -> (r: Vec<
    FunctionAnalysis,
>)
    ensures
        extraction_matches(*lang, lines.deep_view(), fn_nodes_tree(*lang, *root), r@),
{
    let mut out: Vec<FunctionAnalysis> = Vec::new();
    collect_records(lang, root, lines, &mut out);
    proof {
        assert(out@.skip(0) =~= out@);
    }
    out
}

} // verus!
