//! Laws the engine guarantees, stated and proved once over the
//! specifications the executable contracts use.

use vstd::prelude::*;
use crate::adapter::{is_control_kind, is_decision_kind};
use crate::extract::{fa_matches, FunctionAnalysis};
use crate::cycles::has_edge;
use crate::graph::{
    DependencyGraph, edge_tuple, edges_for_imports, edges_match, edges_of_files, import_resolves,
    ModuleImports, module_id_of,
};
use crate::lang::Language;
use crate::metrics::{complexity_points, complexity_pred, control_pred, cyclomatic_of, nest_below, nest_forest};
use crate::tree::{count_forest, count_tree, ParseNode};

verus! {

/// Baseline complexity: a span with no decision or loop point anywhere
/// below it has cyclomatic complexity exactly one.
pub proof fn lemma_baseline_complexity(lang: Language, n: ParseNode)
    requires
        complexity_points(lang, n) == 0,
    ensures
        cyclomatic_of(lang, n) == 1,
{
}

/// Concatenating forests adds their counts.
proof fn lemma_count_forest_concat(s: Seq<ParseNode>, t: Seq<ParseNode>, p: spec_fn(ParseNode) -> bool)
    ensures
        count_forest(s + t, p) == count_forest(s, p) + count_forest(t, p),
    decreases t.len(),
{
    if t.len() == 0 {
        assert(s + t =~= s);
    } else {
        assert((s + t).drop_last() =~= s + t.drop_last());
        assert((s + t).last() == t.last());
        lemma_count_forest_concat(s, t.drop_last(), p);
    }
}

/// `after` is `before` with exactly one new decision node — an `if` whose
/// own subtree holds no further decision or loop points — inserted
/// somewhere in its body, all else equal: either directly among the
/// children, or deeper inside exactly one of them.
pub open spec fn gains_one_decision(lang: Language, before: ParseNode, after: ParseNode) -> bool
    decreases after,
{
    &&& after.kind@ == before.kind@
    &&& ((exists|i: int|
        0 <= i <= before.children@.len() && {
            &&& after.children@.len() == before.children@.len() + 1
            &&& after.children@ =~= before.children@.take(i) + seq![#[trigger] after.children@[i]]
                + before.children@.skip(i)
            &&& is_decision_kind(lang, after.children@[i].kind@)
            &&& count_tree(after.children@[i], complexity_pred(lang)) == 1
        }) || (exists|i: int|
        0 <= i < before.children@.len() && {
            &&& after.children@.len() == before.children@.len()
            &&& gains_one_decision(lang, before.children@[i], #[trigger] after.children@[i])
            &&& (forall|j: int|
                0 <= j < after.children@.len() && j != i ==> after.children@[j]
                    == before.children@[j])
        }))
}

/// A forest that differs in one tree, whose count grew by one, counts one
/// more as a whole.
proof fn lemma_count_forest_bump(
    before: Seq<ParseNode>,
    after: Seq<ParseNode>,
    i: int,
    p: spec_fn(ParseNode) -> bool,
)
    requires
        before.len() == after.len(),
        0 <= i < before.len(),
        forall|j: int| 0 <= j < before.len() && j != i ==> after[j] == before[j],
        count_tree(after[i], p) == count_tree(before[i], p) + 1,
    ensures
        count_forest(after, p) == count_forest(before, p) + 1,
    decreases before.len(),
{
    if i == before.len() - 1 {
        assert(after.drop_last() =~= before.drop_last());
    } else {
        assert(forall|j: int|
            0 <= j < before.drop_last().len() && j != i ==> #[trigger] after.drop_last()[j]
                == before.drop_last()[j]);
        assert(after.drop_last()[i] == after[i] && before.drop_last()[i] == before[i]);
        lemma_count_forest_bump(before.drop_last(), after.drop_last(), i, p);
        assert(after.last() == before.last());
    }
}

/// Monotonic complexity: a function that gains exactly one additional
/// decision point anywhere in its body, all else equal, reports a
/// complexity higher by exactly one.
pub proof fn lemma_monotonic_complexity(lang: Language, before: ParseNode, after: ParseNode)
    requires
        gains_one_decision(lang, before, after),
    ensures
        cyclomatic_of(lang, after) == cyclomatic_of(lang, before) + 1,
    decreases after,
{
    let p = complexity_pred(lang);
    if exists|i: int|
        0 <= i <= before.children@.len() && {
            &&& after.children@.len() == before.children@.len() + 1
            &&& after.children@ =~= before.children@.take(i) + seq![#[trigger] after.children@[i]]
                + before.children@.skip(i)
            &&& is_decision_kind(lang, after.children@[i].kind@)
            &&& count_tree(after.children@[i], complexity_pred(lang)) == 1
        } {
        let i = choose|i: int|
            0 <= i <= before.children@.len() && {
                &&& after.children@.len() == before.children@.len() + 1
                &&& after.children@ =~= before.children@.take(i) + seq![
                    #[trigger] after.children@[i],
                ] + before.children@.skip(i)
                &&& is_decision_kind(lang, after.children@[i].kind@)
                &&& count_tree(after.children@[i], complexity_pred(lang)) == 1
            };
        let x = after.children@[i];
        lemma_count_forest_concat(before.children@.take(i), seq![x], p);
        lemma_count_forest_concat(before.children@.take(i) + seq![x], before.children@.skip(i), p);
        assert(seq![x].drop_last() =~= Seq::<ParseNode>::empty());
        assert(seq![x].last() == x);
        assert(count_forest(Seq::<ParseNode>::empty(), p) == 0);
        assert(count_forest(seq![x].drop_last(), p) == 0);
        assert(count_forest(seq![x], p) == count_tree(x, p));
        lemma_count_forest_concat(before.children@.take(i), before.children@.skip(i), p);
        assert(before.children@.take(i) + before.children@.skip(i) =~= before.children@);
        assert((before.children@.take(i) + seq![x]) + before.children@.skip(i)
            =~= before.children@.take(i) + seq![x] + before.children@.skip(i));
    } else {
        let i = choose|i: int|
            0 <= i < before.children@.len() && {
                &&& after.children@.len() == before.children@.len()
                &&& gains_one_decision(lang, before.children@[i], #[trigger] after.children@[i])
                &&& (forall|j: int|
                    0 <= j < after.children@.len() && j != i ==> after.children@[j]
                        == before.children@[j])
            };
        lemma_monotonic_complexity(lang, before.children@[i], after.children@[i]);
        lemma_count_forest_bump(before.children@, after.children@, i, p);
        assert(p(after) == p(before));
    }
}

/// A forest whose trees hold no matching node counts none.
proof fn lemma_count_forest_zero(s: Seq<ParseNode>, p: spec_fn(ParseNode) -> bool)
    requires
        forall|j: int| 0 <= j < s.len() ==> count_tree(#[trigger] s[j], p) == 0,
    ensures
        count_forest(s, p) == 0,
    decreases s.len(),
{
    if s.len() > 0 {
        lemma_count_forest_zero(s.drop_last(), p);
    }
}

/// A tree without control-structure nodes contributes no nesting depth.
proof fn lemma_no_control_no_nesting(lang: Language, n: ParseNode)
    requires
        count_tree(n, control_pred(lang)) == 0,
    ensures
        nest_below(lang, n) == 0,
    decreases n,
{
    lemma_no_control_no_nesting_forest(lang, n.children@);
}

proof fn lemma_no_control_no_nesting_forest(lang: Language, s: Seq<ParseNode>)
    requires
        count_forest(s, control_pred(lang)) == 0,
    ensures
        nest_forest(lang, s) == 0,
    decreases s,
{
    if s.len() > 0 {
        lemma_no_control_no_nesting_forest(lang, s.drop_last());
        lemma_no_control_no_nesting(lang, s.last());
        assert(count_tree(s.last(), control_pred(lang)) >= (if is_control_kind(
            lang,
            s.last().kind@,
        ) {
            1nat
        } else {
            0nat
        }));
    }
}

/// A uniformly nested chain of control structures, `d` levels deep: one
/// child continues the chain — through a control node, which adds a level,
/// or through a plain wrapper such as a block, which adds none — and every
/// other child holds no control node at all.
pub open spec fn control_chain(lang: Language, n: ParseNode, d: nat) -> bool
    decreases d, n,
{
    if d == 0 {
        count_tree(n, control_pred(lang)) == 0
    } else {
        exists|c: int|
            0 <= c < n.children@.len() && {
                &&& (forall|j: int|
                    0 <= j < n.children@.len() && j != c ==> count_tree(
                        #[trigger] n.children@[j],
                        control_pred(lang),
                    ) == 0)
                &&& if is_control_kind(lang, (#[trigger] n.children@[c]).kind@) {
                    control_chain(lang, n.children@[c], (d - 1) as nat)
                } else {
                    control_chain(lang, n.children@[c], d)
                }
            }
    }
}

/// The deepest chain in a forest with one designated tree: the chosen
/// tree's contribution, when every other tree holds no control node.
proof fn lemma_nest_forest_single(lang: Language, s: Seq<ParseNode>, c: int, d: nat)
    requires
        0 <= c < s.len(),
        (if is_control_kind(lang, s[c].kind@) {
            1nat
        } else {
            0nat
        }) + nest_below(lang, s[c]) == d,
        forall|j: int|
            0 <= j < s.len() && j != c ==> count_tree(#[trigger] s[j], control_pred(lang)) == 0,
    ensures
        nest_forest(lang, s) == d,
    decreases s.len(),
{
    if c == s.len() - 1 {
        assert(forall|j: int|
            0 <= j < s.drop_last().len() ==> count_tree(
                #[trigger] s.drop_last()[j],
                control_pred(lang),
            ) == 0);
        lemma_count_forest_zero(s.drop_last(), control_pred(lang));
        lemma_no_control_no_nesting_forest(lang, s.drop_last());
    } else {
        assert(forall|j: int|
            0 <= j < s.drop_last().len() && j != c ==> count_tree(
                #[trigger] s.drop_last()[j],
                control_pred(lang),
            ) == 0);
        lemma_nest_forest_single(lang, s.drop_last(), c, d);
        lemma_no_control_no_nesting(lang, s.last());
        assert(count_tree(s.last(), control_pred(lang)) >= (if is_control_kind(
            lang,
            s.last().kind@,
        ) {
            1nat
        } else {
            0nat
        }));
    }
}

/// Nesting depth sanity: a function whose body is a uniformly nested chain
/// of `d` control structures reports nesting depth exactly `d`.
pub proof fn lemma_nesting_depth(lang: Language, n: ParseNode, d: nat)
    requires
        control_chain(lang, n, d),
    ensures
        nest_below(lang, n) == d,
    decreases d, n,
{
    if d == 0 {
        lemma_no_control_no_nesting(lang, n);
    } else {
        let c = choose|c: int|
            0 <= c < n.children@.len() && {
                &&& (forall|j: int|
                    0 <= j < n.children@.len() && j != c ==> count_tree(
                        #[trigger] n.children@[j],
                        control_pred(lang),
                    ) == 0)
                &&& if is_control_kind(lang, (#[trigger] n.children@[c]).kind@) {
                    control_chain(lang, n.children@[c], (d - 1) as nat)
                } else {
                    control_chain(lang, n.children@[c], d)
                }
            };
        if is_control_kind(lang, n.children@[c].kind@) {
            lemma_nesting_depth(lang, n.children@[c], (d - 1) as nat);
        } else {
            lemma_nesting_depth(lang, n.children@[c], d);
        }
        lemma_nest_forest_single(lang, n.children@, c, d);
    }
}

/// Two records that describe the same function of the same parsed unit
/// agree in every field.
pub open spec fn records_agree(a: FunctionAnalysis, b: FunctionAnalysis) -> bool {
    &&& a.name@ == b.name@
    &&& a.start_line == b.start_line
    &&& a.end_line == b.end_line
    &&& a.parameter_count == b.parameter_count
    &&& a.cyclomatic_complexity == b.cyclomatic_complexity
    &&& a.nesting_depth == b.nesting_depth
    &&& a.lines_of_code == b.lines_of_code
    &&& a.is_async == b.is_async
    &&& a.is_recursive == b.is_recursive
    &&& a.calls.deep_view() == b.calls.deep_view()
}

/// Idempotence: every field of a function record is a function of the
/// language, the tree and the source lines alone, so two extractions from
/// the same parsed unit agree record by record.
pub proof fn lemma_extraction_deterministic(
    lang: Language,
    lines: Seq<Seq<char>>,
    node: ParseNode,
    a: FunctionAnalysis,
    b: FunctionAnalysis,
)
    requires
        fa_matches(lang, lines, node, a),
        fa_matches(lang, lines, node, b),
    ensures
        records_agree(a, b),
{
}

/// A resolving import of the file at index `i` yields its edge tuple
/// somewhere in the edge list.
proof fn lemma_edges_for_imports_contains(
    lang: Language,
    from_id: Seq<char>,
    imports: Seq<crate::imports::ImportInfo>,
    ids: Seq<Seq<char>>,
    j: int,
)
    requires
        0 <= j < imports.len(),
        import_resolves(imports[j], lang, ids),
    ensures
        edges_for_imports(lang, from_id, imports, ids).contains(
            edge_tuple(imports[j], lang, from_id),
        ),
    decreases imports.len(),
{
    let es = edges_for_imports(lang, from_id, imports, ids);
    if j == imports.len() - 1 {
        assert(es.last() == edge_tuple(imports[j], lang, from_id));
        assert(es[es.len() - 1] == edge_tuple(imports[j], lang, from_id));
    } else {
        lemma_edges_for_imports_contains(lang, from_id, imports.drop_last(), ids, j);
        assert(imports.drop_last()[j] == imports[j]);
        let prefix = edges_for_imports(lang, from_id, imports.drop_last(), ids);
        let w = choose|w: int|
            0 <= w < prefix.len() && prefix[w] == edge_tuple(imports[j], lang, from_id);
        assert(es[w] == edge_tuple(imports[j], lang, from_id));
    }
}

/// Round trip on imports: an internal import whose resolved target is a
/// known module id yields an edge from the importing module to that
/// target in the project's edge list.
pub proof fn lemma_import_round_trip(
    files: Seq<ModuleImports>,
    ids: Seq<Seq<char>>,
    i: int,
    j: int,
)
    requires
        0 <= i < files.len(),
        0 <= j < files[i].imports@.len(),
        import_resolves(files[i].imports@[j], files[i].language, ids),
    ensures
        edges_of_files(files, ids).contains(
            edge_tuple(
                files[i].imports@[j],
                files[i].language,
                module_id_of(files[i].language, files[i].path@),
            ),
        ),
    decreases files.len(),
{
    let t = edge_tuple(
        files[i].imports@[j],
        files[i].language,
        module_id_of(files[i].language, files[i].path@),
    );
    let es = edges_of_files(files, ids);
    if i == files.len() - 1 {
        lemma_edges_for_imports_contains(
            files[i].language,
            module_id_of(files[i].language, files[i].path@),
            files[i].imports@,
            ids,
            j,
        );
        let chunk = edges_for_imports(
            files[i].language,
            module_id_of(files[i].language, files[i].path@),
            files[i].imports@,
            ids,
        );
        let w = choose|w: int| 0 <= w < chunk.len() && chunk[w] == t;
        assert(es[edges_of_files(files.drop_last(), ids).len() + w] == t);
    } else {
        lemma_import_round_trip(files.drop_last(), ids, i, j);
        assert(files.drop_last()[i] == files[i]);
        let prefix = edges_of_files(files.drop_last(), ids);
        let w = choose|w: int| 0 <= w < prefix.len() && prefix[w] == t;
        assert(es[w] == t);
    }
}

proof fn lemma_edges_chunk_from(
    lang: Language,
    from_id: Seq<char>,
    imports: Seq<crate::imports::ImportInfo>,
    ids: Seq<Seq<char>>,
    k: int,
)
    requires
        0 <= k < edges_for_imports(lang, from_id, imports, ids).len(),
    ensures
        edges_for_imports(lang, from_id, imports, ids)[k].0 == from_id,
    decreases imports.len(),
{
    if imports.len() > 0 {
        let prefix = edges_for_imports(lang, from_id, imports.drop_last(), ids);
        if k < prefix.len() {
            lemma_edges_chunk_from(lang, from_id, imports.drop_last(), ids, k);
        }
    }
}

/// Every edge of the project leaves a module of the project: its source id
/// is the module id of one of the analyzed files.
pub proof fn lemma_edges_from_origin(files: Seq<ModuleImports>, ids: Seq<Seq<char>>, k: int)
    requires
        0 <= k < edges_of_files(files, ids).len(),
    ensures
        exists|i: int|
            0 <= i < files.len() && edges_of_files(files, ids)[k].0 == module_id_of(
                (#[trigger] files[i]).language,
                files[i].path@,
            ),
    decreases files.len(),
{
    if files.len() > 0 {
        let prefix = edges_of_files(files.drop_last(), ids);
        if k < prefix.len() {
            lemma_edges_from_origin(files.drop_last(), ids, k);
            let i = choose|i: int|
                0 <= i < files.drop_last().len() && prefix[k].0 == module_id_of(
                    (#[trigger] files.drop_last()[i]).language,
                    files.drop_last()[i].path@,
                );
            assert(files[i] == files.drop_last()[i]);
            assert(edges_of_files(files, ids)[k].0 == module_id_of(
                files[i].language,
                files[i].path@,
            ));
        } else {
            lemma_edges_chunk_from(
                files.last().language,
                module_id_of(files.last().language, files.last().path@),
                files.last().imports@,
                ids,
                k - prefix.len(),
            );
            let i = files.len() - 1;
            assert(edges_of_files(files, ids)[k].0 == module_id_of(
                files[i].language,
                files[i].path@,
            ));
        }
    }
}

/// No dangling edges: the target of every edge of the project is a known
/// module id — an import that does not resolve yields no edge at all.
pub proof fn lemma_edges_never_dangle(files: Seq<ModuleImports>, ids: Seq<Seq<char>>, k: int)
    requires
        0 <= k < edges_of_files(files, ids).len(),
    ensures
        ids.contains(edges_of_files(files, ids)[k].1),
    decreases files.len(),
{
    if files.len() > 0 {
        let prefix = edges_of_files(files.drop_last(), ids);
        if k < prefix.len() {
            lemma_edges_never_dangle(files.drop_last(), ids, k);
        } else {
            lemma_edges_chunk_resolved(
                files.last().language,
                module_id_of(files.last().language, files.last().path@),
                files.last().imports@,
                ids,
                k - prefix.len(),
            );
        }
    }
}

proof fn lemma_edges_chunk_resolved(
    lang: Language,
    from_id: Seq<char>,
    imports: Seq<crate::imports::ImportInfo>,
    ids: Seq<Seq<char>>,
    k: int,
)
    requires
        0 <= k < edges_for_imports(lang, from_id, imports, ids).len(),
    ensures
        ids.contains(edges_for_imports(lang, from_id, imports, ids)[k].1),
    decreases imports.len(),
{
    if imports.len() > 0 {
        let prefix = edges_for_imports(lang, from_id, imports.drop_last(), ids);
        if k < prefix.len() {
            lemma_edges_chunk_resolved(lang, from_id, imports.drop_last(), ids, k);
        }
    }
}


/// Round trip on imports, at the level of a built graph: when the graph's
/// edges realize the project's edge list and the import at `(i, j)`
/// resolves, the graph holds an edge from the importing module to the
/// resolved target.
pub proof fn lemma_graph_round_trip(
    g: DependencyGraph,
    files: Seq<ModuleImports>,
    ids: Seq<Seq<char>>,
    i: int,
    j: int,
)
    requires
        edges_match(g.edges@, edges_of_files(files, ids)),
        0 <= i < files.len(),
        0 <= j < files[i].imports@.len(),
        import_resolves(files[i].imports@[j], files[i].language, ids),
    ensures
        has_edge(
            g,
            module_id_of(files[i].language, files[i].path@),
            crate::graph::resolve_internal(files[i].language, files[i].imports@[j].module@),
        ),
{
    lemma_import_round_trip(files, ids, i, j);
    let t = edge_tuple(
        files[i].imports@[j],
        files[i].language,
        module_id_of(files[i].language, files[i].path@),
    );
    let es = edges_of_files(files, ids);
    let w = choose|w: int| 0 <= w < es.len() && es[w] == t;
    assert(crate::graph::edge_matches(g.edges@[w], es[w]));
    assert(g.edges@[w].from@ == t.0 && g.edges@[w].to@ == t.1);
}

} // verus!
