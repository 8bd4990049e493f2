//! Circular-dependency detection: a depth-first search over the dependency
//! graph with a recursion stack. Every reported cycle is a genuine directed
//! cycle of the graph, and its severity follows from its length alone.
//!
//! One representative cycle per search is reported: each node is the root
//! of a search at most once, so a strongly connected region yields one
//! cycle per run rather than every cycle it contains.

use vstd::prelude::*;
use crate::graph::DependencyGraph;

verus! {

/// The severity tier of a cycle, from the number of modules on it.
#[derive(Clone, Copy, Debug, PartialEq, Eq, Structural)]
pub enum CycleSeverity {
    Low,
    Medium,
    High,
}

/// One circular dependency: the module ids on the cycle, in order (the
/// edge from the last back to the first closes it), and its severity.
pub struct CircularDependency {
    pub cycle: Vec<String>,
    pub severity: CycleSeverity,
}

/// The severity tier of a cycle of `len` modules: one or two modules are
/// Low, three or four Medium, five or more High.
pub open spec fn severity_of(len: nat) -> CycleSeverity {
    if len <= 2 {
        CycleSeverity::Low
    } else if len <= 4 {
        CycleSeverity::Medium
    } else {
        CycleSeverity::High
    }
}

/// Whether the graph has an edge from module `a` to module `b`.
pub open spec fn has_edge(g: DependencyGraph, a: Seq<char>, b: Seq<char>) -> bool {
    exists|k: int|
        0 <= k < g.edges@.len() && (#[trigger] g.edges@[k]).from@ == a && g.edges@[k].to@ == b
}

/// Whether `cyc` is a directed cycle of `g`: consecutive modules are
/// connected, and an edge leads from the last back to the first.
pub open spec fn valid_cycle(g: DependencyGraph, cyc: Seq<Seq<char>>) -> bool {
    &&& cyc.len() >= 1
    &&& forall|k: int| 0 <= k < cyc.len() - 1 ==> has_edge(g, #[trigger] cyc[k], cyc[k + 1])
    &&& has_edge(g, cyc.last(), cyc.first())
}

/// What one reported circular dependency promises.
pub open spec fn cycle_ok(g: DependencyGraph, c: CircularDependency) -> bool {
    &&& valid_cycle(g, c.cycle.deep_view())
    &&& c.severity == severity_of(c.cycle@.len() as nat)
}

/// How many entries of `s` are false: the number of unvisited nodes.
pub open spec fn count_false(s: Seq<bool>) -> nat
    decreases s.len(),
{
    if s.len() == 0 {
        0nat
    } else {
        count_false(s.drop_last()) + (if s.last() {
            0nat
        } else {
            1nat
        })
    }
}

proof fn lemma_count_false_update(s: Seq<bool>, u: int)
    requires
        0 <= u < s.len(),
        !s[u],
    ensures
        count_false(s.update(u, true)) == count_false(s) - 1,
    decreases s.len(),
{
    if u == s.len() - 1 {
        assert(s.update(u, true).drop_last() =~= s.drop_last());
    } else {
        assert(s.update(u, true).drop_last() =~= s.drop_last().update(u, true));
        lemma_count_false_update(s.drop_last(), u);
    }
}

proof fn lemma_count_false_mono(s1: Seq<bool>, s2: Seq<bool>)
    requires
        s1.len() == s2.len(),
        forall|v: int| 0 <= v < s1.len() ==> (s1[v] ==> s2[v]),
    ensures
        count_false(s2) <= count_false(s1),
    decreases s1.len(),
{
    if s1.len() > 0 {
        lemma_count_false_mono(s1.drop_last(), s2.drop_last());
    }
}

/// The adjacency lists are sound: every listed neighbor is a node index,
/// and the graph holds the corresponding edge.
pub open spec fn adj_inv(g: DependencyGraph, adj: Seq<Seq<usize>>) -> bool {
    &&& adj.len() == g.nodes@.len()
    &&& forall|u: int, k: int|
        0 <= u < adj.len() && 0 <= k < adj[u].len() ==> {
            &&& (#[trigger] adj[u][k]) < g.nodes@.len()
            &&& has_edge(g, g.nodes@[u].id@, g.nodes@[adj[u][k] as int].id@)
        }
}

/// The search state is consistent: the path holds node indices, is
/// edge-connected, duplicate-free, and agrees with the recursion marks.
pub open spec fn state_inv(
    g: DependencyGraph,
    rec: Seq<bool>,
    path: Seq<usize>,
) -> bool {
    &&& rec.len() == g.nodes@.len()
    &&& forall|k: int| 0 <= k < path.len() ==> (#[trigger] path[k]) < g.nodes@.len()
    &&& forall|k: int|
        0 <= k < path.len() - 1 ==> has_edge(
            g,
            g.nodes@[#[trigger] path[k] as int].id@,
            g.nodes@[path[k + 1] as int].id@,
        )
    &&& forall|k1: int, k2: int|
        0 <= k1 < k2 < path.len() ==> #[trigger] path[k1] != #[trigger] path[k2]
    &&& forall|v: int| 0 <= v < rec.len() ==> (rec[v] <==> path.contains(v as usize))
}

/// The least node index whose id is `id`, or `-1` when no node has it.
pub open spec fn first_node_with_id(nodes: Seq<crate::graph::DependencyNode>, id: Seq<char>) -> int
    decreases nodes.len(),
{
    if nodes.len() == 0 {
        -1
    } else if nodes[0].id@ == id {
        0
    } else {
        let r = first_node_with_id(nodes.drop_first(), id);
        if r == -1 {
            -1
        } else {
            r + 1
        }
    }
}

/// Where the first node with a given id lies, and what `-1` means.
pub proof fn lemma_first_node_range(nodes: Seq<crate::graph::DependencyNode>, id: Seq<char>)
    ensures
        -1 <= first_node_with_id(nodes, id) < nodes.len(),
        first_node_with_id(nodes, id) != -1 ==> nodes[first_node_with_id(nodes, id)].id@ == id,
        first_node_with_id(nodes, id) == -1 ==> forall|j: int|
            0 <= j < nodes.len() ==> (#[trigger] nodes[j]).id@ != id,
    decreases nodes.len(),
{
    if nodes.len() > 0 && nodes[0].id@ != id {
        lemma_first_node_range(nodes.drop_first(), id);
        if first_node_with_id(nodes, id) == -1 {
            assert forall|j: int| 0 <= j < nodes.len() implies (#[trigger] nodes[j]).id@ != id by {
                if j > 0 {
                    assert(nodes.drop_first()[j - 1] == nodes[j]);
                }
            }
        }
    }
}

proof fn lemma_first_node_found(nodes: Seq<crate::graph::DependencyNode>, id: Seq<char>, i: int)
    requires
        0 <= i < nodes.len(),
        nodes[i].id@ == id,
        forall|j: int| 0 <= j < i ==> (#[trigger] nodes[j]).id@ != id,
    ensures
        first_node_with_id(nodes, id) == i,
    decreases i,
{
    if i > 0 {
        assert forall|j: int| 0 <= j < i - 1 implies (#[trigger] nodes.drop_first()[j]).id@ != id
            by {
            assert(nodes.drop_first()[j] == nodes[j + 1]);
        }
        assert(nodes.drop_first()[i - 1] == nodes[i]);
        lemma_first_node_found(nodes.drop_first(), id, i - 1);
    }
}

/// Finds the first node whose id is `target`.
fn find_node_index(g: &DependencyGraph, target: &str) -> (r: Option<usize>)
    ensures
        match r {
            Some(v) => v as int == first_node_with_id(g.nodes@, target@) && v < g.nodes@.len()
                && g.nodes@[v as int].id@ == target@,
            None => first_node_with_id(g.nodes@, target@) == -1,
        },
{
    let mut v: usize = 0;
    while v < g.nodes.len()
        invariant
            v <= g.nodes@.len(),
            forall|j: int| 0 <= j < v ==> (#[trigger] g.nodes@[j]).id@ != target@,
        decreases g.nodes@.len() - v,
    {
        if crate::text::str_eq(g.nodes[v].id.as_str(), target) {
            proof {
                lemma_first_node_found(g.nodes@, target@, v as int);
            }
            return Some(v);
        }
        v = v + 1;
    }
    proof {
        lemma_first_node_range(g.nodes@, target@);
        if first_node_with_id(g.nodes@, target@) != -1 {
            assert(false);
        }
    }
    None
}

/// Every edge endpoint names some node of the graph.
pub open spec fn edges_closed(g: DependencyGraph) -> bool {
    forall|k: int|
        0 <= k < g.edges@.len() ==> {
            &&& first_node_with_id(g.nodes@, (#[trigger] g.edges@[k]).from@) >= 0
            &&& first_node_with_id(g.nodes@, g.edges@[k].to@) >= 0
        }
}

/// The adjacency lists are complete: every edge leaving node `x`'s id
/// contributes the first node carrying its target id to `x`'s row.
pub open spec fn adj_complete(g: DependencyGraph, adj: Seq<Seq<usize>>) -> bool {
    forall|x: int, k: int|
        0 <= x < adj.len() && 0 <= k < g.edges@.len() && (#[trigger] g.edges@[k]).from@
            == g.nodes@[x].id@ && first_node_with_id(g.nodes@, g.edges@[k].to@) >= 0 ==> (
        #[trigger] adj[x]).contains(first_node_with_id(g.nodes@, g.edges@[k].to@) as usize)
}

/// The finish order agrees with the search state: the finished nodes —
/// visited and off the recursion stack — appear in it exactly once, and
/// every neighbor of a finished node finished strictly earlier.
pub open spec fn done_inv(
    g: DependencyGraph,
    adj: Seq<Seq<usize>>,
    visited: Seq<bool>,
    rec: Seq<bool>,
    done: Seq<usize>,
) -> bool {
    &&& adj.len() == g.nodes@.len()
    &&& forall|p: int| 0 <= p < done.len() ==> (#[trigger] done[p]) < g.nodes@.len()
    &&& forall|p: int, q: int| 0 <= p < q < done.len() ==> #[trigger] done[p] != #[trigger] done[q]
    &&& forall|v: int|
        0 <= v < g.nodes@.len() ==> ((visited[v] && !rec[v]) <==> #[trigger] done.contains(
            v as usize,
        ))
    &&& forall|p: int, k: int|
        0 <= p < done.len() && 0 <= k < adj[done[p] as int].len() ==> done.take(p).contains(
            #[trigger] adj[done[p] as int][k],
        )
}

/// Either a cycle has already been reported, or the finish order is a
/// valid topological record of the search so far.
pub open spec fn search_safe(
    g: DependencyGraph,
    adj: Seq<Seq<usize>>,
    visited: Seq<bool>,
    rec: Seq<bool>,
    done: Seq<usize>,
    out: Seq<CircularDependency>,
) -> bool {
    out.len() > 0 || done_inv(g, adj, visited, rec, done)
}

/// The position of `v` in the finish order.
pub open spec fn pos_in(done: Seq<usize>, v: usize) -> int {
    choose|q: int| 0 <= q < done.len() && done[q] == v
}

proof fn lemma_pos_in(done: Seq<usize>, v: usize)
    requires
        done.contains(v),
    ensures
        0 <= pos_in(done, v) < done.len(),
        done[pos_in(done, v)] == v,
{
    let q = choose|q: int| 0 <= q < done.len() && done[q] == v;
    assert(0 <= pos_in(done, v) < done.len() && done[pos_in(done, v)] == v);
}

/// On a complete topological finish order, following the cycle's edges
/// pushes the position of the current module above any bound: the heart of
/// the impossibility of a cycle surviving a completed search.
proof fn lemma_pos_at_least(
    g: DependencyGraph,
    adj: Seq<Seq<usize>>,
    done: Seq<usize>,
    cyc: Seq<Seq<char>>,
    k: int,
    j: nat,
)
    requires
        adj.len() == g.nodes@.len(),
        edges_closed(g),
        adj_complete(g, adj),
        valid_cycle(g, cyc),
        0 <= k < cyc.len(),
        forall|p: int| 0 <= p < done.len() ==> (#[trigger] done[p]) < g.nodes@.len(),
        forall|p: int, q: int| 0 <= p < q < done.len() ==> #[trigger] done[p] != #[trigger] done[q],
        forall|v: int| 0 <= v < g.nodes@.len() ==> #[trigger] done.contains(v as usize),
        forall|p: int, kk: int|
            0 <= p < done.len() && 0 <= kk < adj[done[p] as int].len() ==> done.take(p).contains(
                #[trigger] adj[done[p] as int][kk],
            ),
    ensures
        pos_in(done, first_node_with_id(g.nodes@, cyc[k]) as usize) >= j,
    decreases j,
{
    let m = cyc.len();
    let next: int = if k == m - 1 {
        0
    } else {
        k + 1
    };
    if k == m - 1 {
        assert(cyc.last() == cyc[k] && cyc.first() == cyc[next]);
        assert(has_edge(g, cyc[k], cyc[next]));
    } else {
        assert(has_edge(g, cyc[k], cyc[next]));
    }
    let e = choose|e: int|
        0 <= e < g.edges@.len() && (#[trigger] g.edges@[e]).from@ == cyc[k] && g.edges@[e].to@
            == cyc[next];
    assert(g.nodes.len() == g.nodes@.len());
    lemma_first_node_range(g.nodes@, cyc[k]);
    lemma_first_node_range(g.nodes@, cyc[next]);
    let uk = first_node_with_id(g.nodes@, cyc[k]);
    let un = first_node_with_id(g.nodes@, cyc[next]);
    assert(uk >= 0 && un >= 0);
    assert(g.nodes@[uk].id@ == cyc[k]);
    assert(adj[uk].contains(un as usize));
    assert(done.contains(uk as usize));
    lemma_pos_in(done, uk as usize);
    let p = pos_in(done, uk as usize);
    assert(done[p] == uk as usize);
    if j > 0 {
        let kk = choose|kk: int| 0 <= kk < adj[uk].len() && adj[uk][kk] == un as usize;
        assert(0 <= kk < adj[uk].len() && adj[uk][kk] == un as usize);
        assert(done[p] == uk as usize);
        assert(done[p] as int == uk);
        assert(adj[done[p] as int][kk] == un as usize);
        assert(done.take(p).contains(un as usize));
        let q = choose|q: int| 0 <= q < done.take(p).len() && done.take(p)[q] == un as usize;
        assert(done[q] == un as usize && q < p);
        lemma_pos_in(done, un as usize);
        let pn = pos_in(done, un as usize);
        assert(pn == q) by {
            if pn < q {
                assert(done[pn] != done[q]);
            }
            if q < pn {
                assert(done[q] != done[pn]);
            }
        }
        lemma_pos_at_least(g, adj, done, cyc, next, (j - 1) as nat);
        assert(pos_in(done, un as usize) >= j - 1);
        assert(p > pn);
    }
}

/// Builds the module-id strings of the cycle `path[pos..]`.
fn cycle_ids(g: &DependencyGraph, path: &Vec<usize>, pos: usize) -> (r: Vec<String>)
    requires
        pos < path@.len(),
        forall|k: int| 0 <= k < path@.len() ==> (#[trigger] path@[k]) < g.nodes@.len(),
    ensures
        r@.len() == path@.len() - pos,
        forall|k: int|
            0 <= k < r@.len() ==> r.deep_view()[k] == g.nodes@[path@[pos + k] as int].id@,
{
    let mut r: Vec<String> = Vec::new();
    let mut k: usize = pos;
    while k < path.len()
        invariant
            pos <= k <= path@.len(),
            forall|j: int| 0 <= j < path@.len() ==> (#[trigger] path@[j]) < g.nodes@.len(),
            r@.len() == k - pos,
            forall|j: int|
                0 <= j < r@.len() ==> r.deep_view()[j] == g.nodes@[path@[pos + j] as int].id@,
        decreases path@.len() - k,
    {
        let ghost predeep = r.deep_view();
        r.push(g.nodes[path[k]].id.clone());
        proof {
            assert forall|j: int| 0 <= j < r@.len() implies r.deep_view()[j] == g.nodes@[path@[
                pos + j
            ] as int].id@ by {
                assert(r.deep_view()[j] == r@[j]@);
                if j < r@.len() - 1 {
                    assert(predeep[j] == r@[j]@);
                }
            }
        }
        k = k + 1;
    }
    r
}

/// One step of the search, rooted at node `u`. Marks everything it reaches
/// visited, restores the recursion stack and path, and appends only
/// genuine cycles to `out`.
fn dfs(
    g: &DependencyGraph,
    adj: &Vec<Vec<usize>>,
    u: usize,
    visited: &mut Vec<bool>,
    rec: &mut Vec<bool>,
    path: &mut Vec<usize>,
    done: &mut Vec<usize>,
    out: &mut Vec<CircularDependency>,
)
    requires
        adj_inv(*g, adj.deep_view()),
        adj.deep_view().len() == g.nodes@.len(),
        u < g.nodes@.len(),
        old(visited)@.len() == g.nodes@.len(),
        !old(visited)@[u as int],
        state_inv(*g, old(rec)@, old(path)@),
        !old(rec)@[u as int],
        forall|v: int| 0 <= v < old(rec)@.len() ==> (old(rec)@[v] ==> old(visited)@[v]),
        old(path)@.len() > 0 ==> has_edge(
            *g,
            g.nodes@[old(path)@.last() as int].id@,
            g.nodes@[u as int].id@,
        ),
        search_safe(*g, adj.deep_view(), old(visited)@, old(rec)@, old(done)@, old(out)@),
    ensures
        final(visited)@.len() == old(visited)@.len(),
        forall|v: int|
            0 <= v < old(visited)@.len() ==> (old(visited)@[v] ==> #[trigger] final(visited)@[v]),
        final(visited)@[u as int],
        count_false(final(visited)@) < count_false(old(visited)@),
        final(rec)@ == old(rec)@,
        final(path)@ == old(path)@,
        final(out)@.len() >= old(out)@.len(),
        forall|i: int| 0 <= i < old(out)@.len() ==> final(out)@[i] == old(out)@[i],
        forall|i: int|
            old(out)@.len() <= i < final(out)@.len() ==> cycle_ok(*g, #[trigger] final(out)@[i]),
        final(done)@.len() >= old(done)@.len(),
        forall|j: int| 0 <= j < old(done)@.len() ==> final(done)@[j] == old(done)@[j],
        search_safe(*g, adj.deep_view(), final(visited)@, final(rec)@, final(done)@, final(out)@),
        final(out)@.len() > 0 || final(done)@.contains(u as usize),
    decreases count_false(old(visited)@),
{
    let ghost entry_visited = visited@;
    let n = visited.len();
    visited.set(u, true);
    rec.set(u, true);
    path.push(u);
    proof {
        lemma_count_false_update(entry_visited, u as int);
        assert forall|v: int| 0 <= v < rec@.len() implies (rec@[v] <==> path@.contains(v as usize))
            by {
            if v == u as int {
                assert(path@.last() == u);
                assert(path@.contains(u));
            } else {
                if path@.contains(v as usize) {
                    let w = choose|k: int| 0 <= k < path@.len() && path@[k] == v as usize;
                    if w < path@.len() - 1 {
                        assert(old(path)@[w] == v as usize);
                        assert(old(path)@.contains(v as usize));
                    }
                }
                if old(path)@.contains(v as usize) {
                    let w = choose|k: int|
                        0 <= k < old(path)@.len() && old(path)@[k] == v as usize;
                    assert(path@[w] == v as usize);
                    assert(path@.contains(v as usize));
                }
            }
        }
        assert(state_inv(*g, rec@, path@));
        // Marking `u` visited and on the stack leaves the finish order
        // consistent: `u` was unvisited, so it is not in the order yet.
        if old(out)@.len() == 0 {
            assert(done_inv(*g, adj.deep_view(), entry_visited, old(rec)@, done@));
            assert forall|v: int| 0 <= v < g.nodes@.len() implies ((visited@[v] && !rec@[v])
                <==> #[trigger] done@.contains(v as usize)) by {
                if v == u as int {
                    assert(!(entry_visited[v] && !old(rec)@[v]));
                }
            }
            assert(done_inv(*g, adj.deep_view(), visited@, rec@, done@));
        }
    }
    let row_len = adj[u].len();
    let mut i: usize = 0;
    while i < row_len
        invariant
            adj_inv(*g, adj.deep_view()),
            adj.deep_view().len() == g.nodes@.len(),
            u < g.nodes@.len(),
            row_len == adj@[u as int]@.len(),
            i <= row_len,
            entry_visited == old(visited)@,
            visited@.len() == g.nodes@.len(),
            visited@[u as int],
            forall|v: int| 0 <= v < visited@.len() ==> (entry_visited[v] ==> #[trigger] visited@[v]),
            count_false(visited@) <= count_false(entry_visited) - 1,
            forall|v: int| 0 <= v < rec@.len() ==> (rec@[v] ==> visited@[v]),
            state_inv(*g, rec@, path@),
            rec@ == old(rec)@.update(u as int, true),
            path@ == old(path)@.push(u),
            out@.len() >= old(out)@.len(),
            forall|j: int| 0 <= j < old(out)@.len() ==> out@[j] == old(out)@[j],
            forall|j: int|
                old(out)@.len() <= j < out@.len() ==> cycle_ok(*g, #[trigger] out@[j]),
            done@.len() >= old(done)@.len(),
            forall|j: int| 0 <= j < old(done)@.len() ==> done@[j] == old(done)@[j],
            search_safe(*g, adj.deep_view(), visited@, rec@, done@, out@),
            forall|k: int|
                0 <= k < i ==> (out@.len() > 0 || done@.contains(
                    #[trigger] adj.deep_view()[u as int][k],
                )),
        decreases row_len - i,
    {
        let w = adj[u][i];
        proof {
            assert(adj.deep_view()[u as int][i as int] == adj@[u as int]@[i as int]);
            assert(w < g.nodes@.len());
            assert(has_edge(*g, g.nodes@[u as int].id@, g.nodes@[w as int].id@));
        }
        if !visited[w] {
            let ghost pre_visited = visited@;
            let ghost pre_done = done@;
            let ghost pre_out = out@;
            proof {
                assert(path@.last() == u);
            }
            dfs(g, adj, w, visited, rec, path, done, out);
            proof {
                lemma_count_false_mono(pre_visited, visited@);
                assert forall|k: int|
                    0 <= k < i + 1 implies (out@.len() > 0 || done@.contains(
                    #[trigger] adj.deep_view()[u as int][k],
                )) by {
                    if out@.len() == 0 {
                        assert(pre_out.len() == 0);
                        if k < i {
                            let j = choose|j: int|
                                0 <= j < pre_done.len() && pre_done[j] == adj.deep_view()[
                                    u as int
                                ][k];
                            assert(done@[j] == adj.deep_view()[u as int][k]);
                        }
                    }
                }
            }
        } else if rec[w] {
            // `w` is on the current path: the suffix from `w` is a cycle.
            let mut pos: usize = 0;
            proof {
                assert(path@.contains(w));
            }
            while pos < path.len() && path[pos] != w
                invariant
                    path@.contains(w),
                    pos <= path@.len(),
                    forall|k: int| 0 <= k < pos ==> path@[k] != w,
                decreases path@.len() - pos,
            {
                pos = pos + 1;
            }
            proof {
                if pos == path@.len() {
                    let k = choose|k: int| 0 <= k < path@.len() && path@[k] == w;
                    assert(false);
                }
            }
            let ids = cycle_ids(g, path, pos);
            let len = ids.len();
            let severity = if len <= 2 {
                CycleSeverity::Low
            } else if len <= 4 {
                CycleSeverity::Medium
            } else {
                CycleSeverity::High
            };
            let c = CircularDependency { cycle: ids, severity };
            proof {
                let cyc = c.cycle.deep_view();
                assert(cyc.len() == path@.len() - pos);
                assert forall|k: int| 0 <= k < cyc.len() - 1 implies has_edge(
                    *g,
                    #[trigger] cyc[k],
                    cyc[k + 1],
                ) by {
                    assert(cyc[k] == g.nodes@[path@[pos + k] as int].id@);
                    assert(cyc[k + 1] == g.nodes@[path@[pos + k + 1] as int].id@);
                }
                assert(cyc.last() == g.nodes@[path@[path@.len() - 1] as int].id@);
                assert(path@.last() == u);
                assert(cyc.first() == g.nodes@[path@[pos as int] as int].id@);
                assert(path@[pos as int] == w);
                assert(has_edge(*g, cyc.last(), cyc.first()));
                assert(valid_cycle(*g, cyc));
            }
            let ghost pre_out = out@;
            out.push(c);
            proof {
                assert forall|j: int|
                    old(out)@.len() <= j < out@.len() implies cycle_ok(*g, #[trigger] out@[j]) by {
                    if j < pre_out.len() {
                        assert(out@[j] == pre_out[j]);
                    } else {
                        assert(out@[j] == c);
                    }
                }
                assert(out@.len() > 0);
            }
        } else {
            // `w` is already finished: the finish order records it.
            proof {
                assert forall|k: int|
                    0 <= k < i + 1 implies (out@.len() > 0 || done@.contains(
                    #[trigger] adj.deep_view()[u as int][k],
                )) by {
                    if out@.len() == 0 && k == i {
                        assert(done_inv(*g, adj.deep_view(), visited@, rec@, done@));
                        assert(visited@[w as int] && !rec@[w as int]);
                        assert(done@.contains(w));
                    }
                }
            }
        }
        i = i + 1;
    }
    rec.set(u, false);
    let popped = path.pop();
    let ghost pre_done = done@;
    done.push(u);
    proof {
        assert(rec@ =~= old(rec)@);
        assert(path@ =~= old(path)@);
        assert(done@.last() == u);
        assert(done@.contains(u as usize));
        assert forall|j: int| 0 <= j < old(done)@.len() implies done@[j] == old(done)@[j] by {
            assert(done@[j] == pre_done[j]);
        }
        if out@.len() == 0 {
            // `u` finishes now: it joins the order last, its neighbors all
            // finished earlier, and the rest of the order is untouched.
            let adeep = adj.deep_view();
            let loop_rec = old(rec)@.update(u as int, true);
            assert(done_inv(*g, adeep, visited@, loop_rec, pre_done));
            assert(!pre_done.contains(u as usize)) by {
                assert(visited@[u as int] && loop_rec[u as int]);
            }
            assert forall|p: int| 0 <= p < done@.len() implies (#[trigger] done@[p])
                < g.nodes@.len() by {
                if p < pre_done.len() {
                    assert(done@[p] == pre_done[p]);
                }
            }
            assert forall|p: int, q: int| 0 <= p < q < done@.len() implies #[trigger] done@[p]
                != #[trigger] done@[q] by {
                if q < pre_done.len() {
                    assert(done@[p] == pre_done[p] && done@[q] == pre_done[q]);
                } else {
                    assert(done@[q] == u);
                    assert(done@[p] == pre_done[p]);
                    if pre_done[p] == u as usize {
                        assert(pre_done.contains(u as usize));
                    }
                }
            }
            assert forall|v: int| 0 <= v < g.nodes@.len() implies ((visited@[v] && !rec@[v])
                <==> #[trigger] done@.contains(v as usize)) by {
                if v == u as int {
                    assert(done@.contains(u as usize));
                } else {
                    if done@.contains(v as usize) {
                        let j = choose|j: int| 0 <= j < done@.len() && done@[j] == v as usize;
                        assert(j < pre_done.len());
                        assert(pre_done[j] == v as usize);
                        assert(pre_done.contains(v as usize));
                    }
                    if pre_done.contains(v as usize) {
                        let j = choose|j: int|
                            0 <= j < pre_done.len() && pre_done[j] == v as usize;
                        assert(done@[j] == v as usize);
                        assert(done@.contains(v as usize));
                    }
                    assert(loop_rec[v] == rec@[v]);
                }
            }
            assert forall|p: int, k: int|
                0 <= p < done@.len() && 0 <= k < adeep[done@[p] as int].len() implies done@.take(
                p,
            ).contains(#[trigger] adeep[done@[p] as int][k]) by {
                if p < pre_done.len() {
                    assert(done@[p] == pre_done[p]);
                    assert(pre_done.take(p).contains(adeep[pre_done[p] as int][k]));
                    let j = choose|j: int|
                        0 <= j < pre_done.take(p).len() && pre_done.take(p)[j] == adeep[pre_done[
                            p
                        ] as int][k];
                    assert(done@.take(p)[j] == adeep[done@[p] as int][k]);
                } else {
                    assert(done@[p] == u);
                    assert(done@.take(p) =~= pre_done);
                    assert(out@.len() > 0 || pre_done.contains(adeep[u as int][k]));
                }
            }
            assert(done_inv(*g, adeep, visited@, rec@, done@));
        }
    }
}

/// Detects circular dependencies by depth-first search from every
/// unvisited node. Every reported entry is a genuine directed cycle of
/// `g`, with its severity derived from its length; one representative
/// cycle per search is reported. On a graph whose edge endpoints all name
/// nodes, the search is also complete: if any cycle exists at all, at
/// least one is reported.
pub fn detect_circular_dependencies(g: &DependencyGraph) -> (r: Vec<CircularDependency>)
    ensures
        forall|i: int| 0 <= i < r@.len() ==> cycle_ok(*g, #[trigger] r@[i]),
        edges_closed(*g) ==> ((exists|cyc: Seq<Seq<char>>| valid_cycle(*g, cyc)) ==> r@.len()
            >= 1),
{
    let n = g.nodes.len();
    // Build index-based adjacency lists from the edge list.
    let mut adj: Vec<Vec<usize>> = Vec::new();
    let mut u: usize = 0;
    while u < n
        invariant
            n == g.nodes@.len(),
            u <= n,
            adj@.len() == u,
            forall|x: int, k: int|
                0 <= x < adj@.len() && 0 <= k < adj.deep_view()[x].len() ==> {
                    &&& (#[trigger] adj.deep_view()[x][k]) < g.nodes@.len()
                    &&& has_edge(*g, g.nodes@[x].id@, g.nodes@[adj.deep_view()[x][k] as int].id@)
                },
            forall|x: int, k: int|
                0 <= x < adj@.len() && 0 <= k < g.edges@.len() && (#[trigger] g.edges@[k]).from@
                    == g.nodes@[x].id@ && first_node_with_id(g.nodes@, g.edges@[k].to@) >= 0 ==> (
                #[trigger] adj.deep_view()[x]).contains(
                    first_node_with_id(g.nodes@, g.edges@[k].to@) as usize,
                ),
        decreases n - u,
    {
        let mut row: Vec<usize> = Vec::new();
        let mut e: usize = 0;
        while e < g.edges.len()
            invariant
                n == g.nodes@.len(),
                u < n,
                e <= g.edges@.len(),
                forall|k: int|
                    0 <= k < row@.len() ==> {
                        &&& (#[trigger] row@[k]) < g.nodes@.len()
                        &&& has_edge(*g, g.nodes@[u as int].id@, g.nodes@[row@[k] as int].id@)
                    },
                forall|k: int|
                    0 <= k < e && (#[trigger] g.edges@[k]).from@ == g.nodes@[u as int].id@
                        && first_node_with_id(g.nodes@, g.edges@[k].to@) >= 0 ==> row@.contains(
                        first_node_with_id(g.nodes@, g.edges@[k].to@) as usize,
                    ),
            decreases g.edges@.len() - e,
        {
            let edge = &g.edges[e];
            let ghost pre_row = row@;
            if crate::text::str_eq(edge.from.as_str(), g.nodes[u].id.as_str()) {
                match find_node_index(g, edge.to.as_str()) {
                    Some(v) => {
                        proof {
                            assert(g.edges@[e as int].from@ == g.nodes@[u as int].id@);
                            assert(g.edges@[e as int].to@ == g.nodes@[v as int].id@);
                            assert(has_edge(*g, g.nodes@[u as int].id@, g.nodes@[v as int].id@));
                        }
                        row.push(v);
                        proof {
                            assert(row@.last() == v);
                            assert(row@.contains(v));
                        }
                    },
                    None => (),
                }
            }
            proof {
                assert forall|k: int|
                    0 <= k < e + 1 && (#[trigger] g.edges@[k]).from@ == g.nodes@[u as int].id@
                        && first_node_with_id(g.nodes@, g.edges@[k].to@) >= 0 implies row@.contains(
                    first_node_with_id(g.nodes@, g.edges@[k].to@) as usize,
                ) by {
                    if k < e {
                        if pre_row.contains(first_node_with_id(g.nodes@, g.edges@[k].to@)
                            as usize) {
                            let j = choose|j: int|
                                0 <= j < pre_row.len() && pre_row[j] == first_node_with_id(
                                    g.nodes@,
                                    g.edges@[k].to@,
                                ) as usize;
                            assert(row@[j] == first_node_with_id(g.nodes@, g.edges@[k].to@)
                                as usize);
                        }
                    }
                }
            }
            e = e + 1;
        }
        let ghost predeep = adj.deep_view();
        adj.push(row);
        proof {
            assert forall|x: int, k: int|
                0 <= x < adj@.len() && 0 <= k < adj.deep_view()[x].len() implies {
                &&& (#[trigger] adj.deep_view()[x][k]) < g.nodes@.len()
                &&& has_edge(*g, g.nodes@[x].id@, g.nodes@[adj.deep_view()[x][k] as int].id@)
            } by {
                assert(adj.deep_view()[x] == adj@[x]@);
                if x < adj@.len() - 1 {
                    assert(predeep[x] == adj@[x]@);
                } else {
                    assert(adj@[x] == row);
                }
            }
            assert forall|x: int, k: int|
                0 <= x < adj@.len() && 0 <= k < g.edges@.len() && (#[trigger] g.edges@[k]).from@
                    == g.nodes@[x].id@ && first_node_with_id(g.nodes@, g.edges@[k].to@)
                    >= 0 implies (#[trigger] adj.deep_view()[x]).contains(
                first_node_with_id(g.nodes@, g.edges@[k].to@) as usize,
            ) by {
                assert(adj.deep_view()[x] == adj@[x]@);
                if x < adj@.len() - 1 {
                    assert(predeep[x] == adj@[x]@);
                } else {
                    assert(adj@[x] == row);
                }
            }
        }
        u = u + 1;
    }
    let mut visited: Vec<bool> = Vec::new();
    let mut rec: Vec<bool> = Vec::new();
    let mut k: usize = 0;
    while k < n
        invariant
            k <= n,
            visited@.len() == k,
            rec@.len() == k,
            forall|v: int| 0 <= v < k ==> !(#[trigger] visited@[v]),
            forall|v: int| 0 <= v < k ==> !(#[trigger] rec@[v]),
        decreases n - k,
    {
        visited.push(false);
        rec.push(false);
        k = k + 1;
    }
    let mut path: Vec<usize> = Vec::new();
    let mut done: Vec<usize> = Vec::new();
    let mut out: Vec<CircularDependency> = Vec::new();
    proof {
        assert(adj.deep_view().len() == n);
        assert(search_safe(*g, adj.deep_view(), visited@, rec@, done@, out@)) by {
            assert(forall|v: int| 0 <= v < g.nodes@.len() ==> !(#[trigger] done@.contains(
                v as usize,
            )));
        }
    }
    let mut root: usize = 0;
    while root < n
        invariant
            n == g.nodes@.len(),
            adj_inv(*g, adj.deep_view()),
            adj.deep_view().len() == n,
            adj_complete(*g, adj.deep_view()),
            root <= n,
            visited@.len() == n,
            rec@.len() == n,
            forall|v: int| 0 <= v < n ==> !(#[trigger] rec@[v]),
            path@.len() == 0,
            forall|v: int| 0 <= v < root ==> #[trigger] visited@[v],
            search_safe(*g, adj.deep_view(), visited@, rec@, done@, out@),
            forall|i: int| 0 <= i < out@.len() ==> cycle_ok(*g, #[trigger] out@[i]),
        decreases n - root,
    {
        if !visited[root] {
            let ghost pre_out = out@;
            proof {
                assert(state_inv(*g, rec@, path@));
            }
            dfs(g, &adj, root, &mut visited, &mut rec, &mut path, &mut done, &mut out);
            proof {
                assert forall|i: int| 0 <= i < out@.len() implies cycle_ok(*g, #[trigger] out@[i])
                    by {
                    if i < pre_out.len() {
                        assert(out@[i] == pre_out[i]);
                    }
                }
            }
        }
        root = root + 1;
    }
    proof {
        // Completeness: with no report the finish order is a complete
        // topological order, which no cycle survives.
        if edges_closed(*g) && out@.len() == 0 {
            assert(done_inv(*g, adj.deep_view(), visited@, rec@, done@));
            assert forall|v: int| 0 <= v < g.nodes@.len() implies #[trigger] done@.contains(
                v as usize,
            ) by {
                assert(visited@[v] && !rec@[v]);
            }
            if exists|cyc: Seq<Seq<char>>| valid_cycle(*g, cyc) {
                let cyc = choose|cyc: Seq<Seq<char>>| valid_cycle(*g, cyc);
                lemma_pos_at_least(*g, adj.deep_view(), done@, cyc, 0, (done@.len() + 1) as nat);
                lemma_first_node_range(g.nodes@, cyc[0]);
                let e0 = choose|e: int|
                    0 <= e < g.edges@.len() && (#[trigger] g.edges@[e]).from@ == cyc[0];
                let u0 = first_node_with_id(g.nodes@, cyc[0]);
                assert(u0 >= 0);
                assert(done@.contains(u0 as usize));
                lemma_pos_in(done@, u0 as usize);
                assert(false);
            }
        }
    }
    out
}

} // verus!
