//! Dependency clusters: modules grouped by the directory their files live
//! in, with the edges inside a group and across its border counted.

use vstd::prelude::*;
use vstd::string::StringExecFns;
use crate::graph::{DependencyEdge, DependencyGraph, DependencyNode, ids_contain};
use crate::metrics::{lemma_sat_add, sat64, sat_add64};
use crate::text::str_eq;

verus! {

/// One directory's worth of modules: its member node ids and how many
/// edges stay inside the group versus cross its border.
pub struct DependencyCluster {
    pub id: String,
    pub name: String,
    pub nodes: Vec<String>,
    pub internal_edges: u64,
    pub external_edges: u64,
}

impl DependencyCluster {
    /// The cohesion of the cluster, as numerator and denominator: its
    /// internal edges over all edges touching it, and zero (as `0 / 1`)
    /// when no edge touches it.
    pub fn cohesion_ratio(&self) -> (r: (u64, u64))
        requires
            self.internal_edges + self.external_edges <= u64::MAX,
        ensures
            r == if self.internal_edges + self.external_edges > 0 {
                (self.internal_edges, (self.internal_edges + self.external_edges) as u64)
            } else {
                (0u64, 1u64)
            },
    {
        if self.internal_edges > 0 || self.external_edges > 0 {
            (self.internal_edges, self.internal_edges + self.external_edges)
        } else {
            (0, 1)
        }
    }
}

/// The directory part of a file path: everything before the last `/`, or
/// empty when the path has none.
pub open spec fn dir_of(p: Seq<char>) -> Seq<char> {
    if p.contains('/') {
        dir_prefix(p)
    } else {
        Seq::<char>::empty()
    }
}

/// The characters before the last `/` of `p`.
pub open spec fn dir_prefix(p: Seq<char>) -> Seq<char>
    decreases p.len(),
{
    if p.len() == 0 {
        Seq::<char>::empty()
    } else if p.last() == '/' {
        p.drop_last()
    } else {
        dir_prefix(p.drop_last())
    }
}

proof fn lemma_dir_prefix(p: Seq<char>, j: int)
    requires
        0 < j <= p.len(),
        p[j - 1] == '/',
        forall|m: int| j <= m < p.len() ==> p[m] != '/',
    ensures
        dir_prefix(p) == p.take(j - 1),
    decreases p.len() - j,
{
    if j == p.len() {
        assert(p.last() == '/');
        assert(p.drop_last() =~= p.take(j - 1));
    } else {
        assert(p.last() != '/');
        lemma_dir_prefix(p.drop_last(), j);
        assert(p.drop_last().take(j - 1) =~= p.take(j - 1));
    }
}

/// Reads the directory part of a file path.
pub fn dir_of_path(p: &str) -> (r: String)
    ensures
        r@ == dir_of(p@),
{
    let n = p.unicode_len();
    let mut j: usize = n;
    while j > 0 && p.get_char(j - 1) != '/'
        invariant
            n == p@.len(),
            j <= n,
            forall|m: int| j <= m < n ==> p@[m] != '/',
        decreases j,
    {
        j = j - 1;
    }
    if j == 0 {
        proof {
            if p@.contains('/') {
                let w = choose|w: int| 0 <= w < p@.len() && p@[w] == '/';
                assert(false);
            }
        }
        String::new()
    } else {
        proof {
            assert(p@[j - 1] == '/');
            assert(p@.contains('/'));
            lemma_dir_prefix(p@, j as int);
            assert(p@.subrange(0, j - 1) =~= p@.take(j - 1));
        }
        String::from_str(p.substring_char(0, j - 1))
    }
}

/// The ids of the nodes whose file lives in directory `d`, in node order.
pub open spec fn members_of(nodes: Seq<DependencyNode>, d: Seq<char>) -> Seq<Seq<char>>
    decreases nodes.len(),
{
    if nodes.len() == 0 {
        Seq::empty()
    } else {
        members_of(nodes.drop_last(), d) + (if dir_of(nodes.last().file_path@) == d {
            seq![nodes.last().id@]
        } else {
            Seq::<Seq<char>>::empty()
        })
    }
}

proof fn lemma_members_take(nodes: Seq<DependencyNode>, d: Seq<char>, i: int)
    requires
        0 <= i < nodes.len(),
    ensures
        members_of(nodes.take(i + 1), d) == members_of(nodes.take(i), d) + (if dir_of(
            nodes[i].file_path@,
        ) == d {
            seq![nodes[i].id@]
        } else {
            Seq::<Seq<char>>::empty()
        }),
{
    assert(nodes.take(i + 1).drop_last() =~= nodes.take(i));
    assert(nodes.take(i + 1).last() == nodes[i]);
}

/// How many edges of `s` stay inside the member set `m`.
pub open spec fn internal_count(s: Seq<DependencyEdge>, m: Seq<Seq<char>>) -> nat
    decreases s.len(),
{
    if s.len() == 0 {
        0nat
    } else {
        internal_count(s.drop_last(), m) + (if m.contains(s.last().from@) && m.contains(
            s.last().to@,
        ) {
            1nat
        } else {
            0nat
        })
    }
}

/// How many edges of `s` cross the border of the member set `m`.
pub open spec fn external_count(s: Seq<DependencyEdge>, m: Seq<Seq<char>>) -> nat
    decreases s.len(),
{
    if s.len() == 0 {
        0nat
    } else {
        external_count(s.drop_last(), m) + (if m.contains(s.last().from@) != m.contains(
            s.last().to@,
        ) {
            1nat
        } else {
            0nat
        })
    }
}

proof fn lemma_counts_take(s: Seq<DependencyEdge>, m: Seq<Seq<char>>, i: int)
    requires
        0 <= i < s.len(),
    ensures
        internal_count(s.take(i + 1), m) == internal_count(s.take(i), m) + (if m.contains(
            s[i].from@,
        ) && m.contains(s[i].to@) {
            1nat
        } else {
            0nat
        }),
        external_count(s.take(i + 1), m) == external_count(s.take(i), m) + (if m.contains(
            s[i].from@,
        ) != m.contains(s[i].to@) {
            1nat
        } else {
            0nat
        }),
{
    assert(s.take(i + 1).drop_last() =~= s.take(i));
    assert(s.take(i + 1).last() == s[i]);
}

/// The directories of the graph's files, one per node, in node order.
pub open spec fn dirs_list(nodes: Seq<DependencyNode>) -> Seq<Seq<char>> {
    Seq::new(nodes.len(), |i: int| dir_of(nodes[i].file_path@))
}

/// `s` with later repetitions dropped: each value keeps its first slot.
pub open spec fn uniq_seqs(s: Seq<Seq<char>>) -> Seq<Seq<char>>
    decreases s.len(),
{
    if s.len() == 0 {
        Seq::empty()
    } else {
        uniq_seqs(s.drop_last()) + (if s.drop_last().contains(s.last()) {
            Seq::<Seq<char>>::empty()
        } else {
            seq![s.last()]
        })
    }
}

/// A value is in the deduplicated list exactly when it is in the original.
proof fn lemma_uniq_membership(s: Seq<Seq<char>>, x: Seq<char>)
    ensures
        uniq_seqs(s).contains(x) <==> s.contains(x),
    decreases s.len(),
{
    if s.len() > 0 {
        lemma_uniq_membership(s.drop_last(), x);
        let u = uniq_seqs(s);
        let up = uniq_seqs(s.drop_last());
        if u.contains(x) {
            let j = choose|j: int| 0 <= j < u.len() && u[j] == x;
            if j < up.len() {
                assert(up[j] == x);
                assert(up.contains(x));
                let w = choose|w: int| 0 <= w < s.drop_last().len() && s.drop_last()[w] == x;
                assert(s[w] == x);
                assert(s.contains(x));
            } else {
                assert(u[j] == s.last());
                assert(s[s.len() - 1] == x);
                assert(s.contains(x));
            }
        }
        if s.contains(x) {
            let w = choose|w: int| 0 <= w < s.len() && s[w] == x;
            if w < s.len() - 1 {
                assert(s.drop_last()[w] == x);
                assert(s.drop_last().contains(x));
                let j = choose|j: int| 0 <= j < up.len() && up[j] == x;
                assert(u[j] == x);
                assert(u.contains(x));
            } else {
                if s.drop_last().contains(s.last()) {
                    assert(s.drop_last().contains(x));
                    let j = choose|j: int| 0 <= j < up.len() && up[j] == x;
                    assert(u[j] == x);
                    assert(u.contains(x));
                } else {
                    assert(u[u.len() - 1] == x);
                    assert(u.contains(x));
                }
            }
        }
    }
}

proof fn lemma_uniq_take(s: Seq<Seq<char>>, i: int)
    requires
        0 <= i < s.len(),
    ensures
        uniq_seqs(s.take(i + 1)) == uniq_seqs(s.take(i)) + (if s.take(i).contains(s[i]) {
            Seq::<Seq<char>>::empty()
        } else {
            seq![s[i]]
        }),
{
    assert(s.take(i + 1).drop_last() =~= s.take(i));
    assert(s.take(i + 1).last() == s[i]);
}

/// The directories that form a cluster: the distinct directories of the
/// graph's files, in first-appearance order, keeping those with at least
/// two member modules.
pub open spec fn cluster_dirs(g: DependencyGraph) -> Seq<Seq<char>> {
    big_dirs(g, uniq_seqs(dirs_list(g.nodes@)))
}

/// The directories of `ds` whose member set holds at least two modules.
pub open spec fn big_dirs(g: DependencyGraph, ds: Seq<Seq<char>>) -> Seq<Seq<char>>
    decreases ds.len(),
{
    if ds.len() == 0 {
        Seq::empty()
    } else {
        big_dirs(g, ds.drop_last()) + (if members_of(g.nodes@, ds.last()).len() >= 2 {
            seq![ds.last()]
        } else {
            Seq::<Seq<char>>::empty()
        })
    }
}

proof fn lemma_big_dirs_take(g: DependencyGraph, ds: Seq<Seq<char>>, i: int)
    requires
        0 <= i < ds.len(),
    ensures
        big_dirs(g, ds.take(i + 1)) == big_dirs(g, ds.take(i)) + (if members_of(
            g.nodes@,
            ds[i],
        ).len() >= 2 {
            seq![ds[i]]
        } else {
            Seq::<Seq<char>>::empty()
        }),
{
    assert(ds.take(i + 1).drop_last() =~= ds.take(i));
    assert(ds.take(i + 1).last() == ds[i]);
}

/// What one reported cluster says about its directory.
pub open spec fn cluster_matches(g: DependencyGraph, d: Seq<char>, c: DependencyCluster) -> bool {
    &&& c.id@ == d
    &&& c.name@ == d
    &&& c.nodes.deep_view() == members_of(g.nodes@, d)
    &&& c.internal_edges == sat64(internal_count(g.edges@, members_of(g.nodes@, d)))
    &&& c.external_edges == sat64(external_count(g.edges@, members_of(g.nodes@, d)))
}

/// Collects the ids of the nodes whose file lives in directory `d`.
fn collect_members(g: &DependencyGraph, d: &str) -> (r: Vec<String>)
    ensures
        r.deep_view() == members_of(g.nodes@, d@),
{
    let mut r: Vec<String> = Vec::new();
    let mut i: usize = 0;
    proof {
        assert(g.nodes@.take(0) =~= Seq::<DependencyNode>::empty());
        assert(r.deep_view() =~~= members_of(g.nodes@.take(0), d@));
    }
    while i < g.nodes.len()
        invariant
            i <= g.nodes@.len(),
            r.deep_view() =~~= members_of(g.nodes@.take(i as int), d@),
        decreases g.nodes@.len() - i,
    {
        proof {
            lemma_members_take(g.nodes@, d@, i as int);
        }
        let node_dir = dir_of_path(g.nodes[i].file_path.as_str());
        if str_eq(node_dir.as_str(), d) {
            let ghost pre = r.deep_view();
            r.push(g.nodes[i].id.clone());
            proof {
                assert(r.deep_view() =~~= pre + seq![g.nodes@[i as int].id@]);
            }
        }
        i = i + 1;
    }
    proof {
        assert(g.nodes@.take(g.nodes@.len() as int) =~= g.nodes@);
    }
    r
}

/// Counts the edges inside the member set and across its border.
fn count_cluster_edges(g: &DependencyGraph, members: &Vec<String>) -> (r: (u64, u64))
    ensures
        r.0 == sat64(internal_count(g.edges@, members.deep_view())),
        r.1 == sat64(external_count(g.edges@, members.deep_view())),
{
    let mut internal: u64 = 0;
    let mut external: u64 = 0;
    let mut e: usize = 0;
    proof {
        assert(g.edges@.take(0) =~= Seq::<DependencyEdge>::empty());
    }
    while e < g.edges.len()
        invariant
            e <= g.edges@.len(),
            internal == sat64(internal_count(g.edges@.take(e as int), members.deep_view())),
            external == sat64(external_count(g.edges@.take(e as int), members.deep_view())),
        decreases g.edges@.len() - e,
    {
        proof {
            lemma_counts_take(g.edges@, members.deep_view(), e as int);
            lemma_sat_add(internal_count(g.edges@.take(e as int), members.deep_view()), 1);
            lemma_sat_add(external_count(g.edges@.take(e as int), members.deep_view()), 1);
        }
        let from_in = ids_contain(members, g.edges[e].from.as_str());
        let to_in = ids_contain(members, g.edges[e].to.as_str());
        if from_in && to_in {
            internal = sat_add64(internal, 1);
        } else if from_in != to_in {
            external = sat_add64(external, 1);
        }
        e = e + 1;
    }
    proof {
        assert(g.edges@.take(g.edges@.len() as int) =~= g.edges@);
    }
    (internal, external)
}

/// Groups the graph's modules by the directory of their file: one cluster
/// per directory with at least two modules, in first-appearance order,
/// with its member ids and its internal and border edge counts.
pub fn detect_clusters(g: &DependencyGraph) -> (r: Vec<DependencyCluster>)
    ensures
        r@.len() == cluster_dirs(*g).len(),
        forall|i: int|
            0 <= i < r@.len() ==> cluster_matches(*g, cluster_dirs(*g)[i], #[trigger] r@[i]),
{
    // The distinct directories, in first-appearance order.
    let mut dirs: Vec<String> = Vec::new();
    let ghost dl = dirs_list(g.nodes@);
    let mut i: usize = 0;
    proof {
        assert(dl.take(0) =~= Seq::<Seq<char>>::empty());
        assert(dirs.deep_view() =~~= uniq_seqs(dl.take(0)));
    }
    while i < g.nodes.len()
        invariant
            i <= g.nodes@.len(),
            dl == dirs_list(g.nodes@),
            dirs.deep_view() =~~= uniq_seqs(dl.take(i as int)),
        decreases g.nodes@.len() - i,
    {
        proof {
            lemma_uniq_take(dl, i as int);
        }
        let d = dir_of_path(g.nodes[i].file_path.as_str());
        let seen = ids_contain(&dirs, d.as_str());
        proof {
            // The scan over the deduplicated list decides membership in
            // the scanned prefix of the directory list.
            lemma_uniq_membership(dl.take(i as int), d@);
            assert(dirs.deep_view().contains(d@) == uniq_seqs(dl.take(i as int)).contains(d@));
            assert(dl[i as int] == d@);
        }
        if !seen {
            let ghost pre = dirs.deep_view();
            dirs.push(d);
            proof {
                assert(dirs.deep_view() =~~= pre + seq![dl[i as int]]);
            }
        }
        i = i + 1;
    }
    proof {
        assert(dl.take(dl.len() as int) =~= dl);
    }
    // One cluster per directory with at least two member modules.
    let mut r: Vec<DependencyCluster> = Vec::new();
    let ghost ds = dirs.deep_view();
    let mut k: usize = 0;
    proof {
        assert(ds.take(0) =~= Seq::<Seq<char>>::empty());
        assert(big_dirs(*g, ds.take(0)) =~= Seq::<Seq<char>>::empty());
    }
    while k < dirs.len()
        invariant
            k <= dirs@.len(),
            ds == dirs.deep_view(),
            ds == uniq_seqs(dirs_list(g.nodes@)),
            r@.len() == big_dirs(*g, ds.take(k as int)).len(),
            forall|j: int|
                0 <= j < r@.len() ==> cluster_matches(
                    *g,
                    big_dirs(*g, ds.take(k as int))[j],
                    #[trigger] r@[j],
                ),
        decreases dirs@.len() - k,
    {
        proof {
            lemma_big_dirs_take(*g, ds, k as int);
            assert(ds[k as int] == dirs@[k as int]@);
        }
        let members = collect_members(g, dirs[k].as_str());
        if members.len() >= 2 {
            let (internal_edges, external_edges) = count_cluster_edges(g, &members);
            let ghost pre = r@;
            r.push(
                DependencyCluster {
                    id: dirs[k].clone(),
                    name: dirs[k].clone(),
                    nodes: members,
                    internal_edges,
                    external_edges,
                },
            );
            proof {
                assert(members_of(g.nodes@, ds[k as int]).len() >= 2);
                assert forall|j: int| 0 <= j < r@.len() implies cluster_matches(
                    *g,
                    big_dirs(*g, ds.take(k as int + 1))[j],
                    #[trigger] r@[j],
                ) by {
                    if j < pre.len() {
                        assert(r@[j] == pre[j]);
                        assert(big_dirs(*g, ds.take(k as int + 1))[j] == big_dirs(
                            *g,
                            ds.take(k as int),
                        )[j]);
                    }
                }
            }
        } else {
            proof {
                assert(members.deep_view().len() == members@.len());
            }
        }
        k = k + 1;
    }
    proof {
        assert(ds.take(ds.len() as int) =~= ds);
    }
    r
}

} // verus!
