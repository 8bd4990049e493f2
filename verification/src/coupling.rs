//! Coupling metrics and unused-export detection over the dependency graph.
//!
//! A module's afferent coupling is its in-degree, its efferent coupling its
//! out-degree; its instability is the ratio efferent over the sum, defined
//! as zero when the module has no edges at all.

use vstd::prelude::*;
use crate::graph::{DependencyEdge, DependencyGraph, ModuleImports, module_id_of};
use crate::text::str_eq;

verus! {

/// The coupling metrics of one module.
pub struct ModuleCoupling {
    pub module_name: String,
    /// The number of edges that point at this module.
    pub afferent_coupling: u64,
    /// The number of edges that leave this module.
    pub efferent_coupling: u64,
}

/// How many of the edges of `s` leave module `id`.
pub open spec fn count_from(s: Seq<DependencyEdge>, id: Seq<char>) -> nat
    decreases s.len(),
{
    if s.len() == 0 {
        0nat
    } else {
        count_from(s.drop_last(), id) + (if s.last().from@ == id {
            1nat
        } else {
            0nat
        })
    }
}

/// How many of the edges of `s` point at module `id`.
pub open spec fn count_to(s: Seq<DependencyEdge>, id: Seq<char>) -> nat
    decreases s.len(),
{
    if s.len() == 0 {
        0nat
    } else {
        count_to(s.drop_last(), id) + (if s.last().to@ == id {
            1nat
        } else {
            0nat
        })
    }
}

impl ModuleCoupling {
    /// The instability ratio, as numerator and denominator: efferent over
    /// the sum of both couplings, and zero (as `0 / 1`) when the module has
    /// no edges at all.
    pub fn instability_ratio(&self) -> (r: (u64, u64))
        requires
            self.afferent_coupling + self.efferent_coupling <= u64::MAX,
        ensures
            r == if self.afferent_coupling + self.efferent_coupling > 0 {
                (self.efferent_coupling, (self.afferent_coupling + self.efferent_coupling) as u64)
            } else {
                (0u64, 1u64)
            },
    {
        if self.afferent_coupling > 0 || self.efferent_coupling > 0 {
            (self.efferent_coupling, self.afferent_coupling + self.efferent_coupling)
        } else {
            (0, 1)
        }
    }
}

proof fn lemma_count_from_take(s: Seq<DependencyEdge>, id: Seq<char>, i: int)
    requires
        0 <= i < s.len(),
    ensures
        count_from(s.take(i + 1), id) == count_from(s.take(i), id) + (if s[i].from@ == id {
            1nat
        } else {
            0nat
        }),
        count_to(s.take(i + 1), id) == count_to(s.take(i), id) + (if s[i].to@ == id {
            1nat
        } else {
            0nat
        }),
{
    assert(s.take(i + 1).drop_last() =~= s.take(i));
    assert(s.take(i + 1).last() == s[i]);
}

/// Computes the coupling metrics of every module of the graph, in node
/// order.
pub fn calculate_module_coupling(g: &DependencyGraph) -> (r: Vec<ModuleCoupling>)
    ensures
        r@.len() == g.nodes@.len(),
        forall|i: int|
            0 <= i < r@.len() ==> {
                &&& (#[trigger] r@[i]).module_name@ == g.nodes@[i].id@
                &&& r@[i].afferent_coupling == crate::metrics::sat64(
                    count_to(g.edges@, g.nodes@[i].id@),
                )
                &&& r@[i].efferent_coupling == crate::metrics::sat64(
                    count_from(g.edges@, g.nodes@[i].id@),
                )
            },
{
    let mut r: Vec<ModuleCoupling> = Vec::new();
    let mut i: usize = 0;
    while i < g.nodes.len()
        invariant
            i <= g.nodes@.len(),
            r@.len() == i,
            forall|j: int|
                0 <= j < i ==> {
                    &&& (#[trigger] r@[j]).module_name@ == g.nodes@[j].id@
                    &&& r@[j].afferent_coupling == crate::metrics::sat64(
                        count_to(g.edges@, g.nodes@[j].id@),
                    )
                    &&& r@[j].efferent_coupling == crate::metrics::sat64(
                        count_from(g.edges@, g.nodes@[j].id@),
                    )
                },
        decreases g.nodes@.len() - i,
    {
        let id = &g.nodes[i].id;
        let mut aff: u64 = 0;
        let mut eff: u64 = 0;
        let mut e: usize = 0;
        while e < g.edges.len()
            invariant
                0 <= i < g.nodes@.len(),
                *id == g.nodes@[i as int].id,
                e <= g.edges@.len(),
                aff == crate::metrics::sat64(count_to(g.edges@.take(e as int), id@)),
                eff == crate::metrics::sat64(count_from(g.edges@.take(e as int), id@)),
            decreases g.edges@.len() - e,
        {
            proof {
                lemma_count_from_take(g.edges@, id@, e as int);
                crate::metrics::lemma_sat_add(count_to(g.edges@.take(e as int), id@), 1);
                crate::metrics::lemma_sat_add(count_from(g.edges@.take(e as int), id@), 1);
            }
            if str_eq(g.edges[e].to.as_str(), id.as_str()) {
                aff = crate::metrics::sat_add64(aff, 1);
            }
            if str_eq(g.edges[e].from.as_str(), id.as_str()) {
                eff = crate::metrics::sat_add64(eff, 1);
            }
            e = e + 1;
        }
        proof {
            assert(g.edges@.take(g.edges@.len() as int) =~= g.edges@);
        }
        r.push(
            ModuleCoupling {
                module_name: id.clone(),
                afferent_coupling: aff,
                efferent_coupling: eff,
            },
        );
        i = i + 1;
    }
    r
}

/// One exported symbol that no other analyzed module imports.
pub struct UnusedExport {
    pub module_name: String,
    pub export_name: String,
    pub file_path: String,
    pub line: u64,
}

/// Whether some edge of `g` imports symbol `name` from module `id`.
pub open spec fn export_used(g: DependencyGraph, id: Seq<char>, name: Seq<char>) -> bool {
    exists|k: int|
        0 <= k < g.edges@.len() && (#[trigger] g.edges@[k]).to@ == id
            && g.edges@[k].imported_symbols.deep_view().contains(name)
}

/// The ghost tuples (module id, export name, file path, line) of the
/// unused, non-default exports of one file.
pub open spec fn unused_of_file(g: DependencyGraph, f: ModuleImports) -> Seq<
    (Seq<char>, Seq<char>, Seq<char>, u64),
> {
    unused_of_exports(g, module_id_of(f.language, f.path@), f.path@, f.exports@)
}

/// The unused entries among `exports`, left to right.
pub open spec fn unused_of_exports(
    g: DependencyGraph,
    id: Seq<char>,
    path: Seq<char>,
    exports: Seq<crate::imports::ExportInfo>,
) -> Seq<(Seq<char>, Seq<char>, Seq<char>, u64)>
    decreases exports.len(),
{
    if exports.len() == 0 {
        Seq::empty()
    } else {
        unused_of_exports(g, id, path, exports.drop_last()) + (if !exports.last().is_default
            && !export_used(g, id, exports.last().name@) {
            seq![(id, exports.last().name@, path, exports.last().line)]
        } else {
            Seq::empty()
        })
    }
}

/// The unused exports of the whole project, file by file.
pub open spec fn unused_of_files(g: DependencyGraph, files: Seq<ModuleImports>) -> Seq<
    (Seq<char>, Seq<char>, Seq<char>, u64),
>
    decreases files.len(),
{
    if files.len() == 0 {
        Seq::empty()
    } else {
        unused_of_files(g, files.drop_last()) + unused_of_file(g, files.last())
    }
}

/// What one reported unused export says about its ghost tuple.
pub open spec fn unused_matches(
    u: UnusedExport,
    t: (Seq<char>, Seq<char>, Seq<char>, u64),
) -> bool {
    &&& u.module_name@ == t.0
    &&& u.export_name@ == t.1
    &&& u.file_path@ == t.2
    &&& u.line == t.3
}

/// Whether `us` holds exactly the entries of `ts`, in order.
pub open spec fn unused_match_all(
    us: Seq<UnusedExport>,
    ts: Seq<(Seq<char>, Seq<char>, Seq<char>, u64)>,
) -> bool {
    &&& us.len() == ts.len()
    &&& forall|i: int| 0 <= i < ts.len() ==> unused_matches(#[trigger] us[i], ts[i])
}

proof fn lemma_unused_exports_take(
    g: DependencyGraph,
    id: Seq<char>,
    path: Seq<char>,
    exports: Seq<crate::imports::ExportInfo>,
    i: int,
)
    requires
        0 <= i < exports.len(),
    ensures
        unused_of_exports(g, id, path, exports.take(i + 1)) == unused_of_exports(
            g,
            id,
            path,
            exports.take(i),
        ) + (if !exports[i].is_default && !export_used(g, id, exports[i].name@) {
            seq![(id, exports[i].name@, path, exports[i].line)]
        } else {
            Seq::empty()
        }),
{
    assert(exports.take(i + 1).drop_last() =~= exports.take(i));
    assert(exports.take(i + 1).last() == exports[i]);
}

proof fn lemma_unused_files_take(g: DependencyGraph, files: Seq<ModuleImports>, i: int)
    requires
        0 <= i < files.len(),
    ensures
        unused_of_files(g, files.take(i + 1)) == unused_of_files(g, files.take(i)) + unused_of_file(
            g,
            files[i],
        ),
{
    assert(files.take(i + 1).drop_last() =~= files.take(i));
    assert(files.take(i + 1).last() == files[i]);
}

/// Decides whether some edge of `g` imports `name` from module `id`.
fn export_used_exec(g: &DependencyGraph, id: &str, name: &str) -> (r: bool)
    ensures
        r == export_used(*g, id@, name@),
{
    let mut k: usize = 0;
    while k < g.edges.len()
        invariant
            k <= g.edges@.len(),
            forall|j: int|
                0 <= j < k ==> !((#[trigger] g.edges@[j]).to@ == id@
                    && g.edges@[j].imported_symbols.deep_view().contains(name@)),
        decreases g.edges@.len() - k,
    {
        if str_eq(g.edges[k].to.as_str(), id) {
            let syms = &g.edges[k].imported_symbols;
            let mut m: usize = 0;
            while m < syms.len()
                invariant
                    0 <= k < g.edges@.len(),
                    g.edges@[k as int].to@ == id@,
                    *syms == g.edges@[k as int].imported_symbols,
                    m <= syms@.len(),
                    forall|j: int| 0 <= j < m ==> syms.deep_view()[j] != name@,
                decreases syms@.len() - m,
            {
                if str_eq(syms[m].as_str(), name) {
                    proof {
                        assert(syms.deep_view()[m as int] == name@);
                        assert(g.edges@[k as int].imported_symbols.deep_view().contains(name@));
                    }
                    return true;
                }
                proof {
                    assert(syms.deep_view()[m as int] == syms@[m as int]@);
                }
                m = m + 1;
            }
            proof {
                assert(forall|j: int|
                    0 <= j < syms.deep_view().len() ==> syms.deep_view()[j] != name@);
            }
        }
        k = k + 1;
    }
    false
}

/// Finds the exports that no other module imports, file by file and in
/// source order; default exports are never reported.
pub fn find_unused_exports(g: &DependencyGraph, files: &Vec<ModuleImports>) -> (r: Vec<
    UnusedExport,
>)
    ensures
        unused_match_all(r@, unused_of_files(*g, files@)),
{
    let mut r: Vec<UnusedExport> = Vec::new();
    let mut i: usize = 0;
    proof {
        assert(files@.take(0) =~= Seq::<ModuleImports>::empty());
    }
    while i < files.len()
        invariant
            i <= files@.len(),
            unused_match_all(r@, unused_of_files(*g, files@.take(i as int))),
        decreases files@.len() - i,
    {
        let f = &files[i];
        let id = crate::graph::module_id(&f.language, f.path.as_str());
        let ghost gid = module_id_of(f.language, f.path@);
        let ghost base = unused_of_files(*g, files@.take(i as int));
        let mut j: usize = 0;
        proof {
            assert(f.exports@.take(0) =~= Seq::<crate::imports::ExportInfo>::empty());
        }
        while j < f.exports.len()
            invariant
                0 <= i < files@.len(),
                *f == files@[i as int],
                j <= f.exports@.len(),
                id@ == gid,
                gid == module_id_of(f.language, f.path@),
                base == unused_of_files(*g, files@.take(i as int)),
                unused_match_all(r@, base + unused_of_exports(
                    *g,
                    gid,
                    f.path@,
                    f.exports@.take(j as int),
                )),
            decreases f.exports@.len() - j,
        {
            proof {
                lemma_unused_exports_take(*g, gid, f.path@, f.exports@, j as int);
            }
            let ex = &f.exports[j];
            if !ex.is_default && !export_used_exec(g, id.as_str(), ex.name.as_str()) {
                let entry = UnusedExport {
                    module_name: id.clone(),
                    export_name: ex.name.clone(),
                    file_path: f.path.clone(),
                    line: ex.line,
                };
                let ghost pre = r@;
                r.push(entry);
                proof {
                    assert(unused_matches(
                        r@[pre.len() as int],
                        (gid, f.exports@[j as int].name@, f.path@, f.exports@[j as int].line),
                    ));
                }
            }
            j = j + 1;
        }
        proof {
            assert(f.exports@.take(f.exports@.len() as int) =~= f.exports@);
            lemma_unused_files_take(*g, files@, i as int);
        }
        i = i + 1;
    }
    proof {
        assert(files@.take(files@.len() as int) =~= files@);
    }
    r
}

} // verus!
