//! The analysis pipeline: parses every input file, extracts functions and
//! imports, and aggregates the results into one [`AnalysisResults`] value —
//! the sole output handed to reporters.
//!
//! A file that cannot be analyzed (unknown extension, over the size limit,
//! or unparseable) never aborts the batch: it contributes one entry to the
//! error list and nothing else.

use vstd::prelude::*;
use vstd::string::StringExecFns;
use crate::coupling::{
    calculate_module_coupling, count_from, count_to, find_unused_exports, ModuleCoupling,
    unused_match_all, unused_of_files, UnusedExport,
};
use crate::cycles::{
    cycle_ok, detect_circular_dependencies, CircularDependency, edges_closed, first_node_with_id,
    lemma_first_node_range, valid_cycle,
};
use crate::extract::{
    extract_functions, extraction_matches, fa_matches, fn_nodes_tree, FunctionAnalysis,
};
use crate::graph::{
    build_graph, DependencyGraph, edge_matches, edges_match, edges_of_files, ext_paths, ext_tally,
    ext_tally_matches, external_dependencies, kept_files, lemma_kept_has_id, ModuleImports,
    module_id_of, node_ids, nodes_match,
};
use crate::imports::{
    exports_match, export_nodes_tree, extract_imports_exports, imports_match, import_nodes_tree,
};
use crate::lang::{Language, language_of_extension};
use crate::metrics::{cyclomatic_of, sat64, sat_add64, lemma_sat_add};
use crate::parse::{parse_unit, parsed_tree};
use crate::score::{hist, hist_matches, histogram, RankedFunction, sort_functions, sort_ranked};
use crate::source::split_lines_spec;
use crate::tree::ParseNode;

verus! {

/// One input file: its path and its source text. The language is derived
/// from the path's extension.
pub struct SourceFile {
    pub path: String,
    pub source: String,
}

/// Knobs of one analysis run.
pub struct AnalysisConfig {
    /// Functions at or above this cyclomatic complexity are flagged.
    pub complexity_threshold: u64,
    /// Whether test files are analyzed; filtering itself is the caller's.
    pub include_tests: bool,
    /// Files whose source is longer than this many characters are skipped.
    pub max_file_size: u64,
}

impl Default for AnalysisConfig {
    /// The default knobs: threshold 10, no test files, one-MiB size limit.
    fn default() -> (r: Self)
        ensures
            r.complexity_threshold == 10,
            !r.include_tests,
            r.max_file_size == 1048576,
    {
        AnalysisConfig { complexity_threshold: 10, include_tests: false, max_file_size: 1048576 }
    }
}

/// The failure classes an analysis run distinguishes. The batch itself
/// never fails; these label the per-file entries of the error list.
pub enum AnalysisError {
    /// The file could not be read; the payload is the reader's message.
    Io(String),
    /// The parser produced no tree at all.
    Parse,
    /// The extension selects a language the engine does not know.
    UnsupportedLanguage(String),
    /// The path has no extension to select a language by.
    UnknownFileType,
}

impl AnalysisError {
    /// A short, fixed description of the failure class.
    pub fn describe(&self) -> (r: &'static str)
        ensures
            r@ == match *self {
                AnalysisError::Io(_) => "the file could not be read"@,
                AnalysisError::Parse => "the file could not be parsed"@,
                AnalysisError::UnsupportedLanguage(_) => "unsupported file type"@,
                AnalysisError::UnknownFileType => "the path names no known file type"@,
            },
    {
        match self {
            AnalysisError::Io(_) => "the file could not be read",
            AnalysisError::Parse => "the file could not be parsed",
            AnalysisError::UnsupportedLanguage(_) => "unsupported file type",
            AnalysisError::UnknownFileType => "the path names no known file type",
        }
    }
}

/// Per-language file and function counts.
pub struct LanguageStats {
    pub language: Language,
    pub files: u64,
    pub functions: u64,
}

/// Everything one analysis run yields.
pub struct AnalysisResults {
    /// How many files were parsed and analyzed.
    pub files_analyzed: u64,
    /// Total lines over the analyzed files.
    pub total_lines: u64,
    /// Total functions found.
    pub total_functions: u64,
    /// The sum of every function's cyclomatic complexity.
    pub total_complexity: u64,
    /// Files and functions per language.
    pub language_breakdown: Vec<LanguageStats>,
    /// Complexity value to number of functions with it, keyed in order of
    /// first appearance.
    pub complexity_histogram: Vec<(u64, u64)>,
    /// Every function, ranked by complexity descending (ties: file path,
    /// then start line, ascending).
    pub top_functions: Vec<RankedFunction>,
    /// The module dependency graph.
    pub dependency_graph: DependencyGraph,
    /// The circular dependencies found.
    pub circular_dependencies: Vec<CircularDependency>,
    /// Afferent/efferent coupling per module.
    pub module_coupling: Vec<ModuleCoupling>,
    /// Exported symbols nothing imports.
    pub unused_exports: Vec<UnusedExport>,
    /// How often each external dependency is imported, keyed in order of
    /// first appearance.
    pub external_dependencies: Vec<(String, u64)>,
    /// One message per file that could not be analyzed.
    pub errors: Vec<String>,
}

impl AnalysisResults {
    /// The average complexity, as numerator and denominator: the total
    /// complexity over the number of functions, and zero (as `0 / 1`) when
    /// nothing was analyzed.
    pub fn average_complexity_ratio(&self) -> (r: (u64, u64))
        ensures
            r == if self.total_functions > 0 {
                (self.total_complexity, self.total_functions)
            } else {
                (0u64, 1u64)
            },
    {
        if self.total_functions > 0 {
            (self.total_complexity, self.total_functions)
        } else {
            (0, 1)
        }
    }
}

/// The extension of `p`: what follows the last `.`, or empty when `p`
/// holds no dot.
pub open spec fn ext_of(p: Seq<char>) -> Seq<char> {
    if p.contains('.') {
        ext_suffix(p)
    } else {
        Seq::<char>::empty()
    }
}

/// The characters after the last `.` of `p`.
pub open spec fn ext_suffix(p: Seq<char>) -> Seq<char>
    decreases p.len(),
{
    if p.len() == 0 {
        Seq::<char>::empty()
    } else if p.last() == '.' {
        Seq::<char>::empty()
    } else {
        ext_suffix(p.drop_last()).push(p.last())
    }
}

proof fn lemma_ext_suffix(p: Seq<char>, j: int)
    requires
        0 <= j <= p.len(),
        forall|m: int| j <= m < p.len() ==> p[m] != '.',
        j > 0 ==> p[j - 1] == '.',
    ensures
        ext_suffix(p) == p.skip(j) || (j == 0 && ext_suffix(p) == p),
        j > 0 ==> ext_suffix(p) == p.skip(j),
    decreases p.len() - j,
{
    if j == p.len() {
        if j > 0 {
            assert(p.last() == '.');
            assert(ext_suffix(p) =~= p.skip(j));
        } else {
            assert(p.len() == 0);
            assert(ext_suffix(p) =~= p);
        }
    } else {
        assert(p.last() != '.');
        lemma_ext_suffix(p.drop_last(), j);
        if j > 0 {
            assert(ext_suffix(p.drop_last()) == p.drop_last().skip(j));
            assert(p.drop_last().skip(j).push(p.last()) =~= p.skip(j));
        } else {
            if ext_suffix(p.drop_last()) == p.drop_last().skip(0) {
                assert(p.drop_last().skip(0).push(p.last()) =~= p);
                assert(ext_suffix(p) =~= p.skip(0));
            } else {
                assert(ext_suffix(p.drop_last()) == p.drop_last());
                assert(p.drop_last().push(p.last()) =~= p);
            }
        }
    }
}

/// Reads the extension of a file path: what follows the last dot, or the
/// empty string when the path has no dot.
pub fn path_extension(p: &str) -> (r: String)
    ensures
        r@ == ext_of(p@),
{
    let n = p.unicode_len();
    let mut j: usize = n;
    while j > 0 && p.get_char(j - 1) != '.'
        invariant
            n == p@.len(),
            j <= n,
            forall|m: int| j <= m < n ==> p@[m] != '.',
        decreases j,
    {
        j = j - 1;
    }
    if j == 0 {
        proof {
            if p@.contains('.') {
                let w = choose|w: int| 0 <= w < p@.len() && p@[w] == '.';
                assert(false);
            }
        }
        String::new()
    } else {
        proof {
            assert(p@[j - 1] == '.');
            assert(p@.contains('.'));
            lemma_ext_suffix(p@, j as int);
        }
        String::from_str(p.substring_char(j, n))
    }
}

/// The language a file's path selects.
pub open spec fn file_lang(f: SourceFile) -> Language {
    language_of_extension(ext_of(f.path@))
}

/// Whether a file is analyzed: its language is known, it is within the
/// size limit, and the parser produces a tree.
pub open spec fn analyzable(f: SourceFile, c: AnalysisConfig) -> bool {
    &&& file_lang(f) != Language::Unknown
    &&& f.source@.len() <= c.max_file_size
    &&& parsed_tree(file_lang(f), f.source@) is Some
}

/// The syntax tree of an analyzable file.
pub open spec fn tree_of(f: SourceFile) -> ParseNode {
    parsed_tree(file_lang(f), f.source@)->0
}

/// Why a file was skipped, as its error message's reason text.
pub open spec fn reason_of(f: SourceFile, c: AnalysisConfig) -> Seq<char> {
    if file_lang(f) == Language::Unknown {
        ": unsupported file type"@
    } else if f.source@.len() > c.max_file_size {
        ": file exceeds the size limit"@
    } else {
        ": the file could not be parsed"@
    }
}

/// How many of the files are analyzable.
pub open spec fn count_analyzable(files: Seq<SourceFile>, c: AnalysisConfig) -> nat
    decreases files.len(),
{
    if files.len() == 0 {
        0nat
    } else {
        count_analyzable(files.drop_last(), c) + (if analyzable(files.last(), c) {
            1nat
        } else {
            0nat
        })
    }
}

/// The total line count of the analyzable files.
pub open spec fn lines_total(files: Seq<SourceFile>, c: AnalysisConfig) -> nat
    decreases files.len(),
{
    if files.len() == 0 {
        0nat
    } else {
        lines_total(files.drop_last(), c) + (if analyzable(files.last(), c) {
            split_lines_spec(files.last().source@).len()
        } else {
            0nat
        })
    }
}

/// The function nodes of one analyzable file.
pub open spec fn file_fn_nodes(f: SourceFile) -> Seq<ParseNode> {
    fn_nodes_tree(file_lang(f), tree_of(f))
}

/// The total function count of the analyzable files.
pub open spec fn fns_total(files: Seq<SourceFile>, c: AnalysisConfig) -> nat
    decreases files.len(),
{
    if files.len() == 0 {
        0nat
    } else {
        fns_total(files.drop_last(), c) + (if analyzable(files.last(), c) {
            file_fn_nodes(files.last()).len()
        } else {
            0nat
        })
    }
}

/// The complexity values of one file's functions, in source order.
pub open spec fn file_cxty(f: SourceFile) -> Seq<u64> {
    Seq::new(
        file_fn_nodes(f).len(),
        |i: int| sat64(cyclomatic_of(file_lang(f), file_fn_nodes(f)[i])),
    )
}

/// The sum of one sequence of complexity values.
pub open spec fn sum_of(s: Seq<u64>) -> nat
    decreases s.len(),
{
    if s.len() == 0 {
        0nat
    } else {
        sum_of(s.drop_last()) + s.last() as nat
    }
}

/// The complexity values of every function of every analyzable file.
pub open spec fn all_cxty(files: Seq<SourceFile>, c: AnalysisConfig) -> Seq<u64>
    decreases files.len(),
{
    if files.len() == 0 {
        Seq::empty()
    } else {
        all_cxty(files.drop_last(), c) + (if analyzable(files.last(), c) {
            file_cxty(files.last())
        } else {
            Seq::<u64>::empty()
        })
    }
}

/// The error messages of the skipped files, in input order: the file's
/// path followed by the reason it was skipped.
pub open spec fn errors_spec(files: Seq<SourceFile>, c: AnalysisConfig) -> Seq<Seq<char>>
    decreases files.len(),
{
    if files.len() == 0 {
        Seq::empty()
    } else {
        errors_spec(files.drop_last(), c) + (if analyzable(files.last(), c) {
            Seq::<Seq<char>>::empty()
        } else {
            seq![files.last().path@ + reason_of(files.last(), c)]
        })
    }
}

/// How many analyzable files are of language `l`.
pub open spec fn lang_files(files: Seq<SourceFile>, c: AnalysisConfig, l: Language) -> nat
    decreases files.len(),
{
    if files.len() == 0 {
        0nat
    } else {
        lang_files(files.drop_last(), c, l) + (if analyzable(files.last(), c) && file_lang(
            files.last(),
        ) == l {
            1nat
        } else {
            0nat
        })
    }
}

/// How many functions the analyzable files of language `l` hold.
pub open spec fn lang_fns(files: Seq<SourceFile>, c: AnalysisConfig, l: Language) -> nat
    decreases files.len(),
{
    if files.len() == 0 {
        0nat
    } else {
        lang_fns(files.drop_last(), c, l) + (if analyzable(files.last(), c) && file_lang(
            files.last(),
        ) == l {
            file_fn_nodes(files.last()).len()
        } else {
            0nat
        })
    }
}

/// The ghost description of the ranked-function pool: one entry per
/// function of every analyzable file, in input and source order, giving
/// the file's path, its language, its lines and the function node.
pub open spec fn pool_specs(files: Seq<SourceFile>, c: AnalysisConfig) -> Seq<
    (Seq<char>, Language, Seq<Seq<char>>, ParseNode),
>
    decreases files.len(),
{
    if files.len() == 0 {
        Seq::empty()
    } else {
        pool_specs(files.drop_last(), c) + (if analyzable(files.last(), c) {
            file_pool(files.last())
        } else {
            Seq::empty()
        })
    }
}

/// The pool entries of one analyzable file.
pub open spec fn file_pool(f: SourceFile) -> Seq<(Seq<char>, Language, Seq<Seq<char>>, ParseNode)> {
    Seq::new(
        file_fn_nodes(f).len(),
        |i: int| (f.path@, file_lang(f), split_lines_spec(f.source@), file_fn_nodes(f)[i]),
    )
}

/// What one pool entry says about one ranked function.
pub open spec fn pool_entry_matches(
    t: (Seq<char>, Language, Seq<Seq<char>>, ParseNode),
    rf: RankedFunction,
) -> bool {
    &&& rf.file_path@ == t.0
    &&& fa_matches(t.1, t.2, t.3, rf.function)
}

/// Whether `pool` realizes exactly the ghost pool `ts`, in order.
pub open spec fn pool_matches(
    ts: Seq<(Seq<char>, Language, Seq<Seq<char>>, ParseNode)>,
    pool: Seq<RankedFunction>,
) -> bool {
    &&& pool.len() == ts.len()
    &&& forall|i: int| 0 <= i < ts.len() ==> pool_entry_matches(ts[i], #[trigger] pool[i])
}

/// What one module-imports record says about one analyzable file.
pub open spec fn module_of_file_matches(f: SourceFile, m: ModuleImports) -> bool {
    &&& m.path@ == f.path@
    &&& m.language == file_lang(f)
    &&& imports_match(file_lang(f), import_nodes_tree(file_lang(f), tree_of(f)), m.imports@)
    &&& exports_match(file_lang(f), export_nodes_tree(file_lang(f), tree_of(f)), m.exports@)
}

/// The analyzable files, in order.
pub open spec fn analyzable_files(files: Seq<SourceFile>, c: AnalysisConfig) -> Seq<SourceFile>
    decreases files.len(),
{
    if files.len() == 0 {
        Seq::empty()
    } else {
        analyzable_files(files.drop_last(), c) + (if analyzable(files.last(), c) {
            seq![files.last()]
        } else {
            Seq::empty()
        })
    }
}

/// Whether `mods` realizes the analyzable files, one record each, in order.
pub open spec fn modules_match(
    files: Seq<SourceFile>,
    c: AnalysisConfig,
    mods: Seq<ModuleImports>,
) -> bool {
    &&& mods.len() == analyzable_files(files, c).len()
    &&& forall|i: int|
        0 <= i < mods.len() ==> module_of_file_matches(
            analyzable_files(files, c)[i],
            #[trigger] mods[i],
        )
}

/// What the per-language breakdown says: one entry per supported language,
/// in a fixed order, with its file and function counts.
pub open spec fn lang_stats_match(
    files: Seq<SourceFile>,
    c: AnalysisConfig,
    v: Seq<LanguageStats>,
) -> bool {
    &&& v.len() == 5
    &&& v[0].language == Language::Rust
    &&& v[1].language == Language::JavaScript
    &&& v[2].language == Language::TypeScript
    &&& v[3].language == Language::Python
    &&& v[4].language == Language::Go
    &&& forall|k: int|
        0 <= k < 5 ==> {
            &&& (#[trigger] v[k]).files == sat64(lang_files(files, c, v[k].language))
            &&& v[k].functions == sat64(lang_fns(files, c, v[k].language))
        }
}

proof fn lemma_aggregates_take(files: Seq<SourceFile>, c: AnalysisConfig, i: int)
    requires
        0 <= i < files.len(),
    ensures
        count_analyzable(files.take(i + 1), c) == count_analyzable(files.take(i), c) + (
        if analyzable(files[i], c) {
            1nat
        } else {
            0nat
        }),
        lines_total(files.take(i + 1), c) == lines_total(files.take(i), c) + (if analyzable(
            files[i],
            c,
        ) {
            split_lines_spec(files[i].source@).len()
        } else {
            0nat
        }),
        fns_total(files.take(i + 1), c) == fns_total(files.take(i), c) + (if analyzable(
            files[i],
            c,
        ) {
            file_fn_nodes(files[i]).len()
        } else {
            0nat
        }),
        all_cxty(files.take(i + 1), c) == all_cxty(files.take(i), c) + (if analyzable(
            files[i],
            c,
        ) {
            file_cxty(files[i])
        } else {
            Seq::<u64>::empty()
        }),
        errors_spec(files.take(i + 1), c) == errors_spec(files.take(i), c) + (if analyzable(
            files[i],
            c,
        ) {
            Seq::<Seq<char>>::empty()
        } else {
            seq![files[i].path@ + reason_of(files[i], c)]
        }),
        pool_specs(files.take(i + 1), c) == pool_specs(files.take(i), c) + (if analyzable(
            files[i],
            c,
        ) {
            file_pool(files[i])
        } else {
            Seq::empty()
        }),
        analyzable_files(files.take(i + 1), c) == analyzable_files(files.take(i), c) + (
        if analyzable(files[i], c) {
            seq![files[i]]
        } else {
            Seq::<SourceFile>::empty()
        }),
        forall|l: Language|
            lang_files(files.take(i + 1), c, l) == lang_files(files.take(i), c, l) + (
            if analyzable(files[i], c) && file_lang(files[i]) == l {
                1nat
            } else {
                0nat
            }),
        forall|l: Language|
            lang_fns(files.take(i + 1), c, l) == lang_fns(files.take(i), c, l) + (if analyzable(
                files[i],
                c,
            ) && file_lang(files[i]) == l {
                file_fn_nodes(files[i]).len()
            } else {
                0nat
            }),
{
    assert(files.take(i + 1).drop_last() =~= files.take(i));
    assert(files.take(i + 1).last() == files[i]);
}

proof fn lemma_sum_of_take(s: Seq<u64>, i: int)
    requires
        0 <= i < s.len(),
    ensures
        sum_of(s.take(i + 1)) == sum_of(s.take(i)) + s[i],
{
    assert(s.take(i + 1).drop_last() =~= s.take(i));
    assert(s.take(i + 1).last() == s[i]);
}

/// Analyzes a batch of source files. Every file either contributes to the
/// aggregates (when its language is known, it is within the size limit and
/// it parses) or contributes exactly one message to the error list; the
/// batch never fails as a whole.
pub fn analyze_project(files: &Vec<SourceFile>, c: &AnalysisConfig) -> (r: AnalysisResults)
    ensures
        r.files_analyzed == count_analyzable(files@, *c),
        r.total_lines == sat64(lines_total(files@, *c)),
        r.total_functions == sat64(fns_total(files@, *c)),
        r.total_complexity == sat64(sum_of(all_cxty(files@, *c))),
        hist_matches(r.complexity_histogram@, hist(all_cxty(files@, *c))),
        r.errors.deep_view() == errors_spec(files@, *c),
        lang_stats_match(files@, *c, r.language_breakdown@),
        exists|pool: Seq<RankedFunction>|
            #[trigger] pool_matches(pool_specs(files@, *c), pool) && r.top_functions@
                == sort_ranked(pool),
        crate::score::sorted_ranked(r.top_functions@),
        exists|mods: Seq<ModuleImports>|
            {
                &&& #[trigger] modules_match(files@, *c, mods)
                &&& nodes_match(kept_files(mods), r.dependency_graph.nodes@)
                &&& edges_match(
                    r.dependency_graph.edges@,
                    edges_of_files(mods, node_ids(mods)),
                )
                &&& unused_match_all(
                    r.unused_exports@,
                    unused_of_files(r.dependency_graph, mods),
                )
                &&& ext_tally_matches(r.external_dependencies@, ext_tally(ext_paths(mods)))
            },
        forall|p: int, q: int|
            0 <= p < q < r.dependency_graph.nodes@.len() ==> (
            #[trigger] r.dependency_graph.nodes@[p]).id@ != (
            #[trigger] r.dependency_graph.nodes@[q]).id@,
        (exists|cyc: Seq<Seq<char>>| valid_cycle(r.dependency_graph, cyc))
            ==> r.circular_dependencies@.len() >= 1,
        forall|i: int|
            0 <= i < r.circular_dependencies@.len() ==> cycle_ok(
                r.dependency_graph,
                #[trigger] r.circular_dependencies@[i],
            ),
        r.module_coupling@.len() == r.dependency_graph.nodes@.len(),
        forall|i: int|
            0 <= i < r.module_coupling@.len() ==> {
                &&& (#[trigger] r.module_coupling@[i]).module_name@
                    == r.dependency_graph.nodes@[i].id@
                &&& r.module_coupling@[i].afferent_coupling == sat64(
                    count_to(r.dependency_graph.edges@, r.dependency_graph.nodes@[i].id@),
                )
                &&& r.module_coupling@[i].efferent_coupling == sat64(
                    count_from(r.dependency_graph.edges@, r.dependency_graph.nodes@[i].id@),
                )
            },
{
    let mut analyzed: u64 = 0;
    let mut lines_tot: u64 = 0;
    let mut fns_tot: u64 = 0;
    let mut cxty_tot: u64 = 0;
    let mut cvals: Vec<u64> = Vec::new();
    let mut pool: Vec<RankedFunction> = Vec::new();
    let mut mods: Vec<ModuleImports> = Vec::new();
    let mut errors: Vec<String> = Vec::new();
    let mut lf_r: u64 = 0;
    let mut lf_j: u64 = 0;
    let mut lf_t: u64 = 0;
    let mut lf_p: u64 = 0;
    let mut lf_g: u64 = 0;
    let mut ln_r: u64 = 0;
    let mut ln_j: u64 = 0;
    let mut ln_t: u64 = 0;
    let mut ln_p: u64 = 0;
    let mut ln_g: u64 = 0;
    let mut i: usize = 0;
    proof {
        assert(files@.take(0) =~= Seq::<SourceFile>::empty());
        assert(errors.deep_view() =~~= errors_spec(files@.take(0), *c));
        assert(cvals@ =~= all_cxty(files@.take(0), *c));
    }
    while i < files.len()
        invariant
            i <= files@.len(),
            analyzed == count_analyzable(files@.take(i as int), *c),
            analyzed <= i,
            lines_tot == sat64(lines_total(files@.take(i as int), *c)),
            fns_tot == sat64(fns_total(files@.take(i as int), *c)),
            cvals@ == all_cxty(files@.take(i as int), *c),
            cxty_tot == sat64(sum_of(all_cxty(files@.take(i as int), *c))),
            pool_matches(pool_specs(files@.take(i as int), *c), pool@),
            modules_match(files@.take(i as int), *c, mods@),
            errors.deep_view() == errors_spec(files@.take(i as int), *c),
            lf_r == sat64(lang_files(files@.take(i as int), *c, Language::Rust)),
            lf_j == sat64(lang_files(files@.take(i as int), *c, Language::JavaScript)),
            lf_t == sat64(lang_files(files@.take(i as int), *c, Language::TypeScript)),
            lf_p == sat64(lang_files(files@.take(i as int), *c, Language::Python)),
            lf_g == sat64(lang_files(files@.take(i as int), *c, Language::Go)),
            ln_r == sat64(lang_fns(files@.take(i as int), *c, Language::Rust)),
            ln_j == sat64(lang_fns(files@.take(i as int), *c, Language::JavaScript)),
            ln_t == sat64(lang_fns(files@.take(i as int), *c, Language::TypeScript)),
            ln_p == sat64(lang_fns(files@.take(i as int), *c, Language::Python)),
            ln_g == sat64(lang_fns(files@.take(i as int), *c, Language::Go)),
        decreases files@.len() - i,
    {
        let f = &files[i];
        let ghost fi = files@[i as int];
        proof {
            lemma_aggregates_take(files@, *c, i as int);
        }
        let ext = path_extension(f.path.as_str());
        let lang = Language::from_extension(ext.as_str());
        proof {
            assert(lang == file_lang(fi));
        }
        let source_len = f.source.as_str().unicode_len();
        if lang == Language::Unknown {
            let ghost pre = errors.deep_view();
            errors.push(f.path.clone().concat(": unsupported file type"));
            proof {
                assert(!analyzable(fi, *c));
                assert(errors.deep_view() =~~= pre + seq![fi.path@ + reason_of(fi, *c)]);
                assert(cvals@ =~= all_cxty(files@.take(i as int + 1), *c));
                assert(pool_matches(pool_specs(files@.take(i as int + 1), *c), pool@));
                assert(analyzable_files(files@.take(i as int + 1), *c) =~= analyzable_files(
                    files@.take(i as int),
                    *c,
                ));
            }
        } else if source_len as u64 > c.max_file_size {
            let ghost pre = errors.deep_view();
            errors.push(f.path.clone().concat(": file exceeds the size limit"));
            proof {
                assert(!analyzable(fi, *c));
                assert(errors.deep_view() =~~= pre + seq![fi.path@ + reason_of(fi, *c)]);
                assert(cvals@ =~= all_cxty(files@.take(i as int + 1), *c));
                assert(pool_matches(pool_specs(files@.take(i as int + 1), *c), pool@));
                assert(analyzable_files(files@.take(i as int + 1), *c) =~= analyzable_files(
                    files@.take(i as int),
                    *c,
                ));
            }
        } else {
            match parse_unit(&lang, f.path.clone(), f.source.as_str()) {
                None => {
                    let ghost pre = errors.deep_view();
                    errors.push(f.path.clone().concat(": the file could not be parsed"));
                    proof {
                        assert(!analyzable(fi, *c));
                        assert(errors.deep_view() =~~= pre + seq![fi.path@ + reason_of(fi, *c)]);
                        assert(cvals@ =~= all_cxty(files@.take(i as int + 1), *c));
                        assert(pool_matches(pool_specs(files@.take(i as int + 1), *c), pool@));
                        assert(analyzable_files(files@.take(i as int + 1), *c)
                            =~= analyzable_files(files@.take(i as int), *c));
                    }
                },
                Some(unit) => {
                    proof {
                        assert(analyzable(fi, *c));
                        assert(unit.root == tree_of(fi));
                        assert(unit.lines.deep_view() == split_lines_spec(fi.source@));
                        assert(errors.deep_view() =~~= errors_spec(files@.take(i as int + 1), *c));
                    }
                    let records = extract_functions(&lang, &unit.root, &unit.lines);
                    let iex = extract_imports_exports(&lang, &unit.root);
                    analyzed = analyzed + 1;
                    proof {
                        lemma_sat_add(
                            lines_total(files@.take(i as int), *c),
                            split_lines_spec(fi.source@).len(),
                        );
                        assert(unit.lines@.len() == unit.lines.deep_view().len());
                        lemma_sat_add(
                            fns_total(files@.take(i as int), *c),
                            file_fn_nodes(fi).len(),
                        );
                    }
                    lines_tot = sat_add64(lines_tot, unit.lines.len() as u64);
                    let nrecs = records.len();
                    fns_tot = sat_add64(fns_tot, nrecs as u64);
                    // Fold this file's records into the pool and totals.
                    let ghost base_cvals = cvals@;
                    let ghost base_pool = pool@;
                    let ghost fcx = file_cxty(fi);
                    let ghost fpool = file_pool(fi);
                    let ghost frecs = records@;
                    let mut rrest = records;
                    let mut k: usize = 0;
                    proof {
                        assert(rrest@ =~= frecs.skip(0));
                        assert(fcx.take(0) =~= Seq::<u64>::empty());
                        assert(cvals@ =~= base_cvals + fcx.take(0));
                        assert(fpool.take(0) =~= Seq::empty());
                    }
                    while k < nrecs
                        invariant
                            k <= nrecs,
                            nrecs == frecs.len(),
                            frecs.len() == file_fn_nodes(fi).len(),
                            extraction_matches(
                                file_lang(fi),
                                split_lines_spec(fi.source@),
                                file_fn_nodes(fi),
                                frecs,
                            ),
                            fcx == file_cxty(fi),
                            fpool == file_pool(fi),
                            *f == fi,
                            rrest@ == frecs.skip(k as int),
                            cvals@ == base_cvals + fcx.take(k as int),
                            cxty_tot == sat64(sum_of(base_cvals + fcx.take(k as int))),
                            pool@.len() == base_pool.len() + k,
                            forall|j: int| 0 <= j < base_pool.len() ==> pool@[j] == base_pool[j],
                            forall|j: int|
                                0 <= j < k ==> pool_entry_matches(
                                    fpool[j],
                                    #[trigger] pool@[base_pool.len() + j],
                                ),
                        decreases nrecs - k,
                    {
                        let rec = rrest.remove(0);
                        proof {
                            assert(frecs.skip(k as int)[0] == frecs[k as int]);
                            assert(frecs.skip(k as int).remove(0) =~= frecs.skip(k as int + 1));
                            assert(fa_matches(
                                file_lang(fi),
                                split_lines_spec(fi.source@),
                                file_fn_nodes(fi)[k as int],
                                frecs[k as int],
                            ));
                            assert(fcx[k as int] == sat64(
                                cyclomatic_of(file_lang(fi), file_fn_nodes(fi)[k as int]),
                            ));
                            assert(fcx.take(k as int + 1).drop_last() =~= fcx.take(k as int));
                            assert((base_cvals + fcx.take(k as int + 1)).drop_last()
                                =~= base_cvals + fcx.take(k as int));
                            lemma_sat_add(sum_of(base_cvals + fcx.take(k as int)), fcx[k as int] as nat);
                        }
                        cvals.push(rec.cyclomatic_complexity);
                        cxty_tot = sat_add64(cxty_tot, rec.cyclomatic_complexity);
                        let entry = RankedFunction { file_path: f.path.clone(), function: rec };
                        pool.push(entry);
                        proof {
                            assert(cvals@ =~= base_cvals + fcx.take(k as int + 1));
                            assert(sum_of(base_cvals + fcx.take(k as int + 1)) == sum_of(
                                base_cvals + fcx.take(k as int),
                            ) + fcx[k as int]);
                        }
                        k = k + 1;
                    }
                    proof {
                        assert(fcx.take(nrecs as int) =~= fcx);
                        assert(cvals@ =~= all_cxty(files@.take(i as int + 1), *c));
                        assert(pool_matches(pool_specs(files@.take(i as int), *c) + fpool, pool@))
                            by {
                            assert forall|j: int|
                                0 <= j < pool_specs(files@.take(i as int), *c).len()
                                    + fpool.len() implies pool_entry_matches(
                                (pool_specs(files@.take(i as int), *c) + fpool)[j],
                                #[trigger] pool@[j],
                            ) by {
                                let specs0 = pool_specs(files@.take(i as int), *c);
                                assert(specs0.len() == base_pool.len());
                                if j < base_pool.len() {
                                    assert(pool@[j] == base_pool[j]);
                                    assert((specs0 + fpool)[j] == specs0[j]);
                                    assert(pool_entry_matches(specs0[j], base_pool[j]));
                                } else {
                                    assert((specs0 + fpool)[j] == fpool[j - specs0.len()]);
                                    assert(pool_entry_matches(
                                        fpool[j - specs0.len()],
                                        pool@[base_pool.len() + (j - specs0.len())],
                                    ));
                                }
                            }
                        }
                        assert(pool_matches(pool_specs(files@.take(i as int + 1), *c), pool@));
                    }
                    let lang2 = unit.language;
                    let ghost pre_mods = mods@;
                    mods.push(
                        ModuleImports {
                            path: unit.path,
                            language: lang2,
                            imports: iex.imports,
                            exports: iex.exports,
                        },
                    );
                    proof {
                        assert(module_of_file_matches(fi, mods@[pre_mods.len() as int]));
                        let af1 = analyzable_files(files@.take(i as int + 1), *c);
                        assert(af1 =~= analyzable_files(files@.take(i as int), *c) + seq![fi]);
                        assert forall|j: int| 0 <= j < mods@.len() implies module_of_file_matches(
                            af1[j],
                            #[trigger] mods@[j],
                        ) by {
                            if j < pre_mods.len() {
                                assert(mods@[j] == pre_mods[j]);
                                assert(af1[j] == analyzable_files(files@.take(i as int), *c)[j]);
                            }
                        }
                        assert(modules_match(files@.take(i as int + 1), *c, mods@));
                    }
                    // Per-language tallies.
                    proof {
                        lemma_sat_add(lang_files(files@.take(i as int), *c, file_lang(fi)), 1);
                        lemma_sat_add(
                            lang_fns(files@.take(i as int), *c, file_lang(fi)),
                            file_fn_nodes(fi).len(),
                        );
                    }
                    match lang {
                        Language::Rust => {
                            lf_r = sat_add64(lf_r, 1);
                            ln_r = sat_add64(ln_r, nrecs as u64);
                        },
                        Language::JavaScript => {
                            lf_j = sat_add64(lf_j, 1);
                            ln_j = sat_add64(ln_j, nrecs as u64);
                        },
                        Language::TypeScript => {
                            lf_t = sat_add64(lf_t, 1);
                            ln_t = sat_add64(ln_t, nrecs as u64);
                        },
                        Language::Python => {
                            lf_p = sat_add64(lf_p, 1);
                            ln_p = sat_add64(ln_p, nrecs as u64);
                        },
                        Language::Go => {
                            lf_g = sat_add64(lf_g, 1);
                            ln_g = sat_add64(ln_g, nrecs as u64);
                        },
                        Language::Unknown => {},
                    }
                },
            }
        }
        i = i + 1;
    }
    proof {
        assert(files@.take(files@.len() as int) =~= files@);
    }
    let ghost pool_ghost = pool@;
    proof {
        crate::score::lemma_sort_ranked_sorted(pool_ghost);
    }
    let top_functions = sort_functions(pool);
    let complexity_histogram = histogram(&cvals);
    let dependency_graph = build_graph(&mods);
    let circular_dependencies = detect_circular_dependencies(&dependency_graph);
    let module_coupling = calculate_module_coupling(&dependency_graph);
    let unused_exports = find_unused_exports(&dependency_graph, &mods);
    let external_deps = external_dependencies(&mods);
    let mut language_breakdown: Vec<LanguageStats> = Vec::new();
    language_breakdown.push(
        LanguageStats { language: Language::Rust, files: lf_r, functions: ln_r },
    );
    language_breakdown.push(
        LanguageStats { language: Language::JavaScript, files: lf_j, functions: ln_j },
    );
    language_breakdown.push(
        LanguageStats { language: Language::TypeScript, files: lf_t, functions: ln_t },
    );
    language_breakdown.push(
        LanguageStats { language: Language::Python, files: lf_p, functions: ln_p },
    );
    language_breakdown.push(LanguageStats { language: Language::Go, files: lf_g, functions: ln_g });
    let ghost mods_ghost = mods@;
    proof {
        // The built graph's edges are closed over its node ids, so the
        // cycle search is complete on it.
        let ids = node_ids(mods_ghost);
        let ts = edges_of_files(mods_ghost, ids);
        let kept = kept_files(mods_ghost);
        assert forall|k: int| 0 <= k < dependency_graph.edges@.len() implies {
            &&& first_node_with_id(
                dependency_graph.nodes@,
                (#[trigger] dependency_graph.edges@[k]).from@,
            ) >= 0
            &&& first_node_with_id(dependency_graph.nodes@, dependency_graph.edges@[k].to@) >= 0
        } by {
            assert(edge_matches(dependency_graph.edges@[k], ts[k]));
            crate::laws::lemma_edges_from_origin(mods_ghost, ids, k);
            let i = choose|i: int|
                0 <= i < mods_ghost.len() && ts[k].0 == module_id_of(
                    (#[trigger] mods_ghost[i]).language,
                    mods_ghost[i].path@,
                );
            lemma_kept_has_id(mods_ghost, i);
            let p = choose|p: int|
                0 <= p < kept.len() && module_id_of(
                    (#[trigger] kept[p]).language,
                    kept[p].path@,
                ) == module_id_of(mods_ghost[i].language, mods_ghost[i].path@);
            assert(dependency_graph.nodes@[p].id@ == dependency_graph.edges@[k].from@);
            lemma_first_node_range(dependency_graph.nodes@, dependency_graph.edges@[k].from@);
            if first_node_with_id(dependency_graph.nodes@, dependency_graph.edges@[k].from@)
                == -1 {
                assert(dependency_graph.nodes@[p].id@ != dependency_graph.edges@[k].from@);
            }
            crate::laws::lemma_edges_never_dangle(mods_ghost, ids, k);
            let j = choose|j: int| 0 <= j < ids.len() && ids[j] == ts[k].1;
            assert(ids[j] == module_id_of(mods_ghost[j].language, mods_ghost[j].path@));
            lemma_kept_has_id(mods_ghost, j);
            let q = choose|q: int|
                0 <= q < kept.len() && module_id_of(
                    (#[trigger] kept[q]).language,
                    kept[q].path@,
                ) == module_id_of(mods_ghost[j].language, mods_ghost[j].path@);
            assert(dependency_graph.nodes@[q].id@ == dependency_graph.edges@[k].to@);
            lemma_first_node_range(dependency_graph.nodes@, dependency_graph.edges@[k].to@);
            if first_node_with_id(dependency_graph.nodes@, dependency_graph.edges@[k].to@) == -1 {
                assert(dependency_graph.nodes@[q].id@ != dependency_graph.edges@[k].to@);
            }
        }
        assert(edges_closed(dependency_graph));
    }
    let r = AnalysisResults {
        files_analyzed: analyzed,
        total_lines: lines_tot,
        total_functions: fns_tot,
        total_complexity: cxty_tot,
        language_breakdown,
        complexity_histogram,
        top_functions,
        dependency_graph,
        circular_dependencies,
        module_coupling,
        unused_exports,
        external_dependencies: external_deps,
        errors,
    };
    proof {
        assert(pool_matches(pool_specs(files@, *c), pool_ghost));
        assert(modules_match(files@, *c, mods_ghost));
    }
    r
}

} // verus!
