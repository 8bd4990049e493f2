//! The dependency graph builder: one node per analyzed file, one edge per
//! internal import whose target resolves to a known module.
//!
//! Classification of a path as internal or external, and its resolution to
//! a module id, are purely lexical, by the conventions of each language;
//! an internal-looking import whose target is unknown yields no edge.

use vstd::prelude::*;
use vstd::string::StringExecFns;
use crate::imports::{ExportInfo, ImportInfo};
use crate::lang::Language;
use crate::text::{is_prefix_of, str_starts_with};

verus! {

/// One module of the analyzed project: a node of the dependency graph.
pub struct DependencyNode {
    /// The resolved module identifier; unique within one graph.
    pub id: String,
    /// The path of the file the module lives in.
    pub file_path: String,
    /// The module identifier, as shown to reporters.
    pub module_name: String,
    /// The names the module exports.
    pub exports: Vec<String>,
}

/// How an import brings symbols in.
#[derive(Clone, Copy, Debug, PartialEq, Eq, Structural)]
pub enum ImportType {
    Named,
    Default,
    Namespace,
    SideEffect,
}

/// One directed edge of the dependency graph: `from` imports `to`.
pub struct DependencyEdge {
    pub from: String,
    pub to: String,
    pub import_type: ImportType,
    pub imported_symbols: Vec<String>,
}

/// The dependency graph of one analysis run.
pub struct DependencyGraph {
    pub nodes: Vec<DependencyNode>,
    pub edges: Vec<DependencyEdge>,
}

/// Whether `s` ends with `suf`.
pub open spec fn ends_with(s: Seq<char>, suf: Seq<char>) -> bool {
    suf.len() <= s.len() && s.subrange(s.len() - suf.len(), s.len() as int) == suf
}

/// `s` without a trailing source-file extension.
pub open spec fn strip_ext(s: Seq<char>) -> Seq<char> {
    if ends_with(s, ".jsx"@) || ends_with(s, ".mjs"@) || ends_with(s, ".tsx"@) || ends_with(
        s,
        ".pyi"@,
    ) {
        s.take(s.len() - 4)
    } else if ends_with(s, ".rs"@) || ends_with(s, ".js"@) || ends_with(s, ".ts"@) || ends_with(
        s,
        ".py"@,
    ) || ends_with(s, ".go"@) {
        s.take(s.len() - 3)
    } else {
        s
    }
}

/// `s` with every `/` replaced by `sep`.
pub open spec fn replace_sep(s: Seq<char>, sep: Seq<char>) -> Seq<char>
    decreases s.len(),
{
    if s.len() == 0 {
        Seq::<char>::empty()
    } else {
        replace_sep(s.drop_last(), sep) + (if s.last() == '/' {
            sep
        } else {
            seq![s.last()]
        })
    }
}

/// The module identifier of the file at `path`: the path without its
/// extension, with `/` replaced by the language's module separator.
pub open spec fn module_id_of(lang: Language, path: Seq<char>) -> Seq<char> {
    match lang {
        Language::Rust | Language::JavaScript | Language::TypeScript => replace_sep(
            strip_ext(path),
            "::"@,
        ),
        Language::Python => replace_sep(strip_ext(path), "."@),
        Language::Go | Language::Unknown => path,
    }
}

/// Whether an import path names something outside the analyzed project,
/// by the language's lexical convention.
pub open spec fn is_external_path(lang: Language, path: Seq<char>) -> bool {
    match lang {
        Language::Rust => !(is_prefix_of("crate::"@, path) || is_prefix_of("super::"@, path)
            || is_prefix_of("self::"@, path)),
        Language::JavaScript | Language::TypeScript => !(is_prefix_of("./"@, path) || is_prefix_of(
            "../"@,
            path,
        )),
        Language::Python => !is_prefix_of("."@, path),
        Language::Go | Language::Unknown => true,
    }
}

/// `p` without its leading `./` and `../` segments.
pub open spec fn strip_rel(p: Seq<char>) -> Seq<char>
    decreases p.len(),
{
    if is_prefix_of("./"@, p) && p.len() >= 2 {
        strip_rel(p.skip(2))
    } else if is_prefix_of("../"@, p) && p.len() >= 3 {
        strip_rel(p.skip(3))
    } else {
        p
    }
}

/// `p` without its leading dots.
pub open spec fn strip_dots(p: Seq<char>) -> Seq<char>
    decreases p.len(),
{
    if p.len() > 0 && p[0] == '.' {
        strip_dots(p.drop_first())
    } else {
        p
    }
}

/// The module id an internal import path points at.
pub open spec fn resolve_internal(lang: Language, path: Seq<char>) -> Seq<char> {
    match lang {
        Language::Rust => if is_prefix_of("crate::"@, path) {
            path.skip(7)
        } else if is_prefix_of("super::"@, path) {
            path.skip(7)
        } else if is_prefix_of("self::"@, path) {
            path.skip(6)
        } else {
            path
        },
        Language::JavaScript | Language::TypeScript => replace_sep(
            strip_ext(strip_rel(path)),
            "::"@,
        ),
        Language::Python => strip_dots(path),
        Language::Go | Language::Unknown => path,
    }
}

/// Lexical classifier and resolver for dependency analysis.
pub struct DependencyAnalyzer {
    pub root_path: String,
}

impl DependencyAnalyzer {
    /// A dependency analyzer rooted at `root_path`.
    pub fn new(root_path: String) -> (r: Self)
        ensures
            r.root_path == root_path,
    {
        DependencyAnalyzer { root_path }
    }

    /// Classifies an import path as external (outside the project) or
    /// internal, by the language's lexical convention.
    pub fn is_external_dependency(&self, import_path: &str, language: &Language) -> (r: bool)
        ensures
            r == is_external_path(*language, import_path@),
    {
        match language {
            Language::Rust => !(str_starts_with(import_path, "crate::") || str_starts_with(
                import_path,
                "super::",
            ) || str_starts_with(import_path, "self::")),
            Language::JavaScript | Language::TypeScript => !(str_starts_with(import_path, "./")
                || str_starts_with(import_path, "../")),
            Language::Python => !str_starts_with(import_path, "."),
            Language::Go | Language::Unknown => true,
        }
    }
}

/// Whether `s` ends with `suf`.
pub fn str_ends_with(s: &str, suf: &str) -> (r: bool)
    ensures
        r == ends_with(s@, suf@),
{
    let n = s.unicode_len();
    let m = suf.unicode_len();
    if m > n {
        return false;
    }
    let mut i: usize = 0;
    while i < m
        invariant
            m <= n,
            n == s@.len(),
            m == suf@.len(),
            i <= m,
            forall|j: int| 0 <= j < i ==> s@[n - m + j] == suf@[j],
        decreases m - i,
    {
        if s.get_char(n - m + i) != suf.get_char(i) {
            assert(s@.subrange(n - m, n as int)[i as int] != suf@[i as int]);
            return false;
        }
        i = i + 1;
    }
    proof {
        assert(s@.subrange(n - m, n as int) =~= suf@);
    }
    true
}

/// Removes a trailing source-file extension.
fn strip_ext_exec(s: &str) -> (r: String)
    ensures
        r@ == strip_ext(s@),
{
    let n = s.unicode_len();
    if str_ends_with(s, ".jsx") || str_ends_with(s, ".mjs") || str_ends_with(s, ".tsx")
        || str_ends_with(s, ".pyi") {
        proof {
            reveal_strlit(".jsx");
            reveal_strlit(".mjs");
            reveal_strlit(".tsx");
            reveal_strlit(".pyi");
        }
        String::from_str(s.substring_char(0, n - 4))
    } else if str_ends_with(s, ".rs") || str_ends_with(s, ".js") || str_ends_with(s, ".ts")
        || str_ends_with(s, ".py") || str_ends_with(s, ".go") {
        proof {
            reveal_strlit(".rs");
            reveal_strlit(".js");
            reveal_strlit(".ts");
            reveal_strlit(".py");
            reveal_strlit(".go");
        }
        String::from_str(s.substring_char(0, n - 3))
    } else {
        String::from_str(s)
    }
}

proof fn lemma_replace_sep_take(s: Seq<char>, sep: Seq<char>, i: int)
    requires
        0 <= i < s.len(),
    ensures
        replace_sep(s.take(i + 1), sep) == replace_sep(s.take(i), sep) + (if s[i] == '/' {
            sep
        } else {
            seq![s[i]]
        }),
{
    assert(s.take(i + 1).drop_last() =~= s.take(i));
    assert(s.take(i + 1).last() == s[i]);
}

/// Replaces every `/` of `s` by `sep`.
fn replace_sep_exec(s: &str, sep: &str) -> (r: String)
    ensures
        r@ == replace_sep(s@, sep@),
{
    let n = s.unicode_len();
    let mut out = String::new();
    let mut i: usize = 0;
    proof {
        assert(s@.take(0) =~= Seq::<char>::empty());
    }
    while i < n
        invariant
            n == s@.len(),
            i <= n,
            out@ == replace_sep(s@.take(i as int), sep@),
        decreases n - i,
    {
        proof {
            lemma_replace_sep_take(s@, sep@, i as int);
        }
        if s.get_char(i) == '/' {
            out.append(sep);
        } else {
            let piece = s.substring_char(i, i + 1);
            proof {
                assert(piece@ =~= seq![s@[i as int]]);
            }
            out.append(piece);
        }
        i = i + 1;
    }
    proof {
        assert(s@.take(n as int) =~= s@);
    }
    out
}

/// Computes the module identifier of the file at `path`.
pub fn module_id(lang: &Language, path: &str) -> (r: String)
    ensures
        r@ == module_id_of(*lang, path@),
{
    match lang {
        Language::Rust | Language::JavaScript | Language::TypeScript => {
            let stripped = strip_ext_exec(path);
            replace_sep_exec(stripped.as_str(), "::")
        },
        Language::Python => {
            let stripped = strip_ext_exec(path);
            replace_sep_exec(stripped.as_str(), ".")
        },
        Language::Go | Language::Unknown => String::from_str(path),
    }
}

/// Removes the leading `./` and `../` segments of a relative import path.
fn strip_rel_exec(p: &str) -> (r: String)
    ensures
        r@ == strip_rel(p@),
{
    let n = p.unicode_len();
    let mut i: usize = 0;
    proof {
        assert(p@.skip(0) =~= p@);
    }
    while i < n
        invariant
            n == p@.len(),
            i <= n,
            strip_rel(p@) == strip_rel(p@.skip(i as int)),
        decreases n - i,
    {
        let ghost rest = p@.skip(i as int);
        proof {
            reveal_strlit("./");
            reveal_strlit("../");
        }
        if i + 1 < n && p.get_char(i) == '.' && p.get_char(i + 1) == '/' {
            proof {
                assert(rest.subrange(0, 2) =~= "./"@);
                assert(is_prefix_of("./"@, rest));
                assert(rest.skip(2) =~= p@.skip(i as int + 2));
            }
            i = i + 2;
        } else if n >= 3 && i < n - 2 && p.get_char(i) == '.' && p.get_char(i + 1) == '.'
            && p.get_char(i + 2) == '/' {
            proof {
                assert(rest.subrange(0, 3) =~= "../"@);
                assert(is_prefix_of("../"@, rest));
                assert(rest[1] == p@[i as int + 1]);
                if is_prefix_of("./"@, rest) {
                    assert(rest.subrange(0, 2)[1] == rest[1]);
                    assert(false);
                }
                assert(rest.skip(3) =~= p@.skip(i as int + 3));
            }
            i = i + 3;
        } else {
            proof {
                if is_prefix_of("./"@, rest) {
                    assert(rest.subrange(0, 2)[0] == rest[0]);
                    assert(rest.subrange(0, 2)[1] == rest[1]);
                    assert(rest[0] == '.' && rest[1] == '/');
                    assert(p@[i as int] == rest[0]);
                    assert(p@[i as int + 1] == rest[1]);
                    assert(false);
                }
                if is_prefix_of("../"@, rest) {
                    assert(rest.subrange(0, 3)[0] == rest[0]);
                    assert(rest.subrange(0, 3)[1] == rest[1]);
                    assert(rest.subrange(0, 3)[2] == rest[2]);
                    assert(rest[0] == '.' && rest[1] == '.' && rest[2] == '/');
                    assert(p@[i as int] == rest[0]);
                    assert(p@[i as int + 1] == rest[1]);
                    assert(p@[i as int + 2] == rest[2]);
                    assert(false);
                }
                assert(strip_rel(rest) == rest);
            }
            return String::from_str(p.substring_char(i, n));
        }
    }
    proof {
        assert(p@.skip(i as int) =~= Seq::<char>::empty());
        assert(strip_rel(p@.skip(i as int)) == p@.skip(i as int));
    }
    String::new()
}

/// Removes the leading dots of a relative Python import.
fn strip_dots_exec(p: &str) -> (r: String)
    ensures
        r@ == strip_dots(p@),
{
    let n = p.unicode_len();
    let mut i: usize = 0;
    proof {
        assert(p@.skip(0) =~= p@);
    }
    while i < n && p.get_char(i) == '.'
        invariant
            n == p@.len(),
            i <= n,
            strip_dots(p@) == strip_dots(p@.skip(i as int)),
        decreases n - i,
    {
        proof {
            assert(p@.skip(i as int).drop_first() =~= p@.skip(i as int + 1));
        }
        i = i + 1;
    }
    proof {
        if i < n {
            assert(strip_dots(p@.skip(i as int)) == p@.skip(i as int));
        } else {
            assert(p@.skip(i as int) =~= Seq::<char>::empty());
        }
    }
    String::from_str(p.substring_char(i, n))
}

/// The imports and exports of one analyzed file, as the graph builder
/// consumes them.
pub struct ModuleImports {
    pub path: String,
    pub language: Language,
    pub imports: Vec<ImportInfo>,
    pub exports: Vec<ExportInfo>,
}

/// The module ids of the analyzed files, in input order.
pub open spec fn node_ids(files: Seq<ModuleImports>) -> Seq<Seq<char>> {
    Seq::new(files.len(), |i: int| module_id_of(files[i].language, files[i].path@))
}

/// Whether some file of `prefix` normalizes to the same module id as `f`.
pub open spec fn seen_in(prefix: Seq<ModuleImports>, f: ModuleImports) -> bool {
    exists|j: int|
        0 <= j < prefix.len() && module_id_of(
            (#[trigger] prefix[j]).language,
            prefix[j].path@,
        ) == module_id_of(f.language, f.path@)
}

/// The files that introduce a new module id, in input order: a later file
/// that normalizes to an id already taken is dropped, so node ids stay
/// unique.
pub open spec fn kept_files(files: Seq<ModuleImports>) -> Seq<ModuleImports>
    decreases files.len(),
{
    if files.len() == 0 {
        Seq::empty()
    } else {
        kept_files(files.drop_last()) + (if seen_in(files.drop_last(), files.last()) {
            Seq::<ModuleImports>::empty()
        } else {
            seq![files.last()]
        })
    }
}

/// Every kept file is one of the input files.
pub proof fn lemma_kept_member(files: Seq<ModuleImports>, p: int)
    requires
        0 <= p < kept_files(files).len(),
    ensures
        exists|j: int| 0 <= j < files.len() && #[trigger] files[j] == kept_files(files)[p],
    decreases files.len(),
{
    if files.len() > 0 {
        let prefix = kept_files(files.drop_last());
        if p < prefix.len() {
            lemma_kept_member(files.drop_last(), p);
            let j = choose|j: int|
                0 <= j < files.drop_last().len() && #[trigger] files.drop_last()[j] == prefix[p];
            assert(files[j] == kept_files(files)[p]);
        } else {
            assert(kept_files(files)[p] == files.last());
            assert(files[files.len() - 1] == kept_files(files)[p]);
        }
    }
}

/// The kept files carry pairwise distinct module ids.
pub proof fn lemma_kept_unique(files: Seq<ModuleImports>, p: int, q: int)
    requires
        0 <= p < q < kept_files(files).len(),
    ensures
        module_id_of(kept_files(files)[p].language, kept_files(files)[p].path@) != module_id_of(
            kept_files(files)[q].language,
            kept_files(files)[q].path@,
        ),
    decreases files.len(),
{
    if files.len() > 0 {
        let prefix = kept_files(files.drop_last());
        if q < prefix.len() {
            lemma_kept_unique(files.drop_last(), p, q);
        } else {
            assert(!seen_in(files.drop_last(), files.last()));
            assert(kept_files(files)[q] == files.last());
            lemma_kept_member(files.drop_last(), p);
            let j = choose|j: int|
                0 <= j < files.drop_last().len() && #[trigger] files.drop_last()[j] == prefix[p];
            if module_id_of(prefix[p].language, prefix[p].path@) == module_id_of(
                files.last().language,
                files.last().path@,
            ) {
                assert(seen_in(files.drop_last(), files.last()));
            }
        }
    }
}

/// Every input file's module id survives among the kept files.
pub proof fn lemma_kept_has_id(files: Seq<ModuleImports>, j: int)
    requires
        0 <= j < files.len(),
    ensures
        exists|p: int|
            0 <= p < kept_files(files).len() && module_id_of(
                (#[trigger] kept_files(files)[p]).language,
                kept_files(files)[p].path@,
            ) == module_id_of(files[j].language, files[j].path@),
    decreases files.len(),
{
    let prefix = kept_files(files.drop_last());
    if j == files.len() - 1 {
        if seen_in(files.drop_last(), files.last()) {
            let jj = choose|jj: int|
                0 <= jj < files.drop_last().len() && module_id_of(
                    (#[trigger] files.drop_last()[jj]).language,
                    files.drop_last()[jj].path@,
                ) == module_id_of(files.last().language, files.last().path@);
            lemma_kept_has_id(files.drop_last(), jj);
            let p = choose|p: int|
                0 <= p < prefix.len() && module_id_of(
                    (#[trigger] prefix[p]).language,
                    prefix[p].path@,
                ) == module_id_of(files.drop_last()[jj].language, files.drop_last()[jj].path@);
            assert(kept_files(files)[p] == prefix[p]);
        } else {
            let p = kept_files(files).len() - 1;
            assert(kept_files(files)[p] == files.last());
        }
    } else {
        assert(files.drop_last()[j] == files[j]);
        lemma_kept_has_id(files.drop_last(), j);
        let p = choose|p: int|
            0 <= p < prefix.len() && module_id_of(
                (#[trigger] prefix[p]).language,
                prefix[p].path@,
            ) == module_id_of(files.drop_last()[j].language, files.drop_last()[j].path@);
        assert(kept_files(files)[p] == prefix[p]);
    }
}

proof fn lemma_kept_take(files: Seq<ModuleImports>, i: int)
    requires
        0 <= i < files.len(),
    ensures
        kept_files(files.take(i + 1)) == kept_files(files.take(i)) + (if seen_in(
            files.take(i),
            files[i],
        ) {
            Seq::<ModuleImports>::empty()
        } else {
            seq![files[i]]
        }),
{
    assert(files.take(i + 1).drop_last() =~= files.take(i));
    assert(files.take(i + 1).last() == files[i]);
}

/// The import kind of one import record: default, named, or namespace.
pub open spec fn import_kind_of(info: ImportInfo) -> ImportType {
    if info.is_default {
        ImportType::Default
    } else if info.imported_names@.len() > 0 {
        ImportType::Named
    } else {
        ImportType::Namespace
    }
}

/// One edge, as ghost data: source id, target id, kind, symbols.
pub open spec fn edge_tuple(info: ImportInfo, lang: Language, from_id: Seq<char>) -> (
    Seq<char>,
    Seq<char>,
    ImportType,
    Seq<Seq<char>>,
) {
    (from_id, resolve_internal(lang, info.module@), import_kind_of(info), info.imported_names.deep_view())
}

/// Whether one import yields an edge: it is internal and its resolved
/// target is a known module id.
pub open spec fn import_resolves(info: ImportInfo, lang: Language, ids: Seq<Seq<char>>) -> bool {
    !is_external_path(lang, info.module@) && ids.contains(resolve_internal(lang, info.module@))
}

/// The edges one file's imports yield, in source order.
pub open spec fn edges_for_imports(
    lang: Language,
    from_id: Seq<char>,
    imports: Seq<ImportInfo>,
    ids: Seq<Seq<char>>,
) -> Seq<(Seq<char>, Seq<char>, ImportType, Seq<Seq<char>>)>
    decreases imports.len(),
{
    if imports.len() == 0 {
        Seq::empty()
    } else {
        edges_for_imports(lang, from_id, imports.drop_last(), ids) + (if import_resolves(
            imports.last(),
            lang,
            ids,
        ) {
            seq![edge_tuple(imports.last(), lang, from_id)]
        } else {
            Seq::empty()
        })
    }
}

/// The edges of the whole project, file by file.
pub open spec fn edges_of_files(files: Seq<ModuleImports>, ids: Seq<Seq<char>>) -> Seq<
    (Seq<char>, Seq<char>, ImportType, Seq<Seq<char>>),
>
    decreases files.len(),
{
    if files.len() == 0 {
        Seq::empty()
    } else {
        edges_of_files(files.drop_last(), ids) + edges_for_imports(
            files.last().language,
            module_id_of(files.last().language, files.last().path@),
            files.last().imports@,
            ids,
        )
    }
}

/// What an edge value says about its ghost tuple.
pub open spec fn edge_matches(
    e: DependencyEdge,
    t: (Seq<char>, Seq<char>, ImportType, Seq<Seq<char>>),
) -> bool {
    &&& e.from@ == t.0
    &&& e.to@ == t.1
    &&& e.import_type == t.2
    &&& e.imported_symbols.deep_view() == t.3
}

/// Whether `es` holds exactly the edges of `ts`, in order.
pub open spec fn edges_match(
    es: Seq<DependencyEdge>,
    ts: Seq<(Seq<char>, Seq<char>, ImportType, Seq<Seq<char>>)>,
) -> bool {
    &&& es.len() == ts.len()
    &&& forall|i: int| 0 <= i < ts.len() ==> edge_matches(#[trigger] es[i], ts[i])
}

/// What the nodes of a built graph say about the analyzed files.
pub open spec fn nodes_match(files: Seq<ModuleImports>, nodes: Seq<DependencyNode>) -> bool {
    &&& nodes.len() == files.len()
    &&& forall|i: int|
        0 <= i < files.len() ==> {
            &&& (#[trigger] nodes[i]).id@ == module_id_of(files[i].language, files[i].path@)
            &&& nodes[i].file_path@ == files[i].path@
            &&& nodes[i].module_name@ == nodes[i].id@
            &&& nodes[i].exports.deep_view() == Seq::new(
                files[i].exports@.len(),
                |j: int| files[i].exports@[j].name@,
            )
        }
}

/// Copies a vector of strings.
fn clone_strings(v: &Vec<String>) -> (r: Vec<String>)
    ensures
        r.deep_view() == v.deep_view(),
{
    let mut r: Vec<String> = Vec::new();
    let mut i: usize = 0;
    while i < v.len()
        invariant
            i <= v@.len(),
            r@.len() == i,
            forall|j: int| 0 <= j < i ==> r.deep_view()[j] == v.deep_view()[j],
        decreases v@.len() - i,
    {
        r.push(v[i].clone());
        i = i + 1;
    }
    proof {
        assert(r.deep_view() =~~= v.deep_view());
    }
    r
}

/// Whether any of `ids` equals `x`.
pub(crate) fn ids_contain(ids: &Vec<String>, x: &str) -> (r: bool)
    ensures
        r == ids.deep_view().contains(x@),
{
    let mut i: usize = 0;
    while i < ids.len()
        invariant
            i <= ids@.len(),
            forall|j: int| 0 <= j < i ==> ids.deep_view()[j] != x@,
        decreases ids@.len() - i,
    {
        if crate::text::str_eq(ids[i].as_str(), x) {
            assert(ids.deep_view()[i as int] == x@);
            return true;
        }
        assert(ids.deep_view()[i as int] == ids@[i as int]@);
        i = i + 1;
    }
    assert(forall|j: int| 0 <= j < ids.deep_view().len() ==> ids.deep_view()[j] != x@);
    false
}

proof fn lemma_edges_for_imports_take(
    lang: Language,
    from_id: Seq<char>,
    imports: Seq<ImportInfo>,
    ids: Seq<Seq<char>>,
    i: int,
)
    requires
        0 <= i < imports.len(),
    ensures
        edges_for_imports(lang, from_id, imports.take(i + 1), ids) == edges_for_imports(
            lang,
            from_id,
            imports.take(i),
            ids,
        ) + (if import_resolves(imports[i], lang, ids) {
            seq![edge_tuple(imports[i], lang, from_id)]
        } else {
            Seq::empty()
        }),
{
    assert(imports.take(i + 1).drop_last() =~= imports.take(i));
    assert(imports.take(i + 1).last() == imports[i]);
}

proof fn lemma_edges_of_files_take(files: Seq<ModuleImports>, ids: Seq<Seq<char>>, i: int)
    requires
        0 <= i < files.len(),
    ensures
        edges_of_files(files.take(i + 1), ids) == edges_of_files(files.take(i), ids)
            + edges_for_imports(
            files[i].language,
            module_id_of(files[i].language, files[i].path@),
            files[i].imports@,
            ids,
        ),
{
    assert(files.take(i + 1).drop_last() =~= files.take(i));
    assert(files.take(i + 1).last() == files[i]);
}

/// Builds the dependency graph: one node per module id — the first file
/// that normalizes to an id supplies its node, later files with the same
/// id add none, so node ids are unique — and one edge per internal import
/// whose resolved target is a known module id, in input order. Unresolved
/// internal imports and external imports yield no edge.
pub fn build_graph(files: &Vec<ModuleImports>) -> (g: DependencyGraph)
    ensures
        nodes_match(kept_files(files@), g.nodes@),
        forall|p: int, q: int|
            0 <= p < q < g.nodes@.len() ==> (#[trigger] g.nodes@[p]).id@ != (
            #[trigger] g.nodes@[q]).id@,
        edges_match(g.edges@, edges_of_files(files@, node_ids(files@))),
{
    let mut nodes: Vec<DependencyNode> = Vec::new();
    let mut ids: Vec<String> = Vec::new();
    let mut i: usize = 0;
    proof {
        assert(files@.take(0) =~= Seq::<ModuleImports>::empty());
    }
    while i < files.len()
        invariant
            i <= files@.len(),
            ids@.len() == i,
            forall|j: int| 0 <= j < i ==> ids.deep_view()[j] == node_ids(files@)[j],
            nodes_match(kept_files(files@.take(i as int)), nodes@),
        decreases files@.len() - i,
    {
        let f = &files[i];
        let ghost kept = kept_files(files@.take(i as int));
        let id = module_id(&f.language, f.path.as_str());
        let duplicate = ids_contain(&ids, id.as_str());
        proof {
            lemma_kept_take(files@, i as int);
            // The id scan decides exactly whether this module id was seen.
            if duplicate {
                let j = choose|j: int|
                    0 <= j < ids.deep_view().len() && ids.deep_view()[j] == id@;
                assert(node_ids(files@)[j] == module_id_of(files@[j].language, files@[j].path@));
                assert(files@.take(i as int)[j] == files@[j]);
                assert(seen_in(files@.take(i as int), files@[i as int]));
            } else {
                if seen_in(files@.take(i as int), files@[i as int]) {
                    let j = choose|j: int|
                        0 <= j < files@.take(i as int).len() && module_id_of(
                            (#[trigger] files@.take(i as int)[j]).language,
                            files@.take(i as int)[j].path@,
                        ) == module_id_of(files@[i as int].language, files@[i as int].path@);
                    assert(ids.deep_view()[j] == node_ids(files@)[j]);
                    assert(ids.deep_view().contains(id@));
                    assert(false);
                }
            }
        }
        if !duplicate {
            let mut exports: Vec<String> = Vec::new();
            let mut j: usize = 0;
            while j < f.exports.len()
                invariant
                    j <= f.exports@.len(),
                    exports@.len() == j,
                    forall|k: int| 0 <= k < j ==> exports.deep_view()[k] == f.exports@[k].name@,
                decreases f.exports@.len() - j,
            {
                let ghost pre = exports@;
                let ghost predeep = exports.deep_view();
                exports.push(f.exports[j].name.clone());
                proof {
                    assert forall|k: int| 0 <= k < j + 1 implies exports.deep_view()[k]
                        == f.exports@[k].name@ by {
                        assert(exports@.len() == j + 1);
                        assert(exports.deep_view()[k] == exports@[k]@);
                        if k < j {
                            assert(exports@[k] == pre[k]);
                            assert(predeep[k] == pre[k]@);
                            assert(predeep[k] == f.exports@[k].name@);
                        } else {
                            assert(exports@[k] == f.exports@[k].name);
                        }
                    }
                }
                j = j + 1;
            }
            let node = DependencyNode {
                id: id.clone(),
                file_path: f.path.clone(),
                module_name: id.clone(),
                exports,
            };
            let ghost pre_nodes = nodes@;
            nodes.push(node);
            proof {
                let kept1 = kept_files(files@.take(i as int + 1));
                assert(kept1 =~= kept + seq![files@[i as int]]);
                assert(f.exports@.take(f.exports@.len() as int) =~= f.exports@);
                assert(nodes@[kept.len() as int].exports.deep_view() =~~= Seq::new(
                    files@[i as int].exports@.len(),
                    |k: int| files@[i as int].exports@[k].name@,
                ));
                assert forall|j: int| 0 <= j < kept1.len() implies {
                    &&& (#[trigger] nodes@[j]).id@ == module_id_of(
                        kept1[j].language,
                        kept1[j].path@,
                    )
                    &&& nodes@[j].file_path@ == kept1[j].path@
                    &&& nodes@[j].module_name@ == nodes@[j].id@
                    &&& nodes@[j].exports.deep_view() == Seq::new(
                        kept1[j].exports@.len(),
                        |k: int| kept1[j].exports@[k].name@,
                    )
                } by {
                    if j < kept.len() {
                        assert(nodes@[j] == pre_nodes[j]);
                        assert(nodes_match(kept, pre_nodes));
                        assert(kept1[j] == kept[j]);
                    } else {
                        assert(kept1[j] == files@[i as int]);
                    }
                }
                assert(nodes_match(kept1, nodes@));
            }
        } else {
            proof {
                assert(kept_files(files@.take(i as int + 1)) =~= kept);
            }
        }
        let ghost pre_ids = ids@;
        let ghost pre_ids_deep = ids.deep_view();
        ids.push(id);
        proof {
            assert forall|j: int| 0 <= j < i + 1 implies ids.deep_view()[j] == node_ids(files@)[j]
                by {
                assert(ids@.len() == i + 1);
                assert(ids.deep_view()[j] == ids@[j]@);
                if j < i {
                    assert(ids@[j] == pre_ids[j]);
                    assert(pre_ids_deep[j] == pre_ids[j]@);
                    assert(pre_ids_deep[j] == node_ids(files@)[j]);
                }
            }
        }
        i = i + 1;
    }
    proof {
        assert(files@.take(files@.len() as int) =~= files@);
        assert(ids.deep_view() =~~= node_ids(files@));
        // Unique ids: the kept files have pairwise distinct module ids.
        assert forall|p: int, q: int| 0 <= p < q < nodes@.len() implies (#[trigger] nodes@[p]).id@
            != (#[trigger] nodes@[q]).id@ by {
            lemma_kept_unique(files@, p, q);
        }
    }
    let ghost gids = node_ids(files@);
    let mut edges: Vec<DependencyEdge> = Vec::new();
    let mut i: usize = 0;
    proof {
        assert(edges_match(edges@, edges_of_files(files@.take(0), gids)));
    }
    while i < files.len()
        invariant
            i <= files@.len(),
            gids == node_ids(files@),
            ids.deep_view() == gids,
            edges_match(edges@, edges_of_files(files@.take(i as int), gids)),
        decreases files@.len() - i,
    {
        let f = &files[i];
        let from_id = module_id(&f.language, f.path.as_str());
        let ghost fid = module_id_of(f.language, f.path@);
        let ghost base = edges_of_files(files@.take(i as int), gids);
        let mut j: usize = 0;
        proof {
            assert(f.imports@.take(0) =~= Seq::<ImportInfo>::empty());
        }
        while j < f.imports.len()
            invariant
                j <= f.imports@.len(),
                gids == node_ids(files@),
                ids.deep_view() == gids,
                *f == files@[i as int],
                0 <= i < files@.len(),
                from_id@ == fid,
                fid == module_id_of(f.language, f.path@),
                base == edges_of_files(files@.take(i as int), gids),
                edges_match(edges@, base + edges_for_imports(
                    f.language,
                    fid,
                    f.imports@.take(j as int),
                    gids,
                )),
            decreases f.imports@.len() - j,
        {
            let info = &f.imports[j];
            let external = DependencyAnalyzer { root_path: String::new() }.is_external_dependency(
                info.module.as_str(),
                &f.language,
            );
            proof {
                lemma_edges_for_imports_take(f.language, fid, f.imports@, gids, j as int);
            }
            if !external {
                let target = resolve_import(&f.language, info.module.as_str());
                if ids_contain(&ids, target.as_str()) {
                    let kind = if info.is_default {
                        ImportType::Default
                    } else if info.imported_names.len() > 0 {
                        ImportType::Named
                    } else {
                        ImportType::Namespace
                    };
                    let e = DependencyEdge {
                        from: from_id.clone(),
                        to: target,
                        import_type: kind,
                        imported_symbols: clone_strings(&info.imported_names),
                    };
                    let ghost pre = edges@;
                    edges.push(e);
                    proof {
                        assert(import_resolves(f.imports@[j as int], f.language, gids));
                        assert(edge_matches(
                            edges@[pre.len() as int],
                            edge_tuple(f.imports@[j as int], f.language, fid),
                        ));
                    }
                } else {
                    proof {
                        assert(!import_resolves(f.imports@[j as int], f.language, gids));
                    }
                }
            } else {
                proof {
                    assert(!import_resolves(f.imports@[j as int], f.language, gids));
                }
            }
            j = j + 1;
        }
        proof {
            assert(f.imports@.take(f.imports@.len() as int) =~= f.imports@);
            lemma_edges_of_files_take(files@, gids, i as int);
        }
        i = i + 1;
    }
    proof {
        assert(files@.take(files@.len() as int) =~= files@);
    }
    DependencyGraph { nodes, edges }
}


/// The raw paths of the external imports among `imports`, in source order.
pub open spec fn ext_paths_of(lang: Language, imports: Seq<ImportInfo>) -> Seq<Seq<char>>
    decreases imports.len(),
{
    if imports.len() == 0 {
        Seq::empty()
    } else {
        ext_paths_of(lang, imports.drop_last()) + (if is_external_path(
            lang,
            imports.last().module@,
        ) {
            seq![imports.last().module@]
        } else {
            Seq::<Seq<char>>::empty()
        })
    }
}

/// The external import paths of the whole project, file by file.
pub open spec fn ext_paths(files: Seq<ModuleImports>) -> Seq<Seq<char>>
    decreases files.len(),
{
    if files.len() == 0 {
        Seq::empty()
    } else {
        ext_paths(files.drop_last()) + ext_paths_of(files.last().language, files.last().imports@)
    }
}

/// The index of key `k` in the tally `t`, or `-1` when absent.
pub open spec fn ext_key_index(t: Seq<(Seq<char>, nat)>, k: Seq<char>) -> int
    decreases t.len(),
{
    if t.len() == 0 {
        -1
    } else if t[0].0 == k {
        0
    } else {
        let r = ext_key_index(t.drop_first(), k);
        if r == -1 {
            -1
        } else {
            r + 1
        }
    }
}

proof fn lemma_ext_key_index_range(t: Seq<(Seq<char>, nat)>, k: Seq<char>)
    ensures
        -1 <= ext_key_index(t, k) < t.len(),
        ext_key_index(t, k) != -1 ==> t[ext_key_index(t, k)].0 == k,
    decreases t.len(),
{
    if t.len() > 0 && t[0].0 != k {
        lemma_ext_key_index_range(t.drop_first(), k);
    }
}

proof fn lemma_ext_key_index_found(t: Seq<(Seq<char>, nat)>, k: Seq<char>, i: int)
    requires
        0 <= i < t.len(),
        t[i].0 == k,
        forall|j: int| 0 <= j < i ==> (#[trigger] t[j]).0 != k,
    ensures
        ext_key_index(t, k) == i,
    decreases i,
{
    if i > 0 {
        assert forall|j: int| 0 <= j < i - 1 implies (#[trigger] t.drop_first()[j]).0 != k by {
            assert(t.drop_first()[j] == t[j + 1]);
        }
        assert(t.drop_first()[i - 1] == t[i]);
        lemma_ext_key_index_found(t.drop_first(), k, i - 1);
    }
}

proof fn lemma_ext_key_index_none(t: Seq<(Seq<char>, nat)>, k: Seq<char>)
    requires
        forall|j: int| 0 <= j < t.len() ==> (#[trigger] t[j]).0 != k,
    ensures
        ext_key_index(t, k) == -1,
    decreases t.len(),
{
    if t.len() > 0 {
        lemma_ext_key_index_none(t.drop_first(), k);
    }
}

/// The tally `t` with one more use of the dependency named `k`.
pub open spec fn ext_bump(t: Seq<(Seq<char>, nat)>, k: Seq<char>) -> Seq<(Seq<char>, nat)> {
    let i = ext_key_index(t, k);
    if i == -1 {
        t.push((k, 1nat))
    } else {
        t.update(i, (k, (t[i].1 + 1) as nat))
    }
}

/// The usage tally of a list of external import paths: each name with how
/// often it is imported, keyed in order of first appearance.
pub open spec fn ext_tally(s: Seq<Seq<char>>) -> Seq<(Seq<char>, nat)>
    decreases s.len(),
{
    if s.len() == 0 {
        Seq::empty()
    } else {
        ext_bump(ext_tally(s.drop_last()), s.last())
    }
}

/// What the stored tally says about the ghost tally: same names in the
/// same order, counts clamped to `u64`.
pub open spec fn ext_tally_matches(e: Seq<(String, u64)>, t: Seq<(Seq<char>, nat)>) -> bool {
    &&& e.len() == t.len()
    &&& forall|i: int|
        0 <= i < t.len() ==> (#[trigger] e[i]).0@ == t[i].0 && e[i].1
            == crate::metrics::sat64(t[i].1)
}

proof fn lemma_ext_tally_take(s: Seq<Seq<char>>, i: int)
    requires
        0 <= i < s.len(),
    ensures
        ext_tally(s.take(i + 1)) == ext_bump(ext_tally(s.take(i)), s[i]),
{
    assert(s.take(i + 1).drop_last() =~= s.take(i));
    assert(s.take(i + 1).last() == s[i]);
}

proof fn lemma_ext_paths_of_take(lang: Language, imports: Seq<ImportInfo>, i: int)
    requires
        0 <= i < imports.len(),
    ensures
        ext_paths_of(lang, imports.take(i + 1)) == ext_paths_of(lang, imports.take(i)) + (
        if is_external_path(lang, imports[i].module@) {
            seq![imports[i].module@]
        } else {
            Seq::<Seq<char>>::empty()
        }),
{
    assert(imports.take(i + 1).drop_last() =~= imports.take(i));
    assert(imports.take(i + 1).last() == imports[i]);
}

proof fn lemma_ext_paths_take(files: Seq<ModuleImports>, i: int)
    requires
        0 <= i < files.len(),
    ensures
        ext_paths(files.take(i + 1)) == ext_paths(files.take(i)) + ext_paths_of(
            files[i].language,
            files[i].imports@,
        ),
{
    assert(files.take(i + 1).drop_last() =~= files.take(i));
    assert(files.take(i + 1).last() == files[i]);
}

/// Tallies how often each external dependency is imported across the
/// project: one entry per name, keyed in order of first appearance.
pub fn external_dependencies(files: &Vec<ModuleImports>) -> (r: Vec<(String, u64)>)
    ensures
        ext_tally_matches(r@, ext_tally(ext_paths(files@))),
{
    // Collect the external import paths, in order.
    let mut paths: Vec<String> = Vec::new();
    let mut i: usize = 0;
    proof {
        assert(files@.take(0) =~= Seq::<ModuleImports>::empty());
        assert(paths.deep_view() =~~= ext_paths(files@.take(0)));
    }
    while i < files.len()
        invariant
            i <= files@.len(),
            paths.deep_view() =~~= ext_paths(files@.take(i as int)),
        decreases files@.len() - i,
    {
        let f = &files[i];
        let ghost base = paths.deep_view();
        let mut j: usize = 0;
        proof {
            assert(f.imports@.take(0) =~= Seq::<ImportInfo>::empty());
            assert(paths.deep_view() =~~= base + ext_paths_of(f.language, f.imports@.take(0)));
        }
        while j < f.imports.len()
            invariant
                0 <= i < files@.len(),
                *f == files@[i as int],
                j <= f.imports@.len(),
                paths.deep_view() =~~= base + ext_paths_of(f.language, f.imports@.take(j as int)),
            decreases f.imports@.len() - j,
        {
            proof {
                lemma_ext_paths_of_take(f.language, f.imports@, j as int);
            }
            let info = &f.imports[j];
            let external = DependencyAnalyzer { root_path: String::new() }.is_external_dependency(
                info.module.as_str(),
                &f.language,
            );
            if external {
                let ghost pre = paths.deep_view();
                paths.push(info.module.clone());
                proof {
                    assert(paths.deep_view() =~~= pre + seq![f.imports@[j as int].module@]);
                }
            }
            j = j + 1;
        }
        proof {
            assert(f.imports@.take(f.imports@.len() as int) =~= f.imports@);
            lemma_ext_paths_take(files@, i as int);
        }
        i = i + 1;
    }
    proof {
        assert(files@.take(files@.len() as int) =~= files@);
    }
    // Tally them, name by name.
    let mut r: Vec<(String, u64)> = Vec::new();
    let ghost ps = paths.deep_view();
    let mut k: usize = 0;
    proof {
        assert(ps.take(0) =~= Seq::<Seq<char>>::empty());
    }
    while k < paths.len()
        invariant
            k <= paths@.len(),
            ps == paths.deep_view(),
            ext_tally_matches(r@, ext_tally(ps.take(k as int))),
        decreases paths@.len() - k,
    {
        let key = &paths[k];
        let ghost t = ext_tally(ps.take(k as int));
        proof {
            lemma_ext_tally_take(ps, k as int);
            assert(ps[k as int] == paths@[k as int]@);
        }
        let mut pos: usize = 0;
        while pos < r.len() && !crate::text::str_eq(r[pos].0.as_str(), key.as_str())
            invariant
                pos <= r@.len(),
                ext_tally_matches(r@, t),
                forall|j: int| 0 <= j < pos ==> (#[trigger] r@[j]).0@ != key@,
            decreases r@.len() - pos,
        {
            pos = pos + 1;
        }
        proof {
            assert forall|j: int| 0 <= j < pos implies (#[trigger] t[j]).0 != key@ by {
                assert(r@[j].0@ == t[j].0);
            }
        }
        if pos < r.len() {
            let c = r[pos].1;
            proof {
                assert(t[pos as int].0 == key@);
                lemma_ext_key_index_found(t, key@, pos as int);
                crate::metrics::lemma_sat_add(t[pos as int].1, 1);
            }
            let c1 = crate::metrics::sat_add64(c, 1);
            let name = r[pos].0.clone();
            r.set(pos, (name, c1));
            proof {
                assert(ext_tally_matches(r@, ext_bump(t, key@)));
            }
        } else {
            proof {
                assert(forall|j: int| 0 <= j < t.len() ==> (#[trigger] t[j]).0 != key@);
                lemma_ext_key_index_none(t, key@);
            }
            r.push((key.clone(), 1));
            proof {
                assert(ext_tally_matches(r@, ext_bump(t, key@)));
            }
        }
        k = k + 1;
    }
    proof {
        assert(ps.take(ps.len() as int) =~= ps);
    }
    r
}

/// Resolves an internal import path to the module id it points at.
pub fn resolve_import(lang: &Language, path: &str) -> (r: String)
    ensures
        r@ == resolve_internal(*lang, path@),
{
    match lang {
        Language::Rust => {
            let n = path.unicode_len();
            if str_starts_with(path, "crate::") {
                proof {
                    reveal_strlit("crate::");
                }
                String::from_str(path.substring_char(7, n))
            } else if str_starts_with(path, "super::") {
                proof {
                    reveal_strlit("super::");
                }
                String::from_str(path.substring_char(7, n))
            } else if str_starts_with(path, "self::") {
                proof {
                    reveal_strlit("self::");
                }
                String::from_str(path.substring_char(6, n))
            } else {
                String::from_str(path)
            }
        },
        Language::JavaScript | Language::TypeScript => {
            let stripped = strip_rel_exec(path);
            let stripped = strip_ext_exec(stripped.as_str());
            replace_sep_exec(stripped.as_str(), "::")
        },
        Language::Python => strip_dots_exec(path),
        Language::Go | Language::Unknown => String::from_str(path),
    }
}

} // verus!
