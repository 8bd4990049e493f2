//! The import/export extractor: finds import and export declarations in a
//! parsed tree and reads their literal path and symbol text. No resolution
//! happens here; paths are classified and resolved by the dependency graph
//! builder.

use vstd::prelude::*;
use vstd::string::StringExecFns;
use crate::adapter::{is_import_kind, is_name_kind};
use crate::lang::Language;
use crate::text::str_eq;
use crate::tree::ParseNode;

verus! {

/// One import declaration, as written in the source: the raw module path,
/// the imported symbol names (empty for a namespace or side-effect import),
/// whether it is a default import, and its 1-based source line.
pub struct ImportInfo {
    pub module: String,
    pub imported_names: Vec<String>,
    pub is_default: bool,
    pub line: u64,
}

/// One exported symbol: its name, whether it is a default export, and its
/// 1-based source line.
pub struct ExportInfo {
    pub name: String,
    pub is_default: bool,
    pub line: u64,
}

/// Everything the import/export extractor yields for one file.
pub struct ImportExportAnalysis {
    pub imports: Vec<ImportInfo>,
    pub exports: Vec<ExportInfo>,
}

/// `t` without a surrounding pair of quote characters.
pub open spec fn strip_quotes(t: Seq<char>) -> Seq<char> {
    if t.len() >= 2 {
        t.subrange(1, t.len() - 1)
    } else {
        t
    }
}

/// The first node of `s` whose kind is `k`.
pub open spec fn first_with_kind(s: Seq<ParseNode>, k: Seq<char>) -> Option<ParseNode>
    decreases s.len(),
{
    if s.len() == 0 {
        None
    } else if s[0].kind@ == k {
        Some(s[0])
    } else {
        first_with_kind(s.drop_first(), k)
    }
}

/// The text of the argument of a Rust `use` declaration: the first child
/// that is neither the `use` keyword nor the closing `;`.
pub open spec fn rust_use_arg(s: Seq<ParseNode>) -> Seq<char>
    decreases s.len(),
{
    if s.len() == 0 {
        Seq::<char>::empty()
    } else if s[0].kind@ != "use"@ && s[0].kind@ != ";"@ {
        s[0].text@
    } else {
        rust_use_arg(s.drop_first())
    }
}

/// The raw module path named by the import node `n`.
pub open spec fn import_path_of(lang: Language, n: ParseNode) -> Seq<char> {
    match lang {
        Language::Rust => rust_use_arg(n.children@),
        Language::JavaScript | Language::TypeScript => match first_with_kind(
            n.children@,
            "string"@,
        ) {
            Some(c) => strip_quotes(c.text@),
            None => Seq::<char>::empty(),
        },
        Language::Python => match first_with_kind(n.children@, "relative_import"@) {
            Some(c) => c.text@,
            None => match first_with_kind(n.children@, "dotted_name"@) {
                Some(c) => c.text@,
                None => Seq::<char>::empty(),
            },
        },
        Language::Go => match first_with_kind(n.children@, "interpreted_string_literal"@) {
            Some(c) => strip_quotes(c.text@),
            None => Seq::<char>::empty(),
        },
        Language::Unknown => Seq::<char>::empty(),
    }
}

/// The texts of every node of kind `k` in the tree rooted at `n`.
pub open spec fn kind_texts_tree(n: ParseNode, k: Seq<char>) -> Seq<Seq<char>>
    decreases n,
{
    (if n.kind@ == k {
        seq![n.text@]
    } else {
        Seq::<Seq<char>>::empty()
    }) + kind_texts_forest(n.children@, k)
}

/// The texts of every node of kind `k` in the trees of `s`.
pub open spec fn kind_texts_forest(s: Seq<ParseNode>, k: Seq<char>) -> Seq<Seq<char>>
    decreases s,
{
    if s.len() == 0 {
        Seq::<Seq<char>>::empty()
    } else {
        kind_texts_forest(s.drop_last(), k) + kind_texts_tree(s.last(), k)
    }
}

/// The texts of the `dotted_name` children of `s` after the first one: in a
/// `from M import a, b` statement these are the imported names.
pub open spec fn dotted_after_first(s: Seq<ParseNode>, seen: bool) -> Seq<Seq<char>>
    decreases s.len(),
{
    if s.len() == 0 {
        Seq::<Seq<char>>::empty()
    } else if s[0].kind@ == "dotted_name"@ {
        if seen {
            seq![s[0].text@] + dotted_after_first(s.drop_first(), true)
        } else {
            dotted_after_first(s.drop_first(), true)
        }
    } else {
        dotted_after_first(s.drop_first(), seen)
    }
}

/// The imported symbol names of the import node `n`.
pub open spec fn imported_names_of(lang: Language, n: ParseNode) -> Seq<Seq<char>> {
    match lang {
        Language::JavaScript | Language::TypeScript => kind_texts_forest(
            n.children@,
            "import_specifier"@,
        ),
        Language::Python => if n.kind@ == "import_from_statement"@ {
            dotted_after_first(n.children@, false)
        } else {
            Seq::<Seq<char>>::empty()
        },
        _ => Seq::<Seq<char>>::empty(),
    }
}

/// Whether the import node `n` is a default import: a JavaScript or
/// TypeScript import clause that starts with a bare identifier.
pub open spec fn import_is_default(lang: Language, n: ParseNode) -> bool {
    match lang {
        Language::JavaScript | Language::TypeScript => match first_with_kind(
            n.children@,
            "import_clause"@,
        ) {
            Some(c) => c.children@.len() > 0 && c.children@[0].kind@ == "identifier"@,
            None => false,
        },
        _ => false,
    }
}

/// What every field of an import record says about its node.
pub open spec fn import_matches(lang: Language, n: ParseNode, info: ImportInfo) -> bool {
    &&& info.module@ == import_path_of(lang, n)
    &&& info.imported_names.deep_view() == imported_names_of(lang, n)
    &&& info.is_default == import_is_default(lang, n)
    &&& info.line == n.start_line
}

/// The import nodes of the tree rooted at `n`, in source order.
pub open spec fn import_nodes_tree(lang: Language, n: ParseNode) -> Seq<ParseNode>
    decreases n,
{
    (if is_import_kind(lang, n.kind@) {
        seq![n]
    } else {
        Seq::<ParseNode>::empty()
    }) + import_nodes_forest(lang, n.children@)
}

/// The import nodes of the trees of `s`, left to right.
pub open spec fn import_nodes_forest(lang: Language, s: Seq<ParseNode>) -> Seq<ParseNode>
    decreases s,
{
    if s.len() == 0 {
        Seq::<ParseNode>::empty()
    } else {
        import_nodes_forest(lang, s.drop_last()) + import_nodes_tree(lang, s.last())
    }
}

/// Whether a node exports a symbol: a Rust item with a visibility modifier,
/// or a JavaScript/TypeScript export statement.
pub open spec fn is_export_node(lang: Language, n: ParseNode) -> bool {
    match lang {
        Language::Rust => first_with_kind(n.children@, "visibility_modifier"@) is Some,
        Language::JavaScript | Language::TypeScript => n.kind@ == "export_statement"@,
        _ => false,
    }
}

/// The name of the first naming node found anywhere below `n`, depth first.
pub open spec fn first_named_in_tree(n: ParseNode) -> Option<Seq<char>>
    decreases n,
{
    if is_name_kind(n.kind@) || n.kind@ == "type_identifier"@ {
        Some(n.text@)
    } else {
        first_named_in_forest(n.children@)
    }
}

/// The name of the first naming node found in the trees of `s`.
pub open spec fn first_named_in_forest(s: Seq<ParseNode>) -> Option<Seq<char>>
    decreases s,
{
    if s.len() == 0 {
        None
    } else {
        match first_named_in_tree(s.first()) {
            Some(t) => Some(t),
            None => first_named_in_forest(s.drop_first()),
        }
    }
}

/// The exported name of the export node `n`.
pub open spec fn export_name_of(n: ParseNode) -> Seq<char> {
    match first_named_in_forest(n.children@) {
        Some(t) => t,
        None => Seq::<char>::empty(),
    }
}

/// Whether the export node `n` is a default export.
pub open spec fn export_is_default(lang: Language, n: ParseNode) -> bool {
    match lang {
        Language::JavaScript | Language::TypeScript => first_with_kind(n.children@, "default"@)
            is Some,
        _ => false,
    }
}

/// What every field of an export record says about its node.
pub open spec fn export_matches(lang: Language, n: ParseNode, info: ExportInfo) -> bool {
    &&& info.name@ == export_name_of(n)
    &&& info.is_default == export_is_default(lang, n)
    &&& info.line == n.start_line
}

/// The export nodes of the tree rooted at `n`, in source order.
pub open spec fn export_nodes_tree(lang: Language, n: ParseNode) -> Seq<ParseNode>
    decreases n,
{
    (if is_export_node(lang, n) {
        seq![n]
    } else {
        Seq::<ParseNode>::empty()
    }) + export_nodes_forest(lang, n.children@)
}

/// The export nodes of the trees of `s`, left to right.
pub open spec fn export_nodes_forest(lang: Language, s: Seq<ParseNode>) -> Seq<ParseNode>
    decreases s,
{
    if s.len() == 0 {
        Seq::<ParseNode>::empty()
    } else {
        export_nodes_forest(lang, s.drop_last()) + export_nodes_tree(lang, s.last())
    }
}

/// Finds the first direct child of `n` whose kind is `k`.
fn find_child_with_kind<'a>(n: &'a ParseNode, k: &str) -> (r: Option<&'a ParseNode>)
    ensures
        match r {
            Some(c) => first_with_kind(n.children@, k@) == Some(*c),
            None => first_with_kind(n.children@, k@) is None,
        },
{
    let mut i: usize = 0;
    proof {
        assert(n.children@.skip(0) =~= n.children@);
    }
    while i < n.children.len()
        invariant
            i <= n.children@.len(),
            first_with_kind(n.children@, k@) == first_with_kind(n.children@.skip(i as int), k@),
        decreases n.children@.len() - i,
    {
        if str_eq(n.children[i].kind.as_str(), k) {
            return Some(&n.children[i]);
        }
        proof {
            assert(n.children@.skip(i as int).drop_first() =~= n.children@.skip(i as int + 1));
        }
        i = i + 1;
    }
    proof {
        assert(n.children@.skip(i as int) =~= Seq::<ParseNode>::empty());
    }
    None
}

/// Removes a surrounding pair of quotes from a node's text.
fn strip_quotes_exec(t: &str) -> (r: String)
    ensures
        r@ == strip_quotes(t@),
{
    let n = t.unicode_len();
    if n >= 2 {
        String::from_str(t.substring_char(1, n - 1))
    } else {
        String::from_str(t)
    }
}

/// Reads the raw module path of the import node `n`.
pub fn extract_import_path(lang: &Language, n: &ParseNode) -> (r: String)
    ensures
        r@ == import_path_of(*lang, *n),
{
    match lang {
        Language::Rust => {
            let mut i: usize = 0;
            proof {
                assert(n.children@.skip(0) =~= n.children@);
            }
            while i < n.children.len()
                invariant
                    *lang == Language::Rust,
                    i <= n.children@.len(),
                    rust_use_arg(n.children@) == rust_use_arg(n.children@.skip(i as int)),
                decreases n.children@.len() - i,
            {
                if !str_eq(n.children[i].kind.as_str(), "use") && !str_eq(
                    n.children[i].kind.as_str(),
                    ";",
                ) {
                    return n.children[i].text.clone();
                }
                proof {
                    assert(n.children@.skip(i as int).drop_first() =~= n.children@.skip(
                        i as int + 1,
                    ));
                }
                i = i + 1;
            }
            proof {
                assert(n.children@.skip(i as int) =~= Seq::<ParseNode>::empty());
            }
            String::new()
        },
        Language::JavaScript | Language::TypeScript => match find_child_with_kind(n, "string") {
            Some(c) => strip_quotes_exec(c.text.as_str()),
            None => String::new(),
        },
        Language::Python => match find_child_with_kind(n, "relative_import") {
            Some(c) => c.text.clone(),
            None => match find_child_with_kind(n, "dotted_name") {
                Some(c) => c.text.clone(),
                None => String::new(),
            },
        },
        Language::Go => match find_child_with_kind(n, "interpreted_string_literal") {
            Some(c) => strip_quotes_exec(c.text.as_str()),
            None => String::new(),
        },
        Language::Unknown => String::new(),
    }
}

proof fn lemma_kind_texts_forest_take(s: Seq<ParseNode>, k: Seq<char>, i: int)
    requires
        0 <= i < s.len(),
    ensures
        kind_texts_forest(s.take(i + 1), k) == kind_texts_forest(s.take(i), k) + kind_texts_tree(
            s[i],
            k,
        ),
{
    assert(s.take(i + 1).drop_last() =~= s.take(i));
    assert(s.take(i + 1).last() == s[i]);
}

/// Appends the texts of every node of kind `k` below `n` to `out`.
pub(crate) fn collect_kind_texts(n: &ParseNode, k: &str, out: &mut Vec<String>)
    ensures
        final(out).deep_view() == old(out).deep_view() + kind_texts_tree(*n, k@),
    decreases *n,
{
    let ghost head: Seq<Seq<char>> = if n.kind@ == k@ {
        seq![n.text@]
    } else {
        Seq::<Seq<char>>::empty()
    };
    if str_eq(n.kind.as_str(), k) {
        let ghost before = out.deep_view();
        out.push(n.text.clone());
        proof {
            assert(out.deep_view() =~~= before + head);
        }
    } else {
        proof {
            assert(out.deep_view() =~~= old(out).deep_view() + head);
        }
    }
    let ghost base = out.deep_view();
    let mut i: usize = 0;
    proof {
        assert(kind_texts_forest(n.children@.take(0), k@) =~~= Seq::<Seq<char>>::empty());
        assert(out.deep_view() =~~= base + kind_texts_forest(n.children@.take(0), k@));
    }
    while i < n.children.len()
        invariant
            i <= n.children@.len(),
            base == old(out).deep_view() + head,
            out.deep_view() =~~= base + kind_texts_forest(n.children@.take(i as int), k@),
        decreases n.children@.len() - i,
    {
        collect_kind_texts(&n.children[i], k, out);
        proof {
            lemma_kind_texts_forest_take(n.children@, k@, i as int);
            assert(out.deep_view() =~~= base + kind_texts_forest(
                n.children@.take(i as int + 1),
                k@,
            ));
        }
        i = i + 1;
    }
    proof {
        assert(n.children@.take(n.children@.len() as int) =~= n.children@);
        assert(out.deep_view() =~~= old(out).deep_view() + kind_texts_tree(*n, k@));
    }
}

/// Collects the `dotted_name` children of `n` after the first one.
fn collect_dotted_after_first(n: &ParseNode) -> (r: Vec<String>)
    ensures
        r.deep_view() == dotted_after_first(n.children@, false),
{
    let mut out: Vec<String> = Vec::new();
    let mut seen = false;
    let mut i: usize = 0;
    proof {
        assert(n.children@.skip(0) =~= n.children@);
        assert(out.deep_view() =~~= Seq::<Seq<char>>::empty());
    }
    while i < n.children.len()
        invariant
            i <= n.children@.len(),
            dotted_after_first(n.children@, false) =~~= out.deep_view() + dotted_after_first(
                n.children@.skip(i as int),
                seen,
            ),
        decreases n.children@.len() - i,
    {
        let ghost pre = out.deep_view();
        let ghost pre_seen = seen;
        if str_eq(n.children[i].kind.as_str(), "dotted_name") {
            if seen {
                out.push(n.children[i].text.clone());
            } else {
                seen = true;
            }
        }
        proof {
            assert(n.children@.skip(i as int).drop_first() =~= n.children@.skip(i as int + 1));
            assert(n.children@.skip(i as int)[0] == n.children@[i as int]);
            if n.children@[i as int].kind@ == "dotted_name"@ && pre_seen {
                assert(out.deep_view() =~~= pre + seq![n.children@[i as int].text@]);
            }
            assert(dotted_after_first(n.children@, false) =~~= out.deep_view()
                + dotted_after_first(n.children@.skip(i as int + 1), seen));
        }
        i = i + 1;
    }
    proof {
        assert(n.children@.skip(i as int) =~= Seq::<ParseNode>::empty());
        assert(out.deep_view() =~~= dotted_after_first(n.children@, false));
    }
    out
}

/// Reads the imported symbol names of the import node `n`.
pub fn extract_imported_names(lang: &Language, n: &ParseNode) -> (r: Vec<String>)
    ensures
        r.deep_view() == imported_names_of(*lang, *n),
{
    match lang {
        Language::JavaScript | Language::TypeScript => {
            let mut out: Vec<String> = Vec::new();
            let ghost k = "import_specifier"@;
            let ghost base = out.deep_view();
            let mut i: usize = 0;
            proof {
                assert(kind_texts_forest(n.children@.take(0), k) =~~= Seq::<Seq<char>>::empty());
                assert(out.deep_view() =~~= base + kind_texts_forest(n.children@.take(0), k));
            }
            while i < n.children.len()
                invariant
                    i <= n.children@.len(),
                    base == Seq::<Seq<char>>::empty(),
                    k == "import_specifier"@,
                    out.deep_view() =~~= base + kind_texts_forest(n.children@.take(i as int), k),
                decreases n.children@.len() - i,
            {
                collect_kind_texts(&n.children[i], "import_specifier", &mut out);
                proof {
                    lemma_kind_texts_forest_take(n.children@, k, i as int);
                }
                i = i + 1;
            }
            proof {
                assert(n.children@.take(n.children@.len() as int) =~= n.children@);
                assert(out.deep_view() =~~= kind_texts_forest(n.children@, k));
            }
            out
        },
        Language::Python => {
            if str_eq(n.kind.as_str(), "import_from_statement") {
                collect_dotted_after_first(n)
            } else {
                let out: Vec<String> = Vec::new();
                proof {
                    assert(out.deep_view() =~~= Seq::<Seq<char>>::empty());
                }
                out
            }
        },
        _ => {
            let out: Vec<String> = Vec::new();
            proof {
                assert(out.deep_view() =~~= Seq::<Seq<char>>::empty());
            }
            out
        },
    }
}

/// Decides whether the import node `n` is a default import.
pub fn import_default(lang: &Language, n: &ParseNode) -> (r: bool)
    ensures
        r == import_is_default(*lang, *n),
{
    match lang {
        Language::JavaScript | Language::TypeScript => match find_child_with_kind(
            n,
            "import_clause",
        ) {
            Some(c) => c.children.len() > 0 && str_eq(c.children[0].kind.as_str(), "identifier"),
            None => false,
        },
        _ => false,
    }
}

/// Builds the import record for the import node `n`.
pub fn make_import(lang: &Language, n: &ParseNode) -> (r: ImportInfo)
    ensures
        import_matches(*lang, *n, r),
{
    ImportInfo {
        module: extract_import_path(lang, n),
        imported_names: extract_imported_names(lang, n),
        is_default: import_default(lang, n),
        line: n.start_line,
    }
}

/// Finds the text of the first naming node below `n`, depth first.
fn find_named_tree(n: &ParseNode) -> (r: Option<String>)
    ensures
        match r {
            Some(s) => first_named_in_tree(*n) == Some(s@),
            None => first_named_in_tree(*n) is None,
        },
    decreases *n, 1int,
{
    if crate::adapter::name_kind_matches(n.kind.as_str()) || str_eq(
        n.kind.as_str(),
        "type_identifier",
    ) {
        return Some(n.text.clone());
    }
    match find_named_children(n) {
        Some(s) => Some(s),
        None => None,
    }
}

/// Finds the text of the first naming node among `n`'s children, depth
/// first.
pub(crate) fn find_named_children(n: &ParseNode) -> (r: Option<String>)
    ensures
        match r {
            Some(s) => first_named_in_forest(n.children@) == Some(s@),
            None => first_named_in_forest(n.children@) is None,
        },
    decreases *n, 0int,
{
    let mut i: usize = 0;
    proof {
        assert(n.children@.skip(0) =~= n.children@);
    }
    while i < n.children.len()
        invariant
            i <= n.children@.len(),
            first_named_in_forest(n.children@) == first_named_in_forest(
                n.children@.skip(i as int),
            ),
        decreases n.children@.len() - i,
    {
        proof {
            assert(n.children@.skip(i as int).first() == n.children@[i as int]);
        }
        let found = find_named_tree(&n.children[i]);
        match found {
            Some(s) => {
                return Some(s);
            },
            None => (),
        }
        proof {
            assert(n.children@.skip(i as int).drop_first() =~= n.children@.skip(i as int + 1));
        }
        i = i + 1;
    }
    proof {
        assert(n.children@.skip(i as int) =~= Seq::<ParseNode>::empty());
    }
    None
}

/// Decides whether `n` exports a symbol.
pub fn export_node(lang: &Language, n: &ParseNode) -> (r: bool)
    ensures
        r == is_export_node(*lang, *n),
{
    match lang {
        Language::Rust => match find_child_with_kind(n, "visibility_modifier") {
            Some(_) => true,
            None => false,
        },
        Language::JavaScript | Language::TypeScript => str_eq(n.kind.as_str(), "export_statement"),
        _ => false,
    }
}

/// Builds the export record for the export node `n`.
pub fn make_export(lang: &Language, n: &ParseNode) -> (r: ExportInfo)
    ensures
        export_matches(*lang, *n, r),
{
    let name_str = match find_named_children(n) {
        Some(s) => s,
        None => String::new(),
    };
    let is_default = match lang {
        Language::JavaScript | Language::TypeScript => match find_child_with_kind(n, "default") {
            Some(_) => true,
            None => false,
        },
        _ => false,
    };
    ExportInfo { name: name_str, is_default, line: n.start_line }
}

/// Whether `infos` holds exactly one correct import record per node.
pub open spec fn imports_match(
    lang: Language,
    nodes: Seq<ParseNode>,
    infos: Seq<ImportInfo>,
) -> bool {
    &&& infos.len() == nodes.len()
    &&& forall|i: int|
        0 <= i < nodes.len() ==> import_matches(lang, nodes[i], #[trigger] infos[i])
}

/// Whether `infos` holds exactly one correct export record per node.
pub open spec fn exports_match(
    lang: Language,
    nodes: Seq<ParseNode>,
    infos: Seq<ExportInfo>,
) -> bool {
    &&& infos.len() == nodes.len()
    &&& forall|i: int|
        0 <= i < nodes.len() ==> export_matches(lang, nodes[i], #[trigger] infos[i])
}

proof fn lemma_import_nodes_forest_take(lang: Language, s: Seq<ParseNode>, i: int)
    requires
        0 <= i < s.len(),
    ensures
        import_nodes_forest(lang, s.take(i + 1)) == import_nodes_forest(lang, s.take(i))
            + import_nodes_tree(lang, s[i]),
{
    assert(s.take(i + 1).drop_last() =~= s.take(i));
    assert(s.take(i + 1).last() == s[i]);
}

proof fn lemma_export_nodes_forest_take(lang: Language, s: Seq<ParseNode>, i: int)
    requires
        0 <= i < s.len(),
    ensures
        export_nodes_forest(lang, s.take(i + 1)) == export_nodes_forest(lang, s.take(i))
            + export_nodes_tree(lang, s[i]),
{
    assert(s.take(i + 1).drop_last() =~= s.take(i));
    assert(s.take(i + 1).last() == s[i]);
}

/// Appends one record per import node below `n` to `out`.
fn collect_imports(lang: &Language, n: &ParseNode, out: &mut Vec<ImportInfo>)
    ensures
        final(out)@.len() == old(out)@.len() + import_nodes_tree(*lang, *n).len(),
        forall|i: int| 0 <= i < old(out)@.len() ==> final(out)@[i] == old(out)@[i],
        imports_match(
            *lang,
            import_nodes_tree(*lang, *n),
            final(out)@.skip(old(out)@.len() as int),
        ),
    decreases *n,
{
    let ghost oldlen = old(out)@.len() as int;
    let ghost head: Seq<ParseNode> = if is_import_kind(*lang, n.kind@) {
        seq![*n]
    } else {
        Seq::<ParseNode>::empty()
    };
    if lang.import_kind(n.kind.as_str()) {
        let r = make_import(lang, n);
        out.push(r);
        proof {
            assert(out@.skip(oldlen) =~= seq![r]);
        }
    }
    proof {
        assert(import_nodes_forest(*lang, n.children@.take(0)) =~= Seq::<ParseNode>::empty());
        assert(imports_match(
            *lang,
            head + import_nodes_forest(*lang, n.children@.take(0)),
            out@.skip(oldlen),
        ));
    }
    let mut i: usize = 0;
    while i < n.children.len()
        invariant
            i <= n.children@.len(),
            oldlen == old(out)@.len() as int,
            head == if is_import_kind(*lang, n.kind@) {
                seq![*n]
            } else {
                Seq::<ParseNode>::empty()
            },
            out@.len() == oldlen + head.len() + import_nodes_forest(
                *lang,
                n.children@.take(i as int),
            ).len(),
            forall|j: int| 0 <= j < oldlen ==> out@[j] == old(out)@[j],
            imports_match(
                *lang,
                head + import_nodes_forest(*lang, n.children@.take(i as int)),
                out@.skip(oldlen),
            ),
        decreases n.children@.len() - i,
    {
        let ghost pre = out@;
        let ghost f0 = head + import_nodes_forest(*lang, n.children@.take(i as int));
        collect_imports(lang, &n.children[i], out);
        proof {
            lemma_import_nodes_forest_take(*lang, n.children@, i as int);
            let ft = import_nodes_tree(*lang, n.children@[i as int]);
            let f1 = head + import_nodes_forest(*lang, n.children@.take(i as int + 1));
            assert(f1 =~= f0 + ft);
            assert forall|k: int| 0 <= k < f1.len() implies import_matches(
                *lang,
                f1[k],
                #[trigger] out@.skip(oldlen)[k],
            ) by {
                if k < f0.len() {
                    assert(f1[k] == f0[k]);
                    assert(out@.skip(oldlen)[k] == out@[oldlen + k]);
                    assert(out@[oldlen + k] == pre[oldlen + k]);
                    assert(pre.skip(oldlen)[k] == pre[oldlen + k]);
                } else {
                    assert(f1[k] == ft[k - f0.len()]);
                    assert(out@.skip(oldlen)[k] == out@[oldlen + k]);
                    assert(pre.len() == oldlen + f0.len());
                    assert(out@.skip(pre.len() as int)[k - f0.len()] == out@[oldlen + k]);
                }
            }
        }
        i = i + 1;
    }
    proof {
        assert(n.children@.take(n.children@.len() as int) =~= n.children@);
        assert(head + import_nodes_forest(*lang, n.children@) =~= import_nodes_tree(*lang, *n));
    }
}

/// Appends one record per export node below `n` to `out`.
fn collect_exports(lang: &Language, n: &ParseNode, out: &mut Vec<ExportInfo>)
    ensures
        final(out)@.len() == old(out)@.len() + export_nodes_tree(*lang, *n).len(),
        forall|i: int| 0 <= i < old(out)@.len() ==> final(out)@[i] == old(out)@[i],
        exports_match(
            *lang,
            export_nodes_tree(*lang, *n),
            final(out)@.skip(old(out)@.len() as int),
        ),
    decreases *n,
{
    let ghost oldlen = old(out)@.len() as int;
    let ghost head: Seq<ParseNode> = if is_export_node(*lang, *n) {
        seq![*n]
    } else {
        Seq::<ParseNode>::empty()
    };
    if export_node(lang, n) {
        let r = make_export(lang, n);
        out.push(r);
        proof {
            assert(out@.skip(oldlen) =~= seq![r]);
        }
    }
    proof {
        assert(export_nodes_forest(*lang, n.children@.take(0)) =~= Seq::<ParseNode>::empty());
        assert(exports_match(
            *lang,
            head + export_nodes_forest(*lang, n.children@.take(0)),
            out@.skip(oldlen),
        ));
    }
    let mut i: usize = 0;
    while i < n.children.len()
        invariant
            i <= n.children@.len(),
            oldlen == old(out)@.len() as int,
            head == if is_export_node(*lang, *n) {
                seq![*n]
            } else {
                Seq::<ParseNode>::empty()
            },
            out@.len() == oldlen + head.len() + export_nodes_forest(
                *lang,
                n.children@.take(i as int),
            ).len(),
            forall|j: int| 0 <= j < oldlen ==> out@[j] == old(out)@[j],
            exports_match(
                *lang,
                head + export_nodes_forest(*lang, n.children@.take(i as int)),
                out@.skip(oldlen),
            ),
        decreases n.children@.len() - i,
    {
        let ghost pre = out@;
        let ghost f0 = head + export_nodes_forest(*lang, n.children@.take(i as int));
        collect_exports(lang, &n.children[i], out);
        proof {
            lemma_export_nodes_forest_take(*lang, n.children@, i as int);
            let ft = export_nodes_tree(*lang, n.children@[i as int]);
            let f1 = head + export_nodes_forest(*lang, n.children@.take(i as int + 1));
            assert(f1 =~= f0 + ft);
            assert forall|k: int| 0 <= k < f1.len() implies export_matches(
                *lang,
                f1[k],
                #[trigger] out@.skip(oldlen)[k],
            ) by {
                if k < f0.len() {
                    assert(f1[k] == f0[k]);
                    assert(out@.skip(oldlen)[k] == out@[oldlen + k]);
                    assert(out@[oldlen + k] == pre[oldlen + k]);
                    assert(pre.skip(oldlen)[k] == pre[oldlen + k]);
                } else {
                    assert(f1[k] == ft[k - f0.len()]);
                    assert(out@.skip(oldlen)[k] == out@[oldlen + k]);
                    assert(pre.len() == oldlen + f0.len());
                    assert(out@.skip(pre.len() as int)[k - f0.len()] == out@[oldlen + k]);
                }
            }
        }
        i = i + 1;
    }
    proof {
        assert(n.children@.take(n.children@.len() as int) =~= n.children@);
        assert(head + export_nodes_forest(*lang, n.children@) =~= export_nodes_tree(*lang, *n));
    }
}

/// Extracts every import and export declared below `root`, in source order.
pub fn extract_imports_exports(lang: &Language, root: &ParseNode) -> (r: ImportExportAnalysis)
    ensures
        imports_match(*lang, import_nodes_tree(*lang, *root), r.imports@),
        exports_match(*lang, export_nodes_tree(*lang, *root), r.exports@),
{
    let mut imports: Vec<ImportInfo> = Vec::new();
    collect_imports(lang, root, &mut imports);
    let mut exports: Vec<ExportInfo> = Vec::new();
    collect_exports(lang, root, &mut exports);
    proof {
        assert(imports@.skip(0) =~= imports@);
        assert(exports@.skip(0) =~= exports@);
    }
    ImportExportAnalysis { imports, exports }
}

} // verus!
