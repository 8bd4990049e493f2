//! Per-language query patterns and auxiliary record types kept for the
//! engine's reporting surface: a reviewable table of each grammar's node
//! patterns, and plain records for extracted types and error-handling
//! figures.

use vstd::prelude::*;
use crate::adapter::is_type_kind;
use crate::imports::{collect_kind_texts, find_named_children, first_named_in_forest, kind_texts_forest, kind_texts_tree};
use crate::lang::Language;
use crate::text::{lower_seq, str_eq_lower};
use crate::tree::ParseNode;

verus! {

/// The languages the pattern tables cover.
#[derive(Clone, Copy, Debug, PartialEq, Eq, Hash, Structural)]
pub enum SupportedLanguage {
    Rust,
    JavaScript,
    Python,
    Go,
}

/// The supported language a (lower-cased) extension selects, if any; the
/// TypeScript extensions fall to the JavaScript grammar family here.
pub open spec fn supported_language_of(ext: Seq<char>) -> Option<SupportedLanguage> {
    let l = lower_seq(ext);
    if l == "rs"@ {
        Some(SupportedLanguage::Rust)
    } else if l == "js"@ || l == "jsx"@ || l == "ts"@ || l == "tsx"@ {
        Some(SupportedLanguage::JavaScript)
    } else if l == "py"@ || l == "pyx"@ || l == "pyi"@ {
        Some(SupportedLanguage::Python)
    } else if l == "go"@ {
        Some(SupportedLanguage::Go)
    } else {
        None
    }
}

/// The query patterns of one language: the node shapes that find
/// functions, classes, imports, conditionals, loops and complexity points.
pub struct LanguagePatterns {
    pub functions: &'static str,
    pub classes: &'static str,
    pub imports: &'static str,
    pub conditionals: &'static str,
    pub loops: &'static str,
    pub complexity_nodes: &'static str,
}


/// What each language's pattern table holds, field by field.
pub open spec fn patterns_match(lang: SupportedLanguage, r: LanguagePatterns) -> bool {
    match lang {
        SupportedLanguage::Rust => {
            &&& r.functions@ == "(function_item) @function"@
            &&& r.classes@ == "(struct_item) @struct (enum_item) @enum (trait_item) @trait"@
            &&& r.imports@ == "(use_declaration) @import"@
            &&& r.conditionals@ == "(if_expression) @if (match_arm) @arm"@
            &&& r.loops@ == "(loop_expression) @loop (for_expression) @for (while_expression) @while"@
            &&& r.complexity_nodes@ == "(if_expression) @c (match_arm) @c (loop_expression) @c (for_expression) @c (while_expression) @c"@
        },
        SupportedLanguage::JavaScript => {
            &&& r.functions@ == "(function_declaration) @function (arrow_function) @function (method_definition) @function"@
            &&& r.classes@ == "(class_declaration) @class"@
            &&& r.imports@ == "(import_statement) @import"@
            &&& r.conditionals@ == "(if_statement) @if (switch_case) @case (ternary_expression) @ternary"@
            &&& r.loops@ == "(for_statement) @for (for_in_statement) @for (while_statement) @while (do_statement) @do"@
            &&& r.complexity_nodes@ == "(if_statement) @c (switch_case) @c (for_statement) @c (for_in_statement) @c (while_statement) @c (do_statement) @c (catch_clause) @c"@
        },
        SupportedLanguage::Python => {
            &&& r.functions@ == "(function_definition) @function"@
            &&& r.classes@ == "(class_definition) @class"@
            &&& r.imports@ == "(import_statement) @import (import_from_statement) @import"@
            &&& r.conditionals@ == "(if_statement) @if (elif_clause) @elif (conditional_expression) @ternary"@
            &&& r.loops@ == "(for_statement) @for (while_statement) @while"@
            &&& r.complexity_nodes@ == "(if_statement) @c (elif_clause) @c (for_statement) @c (while_statement) @c (except_clause) @c (boolean_operator) @c"@
        },
        SupportedLanguage::Go => {
            &&& r.functions@ == "(function_declaration) @function (method_declaration) @function"@
            &&& r.classes@ == "(type_declaration) @type"@
            &&& r.imports@ == "(import_spec) @import"@
            &&& r.conditionals@ == "(if_statement) @if (expression_case) @case (type_case) @case"@
            &&& r.loops@ == "(for_statement) @for"@
            &&& r.complexity_nodes@ == "(if_statement) @c (expression_case) @c (type_case) @c (for_statement) @c"@
        },
    }
}

impl SupportedLanguage {
    /// Detect the supported language from a file extension, ignoring ASCII
    /// case.
    pub fn from_extension(ext: &str) -> (r: Option<Self>)
        ensures
            r == supported_language_of(ext@),
    {
        if str_eq_lower(ext, "rs") {
            Some(SupportedLanguage::Rust)
        } else if str_eq_lower(ext, "js") || str_eq_lower(ext, "jsx") || str_eq_lower(ext, "ts")
            || str_eq_lower(ext, "tsx") {
            Some(SupportedLanguage::JavaScript)
        } else if str_eq_lower(ext, "py") || str_eq_lower(ext, "pyx") || str_eq_lower(ext, "pyi") {
            Some(SupportedLanguage::Python)
        } else if str_eq_lower(ext, "go") {
            Some(SupportedLanguage::Go)
        } else {
            None
        }
    }

    /// The query-pattern table of this language: one explicit, reviewable
    /// entry per construct category.
    pub fn get_query_patterns(&self) -> (r: LanguagePatterns)
        ensures
            patterns_match(*self, r),
    {
        match self {
            SupportedLanguage::Rust => LanguagePatterns {
                functions: "(function_item) @function",
                classes: "(struct_item) @struct (enum_item) @enum (trait_item) @trait",
                imports: "(use_declaration) @import",
                conditionals: "(if_expression) @if (match_arm) @arm",
                loops: "(loop_expression) @loop (for_expression) @for (while_expression) @while",
                complexity_nodes: "(if_expression) @c (match_arm) @c (loop_expression) @c (for_expression) @c (while_expression) @c",
            },
            SupportedLanguage::JavaScript => LanguagePatterns {
                functions: "(function_declaration) @function (arrow_function) @function (method_definition) @function",
                classes: "(class_declaration) @class",
                imports: "(import_statement) @import",
                conditionals: "(if_statement) @if (switch_case) @case (ternary_expression) @ternary",
                loops: "(for_statement) @for (for_in_statement) @for (while_statement) @while (do_statement) @do",
                complexity_nodes: "(if_statement) @c (switch_case) @c (for_statement) @c (for_in_statement) @c (while_statement) @c (do_statement) @c (catch_clause) @c",
            },
            SupportedLanguage::Python => LanguagePatterns {
                functions: "(function_definition) @function",
                classes: "(class_definition) @class",
                imports: "(import_statement) @import (import_from_statement) @import",
                conditionals: "(if_statement) @if (elif_clause) @elif (conditional_expression) @ternary",
                loops: "(for_statement) @for (while_statement) @while",
                complexity_nodes: "(if_statement) @c (elif_clause) @c (for_statement) @c (while_statement) @c (except_clause) @c (boolean_operator) @c",
            },
            SupportedLanguage::Go => LanguagePatterns {
                functions: "(function_declaration) @function (method_declaration) @function",
                classes: "(type_declaration) @type",
                imports: "(import_spec) @import",
                conditionals: "(if_statement) @if (expression_case) @case (type_case) @case",
                loops: "(for_statement) @for",
                complexity_nodes: "(if_statement) @c (expression_case) @c (type_case) @c (for_statement) @c",
            },
        }
    }
}

/// One extracted type definition.
pub struct TypeInfo {
    pub name: String,
    pub kind: String,
    pub line_start: u64,
    pub line_end: u64,
    pub fields: Vec<String>,
}


/// The field or member names carried by a type definition's subtree.
pub open spec fn type_fields_of(lang: Language, n: ParseNode) -> Seq<Seq<char>> {
    match lang {
        Language::Rust | Language::Go => kind_texts_forest(n.children@, "field_identifier"@),
        Language::JavaScript | Language::TypeScript => kind_texts_forest(
            n.children@,
            "property_identifier"@,
        ),
        _ => Seq::<Seq<char>>::empty(),
    }
}

/// What every field of a type record says about its node.
pub open spec fn type_matches(lang: Language, n: ParseNode, t: TypeInfo) -> bool {
    &&& t.name@ == match first_named_in_forest(n.children@) {
        Some(x) => x,
        None => Seq::<char>::empty(),
    }
    &&& t.kind@ == n.kind@
    &&& t.line_start == n.start_line
    &&& t.line_end == n.end_line
    &&& t.fields.deep_view() == type_fields_of(lang, n)
}

/// The type-definition nodes of the tree rooted at `n`, in source order.
pub open spec fn type_nodes_tree(lang: Language, n: ParseNode) -> Seq<ParseNode>
    decreases n,
{
    (if is_type_kind(lang, n.kind@) {
        seq![n]
    } else {
        Seq::<ParseNode>::empty()
    }) + type_nodes_forest(lang, n.children@)
}

/// The type-definition nodes of the trees of `s`, left to right.
pub open spec fn type_nodes_forest(lang: Language, s: Seq<ParseNode>) -> Seq<ParseNode>
    decreases s,
{
    if s.len() == 0 {
        Seq::<ParseNode>::empty()
    } else {
        type_nodes_forest(lang, s.drop_last()) + type_nodes_tree(lang, s.last())
    }
}

proof fn lemma_type_nodes_forest_take(lang: Language, s: Seq<ParseNode>, i: int)
    requires
        0 <= i < s.len(),
    ensures
        type_nodes_forest(lang, s.take(i + 1)) == type_nodes_forest(lang, s.take(i))
            + type_nodes_tree(lang, s[i]),
{
    assert(s.take(i + 1).drop_last() =~= s.take(i));
    assert(s.take(i + 1).last() == s[i]);
}

/// Whether `ts` holds exactly one correct record per type node.
pub open spec fn types_match(lang: Language, nodes: Seq<ParseNode>, ts: Seq<TypeInfo>) -> bool {
    &&& ts.len() == nodes.len()
    &&& forall|i: int| 0 <= i < nodes.len() ==> type_matches(lang, nodes[i], #[trigger] ts[i])
}

/// Builds the record for the type defined by `n`.
fn make_type(lang: &Language, n: &ParseNode) -> (r: TypeInfo)
    ensures
        type_matches(*lang, *n, r),
{
    let name = match find_named_children(n) {
        Some(s) => s,
        None => String::new(),
    };
    let mut fields: Vec<String> = Vec::new();
    let field_kind: Option<&str> = match lang {
        Language::Rust | Language::Go => Some("field_identifier"),
        Language::JavaScript | Language::TypeScript => Some("property_identifier"),
        _ => None,
    };
    match field_kind {
        Some(k) => {
            let ghost kv = k@;
            let ghost base = fields.deep_view();
            let mut i: usize = 0;
            proof {
                assert(kind_texts_forest(n.children@.take(0), kv) =~~= Seq::<Seq<char>>::empty());
                assert(fields.deep_view() =~~= base + kind_texts_forest(n.children@.take(0), kv));
            }
            while i < n.children.len()
                invariant
                    i <= n.children@.len(),
                    kv == k@,
                    base == Seq::<Seq<char>>::empty(),
                    fields.deep_view() =~~= base + kind_texts_forest(
                        n.children@.take(i as int),
                        kv,
                    ),
                decreases n.children@.len() - i,
            {
                collect_kind_texts(&n.children[i], k, &mut fields);
                proof {
                    lemma_kind_texts_forest_take_local(n.children@, kv, i as int);
                }
                i = i + 1;
            }
            proof {
                assert(n.children@.take(n.children@.len() as int) =~= n.children@);
                assert(fields.deep_view() =~~= kind_texts_forest(n.children@, kv));
            }
        },
        None => {
            proof {
                assert(fields.deep_view() =~~= Seq::<Seq<char>>::empty());
            }
        },
    }
    TypeInfo {
        name,
        kind: n.kind.clone(),
        line_start: n.start_line,
        line_end: n.end_line,
        fields,
    }
}

proof fn lemma_kind_texts_forest_take_local(s: Seq<ParseNode>, k: Seq<char>, i: int)
    requires
        0 <= i < s.len(),
    ensures
        kind_texts_forest(s.take(i + 1), k) == kind_texts_forest(s.take(i), k) + kind_texts_tree(
            s[i],
            k,
        ),
{
    assert(s.take(i + 1).drop_last() =~= s.take(i));
    assert(s.take(i + 1).last() == s[i]);
}

/// Appends one record per type node below `n` to `out`.
fn collect_types(lang: &Language, n: &ParseNode, out: &mut Vec<TypeInfo>)
    ensures
        final(out)@.len() == old(out)@.len() + type_nodes_tree(*lang, *n).len(),
        forall|i: int| 0 <= i < old(out)@.len() ==> final(out)@[i] == old(out)@[i],
        types_match(
            *lang,
            type_nodes_tree(*lang, *n),
            final(out)@.skip(old(out)@.len() as int),
        ),
    decreases *n,
{
    let ghost oldlen = old(out)@.len() as int;
    let ghost head: Seq<ParseNode> = if is_type_kind(*lang, n.kind@) {
        seq![*n]
    } else {
        Seq::<ParseNode>::empty()
    };
    if lang.type_kind(n.kind.as_str()) {
        let r = make_type(lang, n);
        out.push(r);
        proof {
            assert(out@.skip(oldlen) =~= seq![r]);
        }
    }
    proof {
        assert(type_nodes_forest(*lang, n.children@.take(0)) =~= Seq::<ParseNode>::empty());
        assert(types_match(
            *lang,
            head + type_nodes_forest(*lang, n.children@.take(0)),
            out@.skip(oldlen),
        ));
    }
    let mut i: usize = 0;
    while i < n.children.len()
        invariant
            i <= n.children@.len(),
            oldlen == old(out)@.len() as int,
            head == if is_type_kind(*lang, n.kind@) {
                seq![*n]
            } else {
                Seq::<ParseNode>::empty()
            },
            out@.len() == oldlen + head.len() + type_nodes_forest(
                *lang,
                n.children@.take(i as int),
            ).len(),
            forall|j: int| 0 <= j < oldlen ==> out@[j] == old(out)@[j],
            types_match(
                *lang,
                head + type_nodes_forest(*lang, n.children@.take(i as int)),
                out@.skip(oldlen),
            ),
        decreases n.children@.len() - i,
    {
        let ghost pre = out@;
        let ghost f0 = head + type_nodes_forest(*lang, n.children@.take(i as int));
        collect_types(lang, &n.children[i], out);
        proof {
            lemma_type_nodes_forest_take(*lang, n.children@, i as int);
            let ft = type_nodes_tree(*lang, n.children@[i as int]);
            let f1 = head + type_nodes_forest(*lang, n.children@.take(i as int + 1));
            assert(f1 =~= f0 + ft);
            assert forall|k: int| 0 <= k < f1.len() implies type_matches(
                *lang,
                f1[k],
                #[trigger] out@.skip(oldlen)[k],
            ) by {
                if k < f0.len() {
                    assert(f1[k] == f0[k]);
                    assert(out@.skip(oldlen)[k] == out@[oldlen + k]);
                    assert(out@[oldlen + k] == pre[oldlen + k]);
                    assert(pre.skip(oldlen)[k] == pre[oldlen + k]);
                } else {
                    assert(f1[k] == ft[k - f0.len()]);
                    assert(out@.skip(oldlen)[k] == out@[oldlen + k]);
                    assert(pre.len() == oldlen + f0.len());
                    assert(out@.skip(pre.len() as int)[k - f0.len()] == out@[oldlen + k]);
                }
            }
        }
        i = i + 1;
    }
    proof {
        assert(n.children@.take(n.children@.len() as int) =~= n.children@);
        assert(head + type_nodes_forest(*lang, n.children@) =~= type_nodes_tree(*lang, *n));
    }
}

/// Extracts one record per type definition found below `root`, in source
/// order.
pub fn extract_types(lang: &Language, root: &ParseNode) -> (r: Vec<TypeInfo>)
    ensures
        types_match(*lang, type_nodes_tree(*lang, *root), r@),
{
    let mut out: Vec<TypeInfo> = Vec::new();
    collect_types(lang, root, &mut out);
    proof {
        assert(out@.skip(0) =~= out@);
    }
    out
}

/// What kind of construct contributed one complexity point.
#[derive(Clone, Copy, Debug, PartialEq, Eq, Structural)]
pub enum ComplexityKind {
    IfStatement,
    Loop,
    Match,
    TryCatch,
}

/// One complexity point, with where it was found.
pub struct ComplexityPoint {
    pub line: u64,
    pub column: u64,
    pub kind: ComplexityKind,
}

/// A structural summary of one parsed file.
pub struct AstAnalysis {
    pub function_count: u64,
    pub complexity_points: Vec<ComplexityPoint>,
    pub imports: Vec<String>,
    pub exports: Vec<String>,
}

/// How a file handles errors: `?` uses, `Result` matches, and calls that
/// panic on failure.
pub struct ErrorHandlingMetrics {
    pub try_expressions: u64,
    pub result_matches: u64,
    pub unwrap_calls: u64,
    pub expect_calls: u64,
}

/// A recognized idiom in analyzed code.
#[derive(Clone, Copy, Debug, PartialEq, Eq, Structural)]
pub enum RustPattern {
    IteratorChain,
    RAII,
    Builder,
    OptionChaining,
    ResultPropagation,
}

/// Which sections a rendered report includes.
pub struct VisualizationConfig {
    pub include_dependency_graph: bool,
    pub include_complexity_heatmap: bool,
    pub include_issue_dashboard: bool,
    pub include_function_metrics: bool,
    pub interactive_features: bool,
    pub dark_theme: bool,
}

impl Default for VisualizationConfig {
    /// Everything on, light theme.
    fn default() -> (r: Self)
        ensures
            r.include_dependency_graph && r.include_complexity_heatmap
                && r.include_issue_dashboard && r.include_function_metrics
                && r.interactive_features && !r.dark_theme,
    {
        VisualizationConfig {
            include_dependency_graph: true,
            include_complexity_heatmap: true,
            include_issue_dashboard: true,
            include_function_metrics: true,
            interactive_features: true,
            dark_theme: false,
        }
    }
}

} // verus!
