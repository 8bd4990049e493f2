//! The parser pool: turns source text into a [`ParseNode`] tree.
//!
//! Parsing itself is done by the tree-sitter library with one grammar per
//! language; everything after the parse — every metric and every graph — is
//! verified code over the returned tree. A parse yields `None` only when the
//! parser cannot produce any tree at all; a tree with locally malformed
//! regions is still returned, with the affected nodes flagged as errors.

use vstd::prelude::*;
use crate::lang::Language;
use crate::source::{split_lines, split_lines_spec};
use crate::tree::ParseNode;

verus! {

/// One parsed source file: its language, its path, the syntax tree, and the
/// source text split into lines. The tree's line numbers refer to exactly
/// these lines.
pub struct ParsedUnit {
    pub language: Language,
    pub path: String,
    pub root: ParseNode,
    pub lines: Vec<Vec<char>>,
}

#[verifier::external_type_specification]
#[verifier::external_body]
pub struct ExNode<'a>(tree_sitter::Node<'a>);

/// The tree that the Rust grammar yields on `source`, as a value; parsing
/// is a pure function of the source text.
pub uninterp spec fn rust_tree(source: Seq<char>) -> Option<ParseNode>;

/// The tree that the JavaScript grammar yields on `source`.
pub uninterp spec fn javascript_tree(source: Seq<char>) -> Option<ParseNode>;

/// The tree that the TypeScript grammar yields on `source`.
pub uninterp spec fn typescript_tree(source: Seq<char>) -> Option<ParseNode>;

/// The tree that the Python grammar yields on `source`.
pub uninterp spec fn python_tree(source: Seq<char>) -> Option<ParseNode>;

/// The tree that the Go grammar yields on `source`.
pub uninterp spec fn go_tree(source: Seq<char>) -> Option<ParseNode>;

/// The tree that parsing `source` as `lang` yields: the per-grammar parse
/// for a supported language, and no tree at all for an unknown one.
pub open spec fn parsed_tree(lang: Language, source: Seq<char>) -> Option<ParseNode> {
    match lang {
        Language::Rust => rust_tree(source),
        Language::JavaScript => javascript_tree(source),
        Language::TypeScript => typescript_tree(source),
        Language::Python => python_tree(source),
        Language::Go => go_tree(source),
        Language::Unknown => None,
    }
}

/// Relies on tree_sitter::Node's accessors: copies one node of the
/// library's tree into a plain value, children included. The copy recurses
/// as deeply as the tree nests, like the verified traversals that follow.
#[verifier::external_body]
fn convert_node(node: tree_sitter::Node<'_>, source: &[u8]) -> ParseNode {
    let mut cursor = node.walk();
    ParseNode {
        kind: node.kind().to_string(),
        text: node.utf8_text(source).unwrap_or("").to_string(),
        start_line: node.start_position().row as u64 + 1,
        end_line: node.end_position().row as u64 + 1,
        is_error: node.is_error() || node.is_missing(),
        children: node.children(&mut cursor).map(|c| convert_node(c, source)).collect(),
    }
}

/// Relies on tree_sitter::Parser::parse with the Rust grammar: parsing is
/// deterministic in the source text, and fails only when no tree can be
/// produced at all.
#[verifier::external_body]
fn parse_rust(source: &str) -> (r: Option<ParseNode>)
    ensures
        r == rust_tree(source@),
{
    let mut parser = tree_sitter::Parser::new();
    parser.set_language(&tree_sitter_rust::LANGUAGE.into()).ok()?;
    let tree = parser.parse(source, None)?;
    Some(convert_node(tree.root_node(), source.as_bytes()))
}

/// Relies on tree_sitter::Parser::parse with the JavaScript grammar; see
/// `parse_rust`.
#[verifier::external_body]
fn parse_javascript(source: &str) -> (r: Option<ParseNode>)
    ensures
        r == javascript_tree(source@),
{
    let mut parser = tree_sitter::Parser::new();
    parser.set_language(&tree_sitter_javascript::LANGUAGE.into()).ok()?;
    let tree = parser.parse(source, None)?;
    Some(convert_node(tree.root_node(), source.as_bytes()))
}

/// Relies on tree_sitter::Parser::parse with the TypeScript grammar; see
/// `parse_rust`.
#[verifier::external_body]
fn parse_typescript(source: &str) -> (r: Option<ParseNode>)
    ensures
        r == typescript_tree(source@),
{
    let mut parser = tree_sitter::Parser::new();
    parser.set_language(&tree_sitter_typescript::LANGUAGE_TYPESCRIPT.into()).ok()?;
    let tree = parser.parse(source, None)?;
    Some(convert_node(tree.root_node(), source.as_bytes()))
}

/// Relies on tree_sitter::Parser::parse with the Python grammar; see
/// `parse_rust`.
#[verifier::external_body]
fn parse_python(source: &str) -> (r: Option<ParseNode>)
    ensures
        r == python_tree(source@),
{
    let mut parser = tree_sitter::Parser::new();
    parser.set_language(&tree_sitter_python::LANGUAGE.into()).ok()?;
    let tree = parser.parse(source, None)?;
    Some(convert_node(tree.root_node(), source.as_bytes()))
}

/// Relies on tree_sitter::Parser::parse with the Go grammar; see
/// `parse_rust`.
#[verifier::external_body]
fn parse_go(source: &str) -> (r: Option<ParseNode>)
    ensures
        r == go_tree(source@),
{
    let mut parser = tree_sitter::Parser::new();
    parser.set_language(&tree_sitter_go::LANGUAGE.into()).ok()?;
    let tree = parser.parse(source, None)?;
    Some(convert_node(tree.root_node(), source.as_bytes()))
}

/// Parses `source` as `lang`. Yields `None` for an unknown language and
/// when the parser cannot produce any tree.
pub fn parse_source(lang: &Language, source: &str) -> (r: Option<ParseNode>)
    ensures
        r == parsed_tree(*lang, source@),
{
    match lang {
        Language::Rust => parse_rust(source),
        Language::JavaScript => parse_javascript(source),
        Language::TypeScript => parse_typescript(source),
        Language::Python => parse_python(source),
        Language::Go => parse_go(source),
        Language::Unknown => None,
    }
}

/// What a well-formed parse of `(language, path, source)` looks like.
pub open spec fn unit_matches(
    lang: Language,
    path: Seq<char>,
    source: Seq<char>,
    unit: ParsedUnit,
) -> bool {
    &&& unit.language == lang
    &&& unit.path@ == path
    &&& Some(unit.root) == parsed_tree(lang, source)
    &&& unit.lines.deep_view() == split_lines_spec(source)
}

/// Parses one source file into a [`ParsedUnit`]. Yields `None` exactly when
/// the language is unknown or the parser can produce no tree.
pub fn parse_unit(lang: &Language, path: String, source: &str) -> (r: Option<ParsedUnit>)
    ensures
        r is Some <==> parsed_tree(*lang, source@) is Some,
        r matches Some(unit) ==> unit_matches(*lang, path@, source@, unit),
{
    match parse_source(lang, source) {
        Some(root) => {
            let lines = split_lines(source);
            Some(ParsedUnit { language: *lang, path, root, lines })
        },
        None => None,
    }
}

} // verus!
