//! The grammar adapter: maps each language's concrete node-kind strings to
//! the universal categories the engine works with (function, decision point,
//! loop, control scope, call, parameter, import, export).
//!
//! The tables below are deliberately explicit so that they can be reviewed
//! against each grammar; a kind that appears in no table simply contributes
//! nothing to any metric.

use vstd::prelude::*;
use crate::lang::Language;
use crate::text::str_eq;

verus! {

/// Node kinds that count as one decision point each: `if`/`else if`,
/// `match`/`switch` arms, ternaries, `catch`/`except` clauses, and the
/// boolean connectives `&&`/`||`.
pub open spec fn is_decision_kind(lang: Language, kind: Seq<char>) -> bool {
    match lang {
        Language::Rust => kind == "if_expression"@ || kind == "match_arm"@ || kind == "&&"@
            || kind == "||"@,
        Language::JavaScript | Language::TypeScript => kind == "if_statement"@
            || kind == "switch_case"@ || kind == "ternary_expression"@ || kind == "catch_clause"@
            || kind == "&&"@ || kind == "||"@,
        Language::Python => kind == "if_statement"@ || kind == "elif_clause"@
            || kind == "conditional_expression"@ || kind == "except_clause"@
            || kind == "case_clause"@ || kind == "boolean_operator"@,
        Language::Go => kind == "if_statement"@ || kind == "expression_case"@
            || kind == "type_case"@ || kind == "communication_case"@ || kind == "&&"@
            || kind == "||"@,
        Language::Unknown => false,
    }
}

/// Node kinds that count as one loop point each.
pub open spec fn is_loop_kind(lang: Language, kind: Seq<char>) -> bool {
    match lang {
        Language::Rust => kind == "while_expression"@ || kind == "for_expression"@
            || kind == "loop_expression"@,
        Language::JavaScript | Language::TypeScript => kind == "while_statement"@
            || kind == "for_statement"@ || kind == "for_in_statement"@ || kind == "do_statement"@,
        Language::Python => kind == "for_statement"@ || kind == "while_statement"@,
        Language::Go => kind == "for_statement"@,
        Language::Unknown => false,
    }
}

/// A node adds one decision or loop point to the cyclomatic complexity.
pub open spec fn is_complexity_kind(lang: Language, kind: Seq<char>) -> bool {
    is_decision_kind(lang, kind) || is_loop_kind(lang, kind)
}

/// Node kinds that open a new control-structure scope for the nesting
/// depth: `if`, `while`, `for`, `switch`/`match`, `try`.
pub open spec fn is_control_kind(lang: Language, kind: Seq<char>) -> bool {
    match lang {
        Language::Rust => kind == "if_expression"@ || kind == "match_expression"@
            || kind == "while_expression"@ || kind == "for_expression"@
            || kind == "loop_expression"@,
        Language::JavaScript | Language::TypeScript => kind == "if_statement"@
            || kind == "switch_statement"@ || kind == "while_statement"@
            || kind == "for_statement"@ || kind == "for_in_statement"@ || kind == "do_statement"@
            || kind == "try_statement"@,
        Language::Python => kind == "if_statement"@ || kind == "for_statement"@
            || kind == "while_statement"@ || kind == "try_statement"@ || kind == "with_statement"@
            || kind == "match_statement"@,
        Language::Go => kind == "if_statement"@ || kind == "expression_switch_statement"@
            || kind == "type_switch_statement"@ || kind == "select_statement"@
            || kind == "for_statement"@,
        Language::Unknown => false,
    }
}

/// Node kinds that define a function or method and yield one record each.
pub open spec fn is_function_kind(lang: Language, kind: Seq<char>) -> bool {
    match lang {
        Language::Rust => kind == "function_item"@,
        Language::JavaScript | Language::TypeScript => kind == "function_declaration"@
            || kind == "function_expression"@ || kind == "arrow_function"@
            || kind == "method_definition"@ || kind == "generator_function"@
            || kind == "generator_function_declaration"@,
        Language::Python => kind == "function_definition"@,
        Language::Go => kind == "function_declaration"@ || kind == "method_declaration"@,
        Language::Unknown => false,
    }
}

/// The node kind of a function's parameter list.
pub open spec fn is_param_list_kind(lang: Language, kind: Seq<char>) -> bool {
    match lang {
        Language::Rust => kind == "parameters"@,
        Language::JavaScript | Language::TypeScript => kind == "formal_parameters"@,
        Language::Python => kind == "parameters"@ || kind == "lambda_parameters"@,
        Language::Go => kind == "parameter_list"@,
        Language::Unknown => false,
    }
}

/// Children of a parameter list that are actual parameters (and not
/// punctuation or type annotations).
pub open spec fn is_param_kind(lang: Language, kind: Seq<char>) -> bool {
    match lang {
        Language::Rust => kind == "parameter"@ || kind == "self_parameter"@
            || kind == "variadic_parameter"@,
        Language::JavaScript | Language::TypeScript => kind == "identifier"@
            || kind == "assignment_pattern"@ || kind == "rest_pattern"@
            || kind == "object_pattern"@ || kind == "array_pattern"@ || kind == "required_parameter"@
            || kind == "optional_parameter"@,
        Language::Python => kind == "identifier"@ || kind == "typed_parameter"@
            || kind == "default_parameter"@ || kind == "typed_default_parameter"@
            || kind == "list_splat_pattern"@ || kind == "dictionary_splat_pattern"@,
        Language::Go => kind == "parameter_declaration"@ || kind == "variadic_parameter_declaration"@,
        Language::Unknown => false,
    }
}

/// Node kinds that are a call expression; the callee is the node's first
/// child.
pub open spec fn is_call_kind(lang: Language, kind: Seq<char>) -> bool {
    match lang {
        Language::Rust => kind == "call_expression"@,
        Language::JavaScript | Language::TypeScript => kind == "call_expression"@,
        Language::Python => kind == "call"@,
        Language::Go => kind == "call_expression"@,
        Language::Unknown => false,
    }
}

/// The token kind that marks a function as asynchronous.
pub open spec fn is_async_kind(lang: Language, kind: Seq<char>) -> bool {
    match lang {
        Language::Rust | Language::JavaScript | Language::TypeScript | Language::Python => kind
            == "async"@,
        Language::Go | Language::Unknown => false,
    }
}

/// Node kinds whose text names a function, used when extracting the
/// function's name from the children of its definition node.
pub open spec fn is_name_kind(kind: Seq<char>) -> bool {
    kind == "identifier"@ || kind == "property_identifier"@ || kind == "field_identifier"@
}

/// Node kinds that define a named type: structs, enums, traits, classes
/// and interfaces.
pub open spec fn is_type_kind(lang: Language, kind: Seq<char>) -> bool {
    match lang {
        Language::Rust => kind == "struct_item"@ || kind == "enum_item"@ || kind == "trait_item"@,
        Language::JavaScript | Language::TypeScript => kind == "class_declaration"@
            || kind == "interface_declaration"@,
        Language::Python => kind == "class_definition"@,
        Language::Go => kind == "type_spec"@,
        Language::Unknown => false,
    }
}

/// Node kinds that declare an import.
pub open spec fn is_import_kind(lang: Language, kind: Seq<char>) -> bool {
    match lang {
        Language::Rust => kind == "use_declaration"@,
        Language::JavaScript | Language::TypeScript => kind == "import_statement"@,
        Language::Python => kind == "import_statement"@ || kind == "import_from_statement"@,
        Language::Go => kind == "import_spec"@,
        Language::Unknown => false,
    }
}

/// Whether a node of kind `kind` carries a function's name as its text.
pub fn name_kind_matches(kind: &str) -> (r: bool)
    ensures
        r == is_name_kind(kind@),
{
    str_eq(kind, "identifier") || str_eq(kind, "property_identifier") || str_eq(
        kind,
        "field_identifier",
    )
}

impl Language {
    /// Whether `kind` counts as a decision point for this language.
    pub fn decision_kind(&self, kind: &str) -> (r: bool)
        ensures
            r == is_decision_kind(*self, kind@),
    {
        match self {
            Language::Rust => str_eq(kind, "if_expression") || str_eq(kind, "match_arm") || str_eq(
                kind,
                "&&",
            ) || str_eq(kind, "||"),
            Language::JavaScript | Language::TypeScript => str_eq(kind, "if_statement") || str_eq(
                kind,
                "switch_case",
            ) || str_eq(kind, "ternary_expression") || str_eq(kind, "catch_clause") || str_eq(
                kind,
                "&&",
            ) || str_eq(kind, "||"),
            Language::Python => str_eq(kind, "if_statement") || str_eq(kind, "elif_clause")
                || str_eq(kind, "conditional_expression") || str_eq(kind, "except_clause")
                || str_eq(kind, "case_clause") || str_eq(kind, "boolean_operator"),
            Language::Go => str_eq(kind, "if_statement") || str_eq(kind, "expression_case")
                || str_eq(kind, "type_case") || str_eq(kind, "communication_case") || str_eq(
                kind,
                "&&",
            ) || str_eq(kind, "||"),
            Language::Unknown => false,
        }
    }

    /// Whether `kind` counts as a loop point for this language.
    pub fn loop_kind(&self, kind: &str) -> (r: bool)
        ensures
            r == is_loop_kind(*self, kind@),
    {
        match self {
            Language::Rust => str_eq(kind, "while_expression") || str_eq(kind, "for_expression")
                || str_eq(kind, "loop_expression"),
            Language::JavaScript | Language::TypeScript => str_eq(kind, "while_statement")
                || str_eq(kind, "for_statement") || str_eq(kind, "for_in_statement") || str_eq(
                kind,
                "do_statement",
            ),
            Language::Python => str_eq(kind, "for_statement") || str_eq(kind, "while_statement"),
            Language::Go => str_eq(kind, "for_statement"),
            Language::Unknown => false,
        }
    }

    /// Whether `kind` adds one point of cyclomatic complexity.
    pub fn complexity_kind(&self, kind: &str) -> (r: bool)
        ensures
            r == is_complexity_kind(*self, kind@),
    {
        self.decision_kind(kind) || self.loop_kind(kind)
    }

    /// Whether `kind` opens a control-structure scope for the nesting depth.
    pub fn control_kind(&self, kind: &str) -> (r: bool)
        ensures
            r == is_control_kind(*self, kind@),
    {
        match self {
            Language::Rust => str_eq(kind, "if_expression") || str_eq(kind, "match_expression")
                || str_eq(kind, "while_expression") || str_eq(kind, "for_expression") || str_eq(
                kind,
                "loop_expression",
            ),
            Language::JavaScript | Language::TypeScript => str_eq(kind, "if_statement") || str_eq(
                kind,
                "switch_statement",
            ) || str_eq(kind, "while_statement") || str_eq(kind, "for_statement") || str_eq(
                kind,
                "for_in_statement",
            ) || str_eq(kind, "do_statement") || str_eq(kind, "try_statement"),
            Language::Python => str_eq(kind, "if_statement") || str_eq(kind, "for_statement")
                || str_eq(kind, "while_statement") || str_eq(kind, "try_statement") || str_eq(
                kind,
                "with_statement",
            ) || str_eq(kind, "match_statement"),
            Language::Go => str_eq(kind, "if_statement") || str_eq(
                kind,
                "expression_switch_statement",
            ) || str_eq(kind, "type_switch_statement") || str_eq(kind, "select_statement")
                || str_eq(kind, "for_statement"),
            Language::Unknown => false,
        }
    }

    /// Whether `kind` defines a function or method.
    pub fn function_kind(&self, kind: &str) -> (r: bool)
        ensures
            r == is_function_kind(*self, kind@),
    {
        match self {
            Language::Rust => str_eq(kind, "function_item"),
            Language::JavaScript | Language::TypeScript => str_eq(kind, "function_declaration")
                || str_eq(kind, "function_expression") || str_eq(kind, "arrow_function") || str_eq(
                kind,
                "method_definition",
            ) || str_eq(kind, "generator_function") || str_eq(
                kind,
                "generator_function_declaration",
            ),
            Language::Python => str_eq(kind, "function_definition"),
            Language::Go => str_eq(kind, "function_declaration") || str_eq(
                kind,
                "method_declaration",
            ),
            Language::Unknown => false,
        }
    }

    /// Whether `kind` is this language's parameter-list node.
    pub fn param_list_kind(&self, kind: &str) -> (r: bool)
        ensures
            r == is_param_list_kind(*self, kind@),
    {
        match self {
            Language::Rust => str_eq(kind, "parameters"),
            Language::JavaScript | Language::TypeScript => str_eq(kind, "formal_parameters"),
            Language::Python => str_eq(kind, "parameters") || str_eq(kind, "lambda_parameters"),
            Language::Go => str_eq(kind, "parameter_list"),
            Language::Unknown => false,
        }
    }

    /// Whether a parameter-list child of kind `kind` is an actual parameter.
    pub fn param_kind(&self, kind: &str) -> (r: bool)
        ensures
            r == is_param_kind(*self, kind@),
    {
        match self {
            Language::Rust => str_eq(kind, "parameter") || str_eq(kind, "self_parameter")
                || str_eq(kind, "variadic_parameter"),
            Language::JavaScript | Language::TypeScript => str_eq(kind, "identifier") || str_eq(
                kind,
                "assignment_pattern",
            ) || str_eq(kind, "rest_pattern") || str_eq(kind, "object_pattern") || str_eq(
                kind,
                "array_pattern",
            ) || str_eq(kind, "required_parameter") || str_eq(kind, "optional_parameter"),
            Language::Python => str_eq(kind, "identifier") || str_eq(kind, "typed_parameter")
                || str_eq(kind, "default_parameter") || str_eq(kind, "typed_default_parameter")
                || str_eq(kind, "list_splat_pattern") || str_eq(kind, "dictionary_splat_pattern"),
            Language::Go => str_eq(kind, "parameter_declaration") || str_eq(
                kind,
                "variadic_parameter_declaration",
            ),
            Language::Unknown => false,
        }
    }

    /// Whether `kind` is a call expression.
    pub fn call_kind(&self, kind: &str) -> (r: bool)
        ensures
            r == is_call_kind(*self, kind@),
    {
        match self {
            Language::Rust | Language::JavaScript | Language::TypeScript | Language::Go => str_eq(
                kind,
                "call_expression",
            ),
            Language::Python => str_eq(kind, "call"),
            Language::Unknown => false,
        }
    }

    /// Whether `kind` is this language's asynchrony marker token.
    pub fn async_kind(&self, kind: &str) -> (r: bool)
        ensures
            r == is_async_kind(*self, kind@),
    {
        match self {
            Language::Rust | Language::JavaScript | Language::TypeScript | Language::Python =>
                str_eq(kind, "async"),
            Language::Go | Language::Unknown => false,
        }
    }

    /// Whether `kind` defines a named type.
    pub fn type_kind(&self, kind: &str) -> (r: bool)
        ensures
            r == is_type_kind(*self, kind@),
    {
        match self {
            Language::Rust => str_eq(kind, "struct_item") || str_eq(kind, "enum_item") || str_eq(
                kind,
                "trait_item",
            ),
            Language::JavaScript | Language::TypeScript => str_eq(kind, "class_declaration")
                || str_eq(kind, "interface_declaration"),
            Language::Python => str_eq(kind, "class_definition"),
            Language::Go => str_eq(kind, "type_spec"),
            Language::Unknown => false,
        }
    }

    /// Whether `kind` declares an import.
    pub fn import_kind(&self, kind: &str) -> (r: bool)
        ensures
            r == is_import_kind(*self, kind@),
    {
        match self {
            Language::Rust => str_eq(kind, "use_declaration"),
            Language::JavaScript | Language::TypeScript => str_eq(kind, "import_statement"),
            Language::Python => str_eq(kind, "import_statement") || str_eq(
                kind,
                "import_from_statement",
            ),
            Language::Go => str_eq(kind, "import_spec"),
            Language::Unknown => false,
        }
    }
}

} // verus!
