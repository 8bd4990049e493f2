//! End-to-end tests of the analysis pipeline: parsing, metrics, the
//! dependency graph, cycle detection and aggregation.

use codemetrics::analysis::{analyze_project, AnalysisConfig, SourceFile};
use codemetrics::cycles::CycleSeverity;
use codemetrics::graph::ImportType;
use codemetrics::extract::extract_functions;
use codemetrics::lang::Language;
use codemetrics::metrics::calculate_complexity;
use codemetrics::parse::parse_unit;

fn file(path: &str, source: &str) -> SourceFile {
    SourceFile { path: path.to_string(), source: source.to_string() }
}

fn config() -> AnalysisConfig {
    AnalysisConfig::default()
}

#[test]
fn baseline_complexity_is_one() {
    let src = "fn simple() -> i32 { 41 + 1 }\n";
    let unit = parse_unit(&Language::Rust, "s.rs".to_string(), src).unwrap();
    let fns = extract_functions(&Language::Rust, &unit.root, &unit.lines);
    assert_eq!(fns.len(), 1);
    assert_eq!(fns[0].cyclomatic_complexity, 1);
    assert_eq!(fns[0].nesting_depth, 0);
}

#[test]
fn one_more_if_adds_exactly_one() {
    let before = "fn f(x: i32) -> i32 { if x > 0 { 1 } else { 0 } }\n";
    let after = "fn f(x: i32) -> i32 { if x > 1 { 2 } else { 0 }; if x > 0 { 1 } else { 0 } }\n";
    let ub = parse_unit(&Language::Rust, "b.rs".to_string(), before).unwrap();
    let ua = parse_unit(&Language::Rust, "a.rs".to_string(), after).unwrap();
    let fb = extract_functions(&Language::Rust, &ub.root, &ub.lines);
    let fa = extract_functions(&Language::Rust, &ua.root, &ua.lines);
    assert_eq!(fa[0].cyclomatic_complexity, fb[0].cyclomatic_complexity + 1);
}

#[test]
fn nested_ifs_report_their_depth() {
    let src = "fn f(x: i32) -> i32 { if x > 0 { if x > 1 { if x > 2 { 3 } else { 2 } } else { 1 } } else { 0 } }\n";
    let unit = parse_unit(&Language::Rust, "n.rs".to_string(), src).unwrap();
    let fns = extract_functions(&Language::Rust, &unit.root, &unit.lines);
    assert_eq!(fns.len(), 1);
    assert_eq!(fns[0].nesting_depth, 3);
}

#[test]
fn concrete_rust_snippet_complexity_and_nesting() {
    let src = "fn f(x: i32) -> i32 { if x > 0 { if x > 10 { x } else { 0 } } else { -x } }";
    let unit = parse_unit(&Language::Rust, "f.rs".to_string(), src).unwrap();
    let fns = extract_functions(&Language::Rust, &unit.root, &unit.lines);
    assert_eq!(fns.len(), 1);
    assert_eq!(fns[0].name, "f");
    assert_eq!(fns[0].cyclomatic_complexity, 3);
    assert_eq!(fns[0].nesting_depth, 2);

    let metrics = calculate_complexity(&Language::Rust, &unit.root);
    assert_eq!(metrics.cyclomatic, 3);
    assert_eq!(metrics.nesting_depth, 2);
}

#[test]
fn analyzing_twice_yields_identical_records() {
    let src = "fn f(x: i32) -> i32 { if x > 0 { g(x) } else { f(x + 1) } }\nfn g(x: i32) -> i32 { x }\n";
    let u1 = parse_unit(&Language::Rust, "i.rs".to_string(), src).unwrap();
    let u2 = parse_unit(&Language::Rust, "i.rs".to_string(), src).unwrap();
    let f1 = extract_functions(&Language::Rust, &u1.root, &u1.lines);
    let f2 = extract_functions(&Language::Rust, &u2.root, &u2.lines);
    assert_eq!(f1, f2);
    assert_eq!(f1[0].calls, vec!["g".to_string(), "f".to_string()]);
    assert!(f1[0].is_recursive);
    assert!(!f1[1].is_recursive);
}

#[test]
fn async_marker_is_detected() {
    let src = "async fn fetch_all() {}\nfn plain() {}\n";
    let unit = parse_unit(&Language::Rust, "a.rs".to_string(), src).unwrap();
    let fns = extract_functions(&Language::Rust, &unit.root, &unit.lines);
    assert_eq!(fns.len(), 2);
    assert!(fns[0].is_async);
    assert!(!fns[1].is_async);
}

#[test]
fn three_node_cycle_is_reported_once_as_medium() {
    let files = vec![
        file("a.js", "import './b';\n"),
        file("b.js", "import './c';\n"),
        file("c.js", "import './a';\n"),
    ];
    let results = analyze_project(&files, &config());
    assert_eq!(results.dependency_graph.nodes.len(), 3);
    assert_eq!(results.dependency_graph.edges.len(), 3);
    assert_eq!(results.circular_dependencies.len(), 1);
    let cycle = &results.circular_dependencies[0];
    assert_eq!(cycle.cycle.len(), 3);
    assert!(matches!(cycle.severity, CycleSeverity::Medium));
}

#[test]
fn self_import_is_a_low_cycle() {
    let files = vec![file("a.rs", "use crate::a;\n")];
    let results = analyze_project(&files, &config());
    assert_eq!(results.circular_dependencies.len(), 1);
    let cycle = &results.circular_dependencies[0];
    assert_eq!(cycle.cycle.len(), 1);
    assert!(matches!(cycle.severity, CycleSeverity::Low));
}

#[test]
fn two_rust_files_form_a_low_cycle() {
    let files = vec![file("a.rs", "use crate::b;\n"), file("b.rs", "use crate::a;\n")];
    let results = analyze_project(&files, &config());
    assert_eq!(results.circular_dependencies.len(), 1);
    let cycle = &results.circular_dependencies[0];
    assert_eq!(cycle.cycle.len(), 2);
    assert!(matches!(cycle.severity, CycleSeverity::Low));
    let mut ids = cycle.cycle.clone();
    ids.sort();
    assert_eq!(ids, vec!["a".to_string(), "b".to_string()]);
}

#[test]
fn resolved_import_yields_edge_and_unresolved_yields_none() {
    let files = vec![
        file("a.rs", "use crate::b;\nuse crate::missing;\nuse serde;\n"),
        file("b.rs", "pub fn helper() {}\n"),
    ];
    let results = analyze_project(&files, &config());
    // The external import is tallied, not resolved.
    assert_eq!(results.external_dependencies, vec![("serde".to_string(), 1)]);
    assert_eq!(results.dependency_graph.edges.len(), 1);
    let edge = &results.dependency_graph.edges[0];
    assert_eq!(edge.from, "a");
    assert_eq!(edge.to, "b");
    // No cycles in a one-way graph.
    assert_eq!(results.circular_dependencies.len(), 0);
}

#[test]
fn coupling_counts_degrees() {
    let files = vec![
        file("a.rs", "use crate::b;\n"),
        file("b.rs", "pub struct Core;\n"),
    ];
    let results = analyze_project(&files, &config());
    assert_eq!(results.module_coupling.len(), 2);
    let a = &results.module_coupling[0];
    let b = &results.module_coupling[1];
    assert_eq!(a.module_name, "a");
    assert_eq!(a.efferent_coupling, 1);
    assert_eq!(a.afferent_coupling, 0);
    assert_eq!(a.instability_ratio(), (1, 1));
    assert_eq!(b.module_name, "b");
    assert_eq!(b.efferent_coupling, 0);
    assert_eq!(b.afferent_coupling, 1);
    assert_eq!(b.instability_ratio(), (0, 1));
}

#[test]
fn unused_rust_export_is_reported() {
    let files = vec![
        file("a.rs", "pub fn lonely() {}\n"),
        file("b.rs", "fn private_helper() {}\n"),
    ];
    let results = analyze_project(&files, &config());
    assert_eq!(results.unused_exports.len(), 1);
    assert_eq!(results.unused_exports[0].module_name, "a");
    assert_eq!(results.unused_exports[0].export_name, "lonely");
}

#[test]
fn synthetic_file_has_exact_mean_and_histogram() {
    // 500 functions whose complexities are uniformly spread over 1..=20.
    let mut src = String::new();
    for i in 0..500 {
        let ifs = i % 20;
        src.push_str(&format!("fn f{}(x: i64) -> i64 {{\n    let mut y = 0;\n", i));
        for j in 0..ifs {
            src.push_str(&format!("    if x > {} {{ y += 1; }}\n", j));
        }
        src.push_str("    y\n}\n");
    }
    let files = vec![file("synthetic.rs", &src)];
    let results = analyze_project(&files, &config());
    assert_eq!(results.files_analyzed, 1);
    assert_eq!(results.total_functions, 500);

    // The arithmetic mean of 25 each of 1..=20 is 10.5.
    let (num, den) = results.average_complexity_ratio();
    let mean = num as f64 / den as f64;
    assert!((mean - 10.5).abs() < 1e-9);

    // The histogram has one bucket per complexity value and sums to 500.
    assert_eq!(results.complexity_histogram.len(), 20);
    let total: u64 = results.complexity_histogram.iter().map(|e| e.1).sum();
    assert_eq!(total, 500);
    for entry in &results.complexity_histogram {
        assert_eq!(entry.1, 25);
    }

    // The ranking is by complexity descending.
    let top = &results.top_functions;
    assert_eq!(top.len(), 500);
    assert_eq!(top[0].function.cyclomatic_complexity, 20);
    for w in top.windows(2) {
        assert!(w[0].function.cyclomatic_complexity >= w[1].function.cyclomatic_complexity);
    }
}

#[test]
fn unsupported_extension_is_a_soft_error() {
    let files = vec![file("data.bin", "\u{0}\u{1}\u{2} not source code")];
    let results = analyze_project(&files, &config());
    assert_eq!(results.files_analyzed, 0);
    assert_eq!(results.total_functions, 0);
    assert_eq!(results.errors.len(), 1);
    assert!(results.errors[0].contains("data.bin"));
    assert!(results.errors[0].contains("unsupported file type"));
    for stats in &results.language_breakdown {
        assert_eq!(stats.files, 0);
        assert_eq!(stats.functions, 0);
    }
}

#[test]
fn oversized_file_is_skipped_with_an_error() {
    let mut c = config();
    c.max_file_size = 10;
    let files = vec![file("big.rs", "fn f() {}\nfn g() {}\n")];
    let results = analyze_project(&files, &c);
    assert_eq!(results.files_analyzed, 0);
    assert_eq!(results.errors.len(), 1);
    assert!(results.errors[0].contains("size limit"));
}

#[test]
fn mixed_batch_analyzes_what_it_can() {
    let files = vec![
        file("ok.rs", "fn f() {}\n"),
        file("notes.txt", "hello"),
        file("ok.py", "def g():\n    return 1\n"),
    ];
    let results = analyze_project(&files, &config());
    assert_eq!(results.files_analyzed, 2);
    assert_eq!(results.total_functions, 2);
    assert_eq!(results.errors.len(), 1);
    let rust = &results.language_breakdown[0];
    assert!(matches!(rust.language, Language::Rust));
    assert_eq!(rust.files, 1);
    let python = &results.language_breakdown[3];
    assert!(matches!(python.language, Language::Python));
    assert_eq!(python.functions, 1);
}

#[test]
fn python_and_javascript_functions_are_extracted() {
    let py = "def outer(a, b):\n    if a:\n        return b\n    return a\n";
    let unit = parse_unit(&Language::Python, "m.py".to_string(), py).unwrap();
    let fns = extract_functions(&Language::Python, &unit.root, &unit.lines);
    assert_eq!(fns.len(), 1);
    assert_eq!(fns[0].name, "outer");
    assert_eq!(fns[0].parameter_count, 2);
    assert_eq!(fns[0].cyclomatic_complexity, 2);

    let js = "function add(a, b) { return a + b; }\n";
    let unit = parse_unit(&Language::JavaScript, "m.js".to_string(), js).unwrap();
    let fns = extract_functions(&Language::JavaScript, &unit.root, &unit.lines);
    assert_eq!(fns.len(), 1);
    assert_eq!(fns[0].name, "add");
    assert_eq!(fns[0].parameter_count, 2);
}

#[test]
fn typescript_and_go_are_parsed() {
    let ts = "function twice(n: number): number { if (n > 0) { return 2 * n; } return 0; }\n";
    let unit = parse_unit(&Language::TypeScript, "m.ts".to_string(), ts).unwrap();
    let fns = extract_functions(&Language::TypeScript, &unit.root, &unit.lines);
    assert_eq!(fns.len(), 1);
    assert_eq!(fns[0].name, "twice");
    assert_eq!(fns[0].cyclomatic_complexity, 2);

    let go = "package main\nfunc classify(n int) int {\n\tif n > 0 {\n\t\treturn 1\n\t}\n\treturn 0\n}\n";
    let unit = parse_unit(&Language::Go, "m.go".to_string(), go).unwrap();
    let fns = extract_functions(&Language::Go, &unit.root, &unit.lines);
    assert_eq!(fns.len(), 1);
    assert_eq!(fns[0].name, "classify");
    assert_eq!(fns[0].cyclomatic_complexity, 2);
}

#[test]
fn import_kinds_are_classified_on_edges() {
    let files = vec![
        file("a.js", "import def from './hub';\nimport { one } from './hub';\nimport './hub';\n"),
        file("hub.js", "export const one = 1;\n"),
    ];
    let results = analyze_project(&files, &config());
    let kinds: Vec<ImportType> =
        results.dependency_graph.edges.iter().map(|e| e.import_type).collect();
    assert_eq!(kinds, vec![ImportType::Default, ImportType::Named, ImportType::Namespace]);
    assert_eq!(results.dependency_graph.edges[1].imported_symbols, vec!["one".to_string()]);
}

#[test]
fn lines_of_code_skip_blanks_and_comments() {
    let src = "fn f() {\n    // a comment\n\n    let x = 1;\n    let y = 2;\n}\n";
    let unit = parse_unit(&Language::Rust, "l.rs".to_string(), src).unwrap();
    let fns = extract_functions(&Language::Rust, &unit.root, &unit.lines);
    assert_eq!(fns.len(), 1);
    // fn line, two lets, closing brace: the comment and the blank do not count.
    assert_eq!(fns[0].lines_of_code, 4);
}
