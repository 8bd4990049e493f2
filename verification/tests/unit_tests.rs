//! Unit tests of the smaller pieces: language detection, path handling,
//! rendering helpers, the quality-gate model and the example domain.

use codemetrics::analysis::path_extension;
use codemetrics::charts::{format_percentage, truncate_string, u64_to_dec};
use codemetrics::ci::{combine_status, evaluate_gate, ComparisonOperator, QualityStatus};
use codemetrics::engine::{extract_types, SupportedLanguage};
use codemetrics::extract::extract_functions;
use codemetrics::graph::{module_id, resolve_import};
use codemetrics::analysis::{analyze_project, AnalysisConfig, SourceFile};
use codemetrics::cli::{IssueCategory, IssueSeverity};
use codemetrics::clusters::detect_clusters;
use codemetrics::extract::FunctionAnalysis;
use codemetrics::hotspot::{
    detect_issues, find_file_hotspots, find_hotspots, summarize_hotspots, ComplexityHotspot,
    FunctionInfo, HotspotAnalyzer, HotspotSeverity, HotspotType, Severity,
};
use codemetrics::imports::extract_imports_exports;
use codemetrics::lang::Language;
use codemetrics::parse::parse_unit;
use codemetrics::samples::{fibonacci, greet, Customer, OrderSummary, UserService};
use codemetrics::score::RankedFunction;

#[test]
fn language_detection_by_extension() {
    assert_eq!(Language::from_extension("rs"), Language::Rust);
    assert_eq!(Language::from_extension("RS"), Language::Rust);
    assert_eq!(Language::from_extension("js"), Language::JavaScript);
    assert_eq!(Language::from_extension("jsx"), Language::JavaScript);
    assert_eq!(Language::from_extension("mjs"), Language::JavaScript);
    assert_eq!(Language::from_extension("ts"), Language::TypeScript);
    assert_eq!(Language::from_extension("tsx"), Language::TypeScript);
    assert_eq!(Language::from_extension("py"), Language::Python);
    assert_eq!(Language::from_extension("pyi"), Language::Python);
    assert_eq!(Language::from_extension("go"), Language::Go);
    assert_eq!(Language::from_extension("bin"), Language::Unknown);
    assert_eq!(Language::from_extension(""), Language::Unknown);
}

#[test]
fn extensions_round_trip_to_their_language() {
    for lang in [
        Language::Rust,
        Language::JavaScript,
        Language::TypeScript,
        Language::Python,
        Language::Go,
    ] {
        let exts = lang.extensions();
        assert!(!exts.is_empty());
        for ext in exts {
            assert_eq!(Language::from_extension(ext), lang);
        }
    }
    assert!(Language::Unknown.extensions().is_empty());
}

#[test]
fn supported_language_detection() {
    assert_eq!(SupportedLanguage::from_extension("rs"), Some(SupportedLanguage::Rust));
    assert_eq!(SupportedLanguage::from_extension("ts"), Some(SupportedLanguage::JavaScript));
    assert_eq!(SupportedLanguage::from_extension("pyx"), Some(SupportedLanguage::Python));
    assert_eq!(SupportedLanguage::from_extension("go"), Some(SupportedLanguage::Go));
    assert_eq!(SupportedLanguage::from_extension("java"), None);
    let patterns = SupportedLanguage::Rust.get_query_patterns();
    assert!(patterns.functions.contains("function_item"));
    assert!(patterns.complexity_nodes.contains("if_expression"));
}

#[test]
fn path_extension_reads_the_last_dot() {
    assert_eq!(path_extension("src/main.rs"), "rs");
    assert_eq!(path_extension("archive.tar.gz"), "gz");
    assert_eq!(path_extension("no_extension"), "");
    assert_eq!(path_extension("dir.with.dots/file.py"), "py");
}

#[test]
fn module_ids_follow_language_conventions() {
    assert_eq!(module_id(&Language::Rust, "src/parser.rs"), "src::parser");
    assert_eq!(module_id(&Language::JavaScript, "lib/util.js"), "lib::util");
    assert_eq!(module_id(&Language::Python, "pkg/mod.py"), "pkg.mod");
    assert_eq!(module_id(&Language::Go, "cmd/main.go"), "cmd/main.go");
}

#[test]
fn import_resolution_strips_internal_prefixes() {
    assert_eq!(resolve_import(&Language::Rust, "crate::util"), "util");
    assert_eq!(resolve_import(&Language::Rust, "super::types"), "types");
    assert_eq!(resolve_import(&Language::Rust, "self::inner"), "inner");
    assert_eq!(resolve_import(&Language::JavaScript, "./util.js"), "util");
    assert_eq!(resolve_import(&Language::JavaScript, "../lib/helper"), "lib::helper");
    assert_eq!(resolve_import(&Language::Python, ".sibling"), "sibling");
}

#[test]
fn imports_are_read_with_their_symbols() {
    let js = "import def from './main';\nimport { a, b } from './named';\nimport './side';\n";
    let unit = parse_unit(&Language::JavaScript, "m.js".to_string(), js).unwrap();
    let iex = extract_imports_exports(&Language::JavaScript, &unit.root);
    assert_eq!(iex.imports.len(), 3);
    assert_eq!(iex.imports[0].module, "./main");
    assert!(iex.imports[0].is_default);
    assert_eq!(iex.imports[1].module, "./named");
    assert_eq!(iex.imports[1].imported_names, vec!["a".to_string(), "b".to_string()]);
    assert!(!iex.imports[1].is_default);
    assert_eq!(iex.imports[2].module, "./side");
    assert!(iex.imports[2].imported_names.is_empty());

    let py = "from os import path, sep\nimport json\n";
    let unit = parse_unit(&Language::Python, "m.py".to_string(), py).unwrap();
    let iex = extract_imports_exports(&Language::Python, &unit.root);
    assert_eq!(iex.imports.len(), 2);
    assert_eq!(iex.imports[0].module, "os");
    assert_eq!(iex.imports[0].imported_names, vec!["path".to_string(), "sep".to_string()]);
    assert_eq!(iex.imports[1].module, "json");
}

#[test]
fn rust_exports_are_the_public_items() {
    let src = "pub fn visible() {}\nfn hidden() {}\npub struct Thing;\n";
    let unit = parse_unit(&Language::Rust, "m.rs".to_string(), src).unwrap();
    let iex = extract_imports_exports(&Language::Rust, &unit.root);
    let names: Vec<&str> = iex.exports.iter().map(|e| e.name.as_str()).collect();
    assert_eq!(names, vec!["visible", "Thing"]);
}

#[test]
fn decimal_rendering_is_exact() {
    assert_eq!(u64_to_dec(0), "0");
    assert_eq!(u64_to_dec(7), "7");
    assert_eq!(u64_to_dec(12345), "12345");
    assert_eq!(u64_to_dec(u64::MAX), "18446744073709551615");
}

#[test]
fn percentages_are_rendered_in_tenths() {
    assert_eq!(format_percentage(1, 3), "33.3%");
    assert_eq!(format_percentage(0, 4), "0.0%");
    assert_eq!(format_percentage(4, 4), "100.0%");
    assert_eq!(format_percentage(0, 0), "0.0%");
}

#[test]
fn truncation_pads_and_cuts() {
    assert_eq!(truncate_string("hello", 8), "hello   ");
    assert_eq!(truncate_string("hello world", 5), "hell\u{2026}");
    assert_eq!(truncate_string("abc", 3), "abc");
}

#[test]
fn quality_gates_compare_and_combine() {
    assert_eq!(evaluate_gate(&ComparisonOperator::LessThan, 5, 10), QualityStatus::Pass);
    assert_eq!(evaluate_gate(&ComparisonOperator::LessThan, 10, 10), QualityStatus::Fail);
    assert_eq!(evaluate_gate(&ComparisonOperator::GreaterThanOrEqual, 10, 10), QualityStatus::Pass);
    assert_eq!(evaluate_gate(&ComparisonOperator::Equal, 3, 4), QualityStatus::Fail);
    assert_eq!(
        combine_status(QualityStatus::Pass, QualityStatus::Warning),
        QualityStatus::Warning
    );
    assert_eq!(combine_status(QualityStatus::Warning, QualityStatus::Fail), QualityStatus::Fail);
    assert_eq!(combine_status(QualityStatus::Pass, QualityStatus::Pass), QualityStatus::Pass);
}

#[test]
fn hotspots_are_flagged_over_the_threshold() {
    let src = "fn hot(x: i32) -> i32 { if x > 0 { if x > 1 { if x > 2 { 1 } else { 2 } } else { 3 } } else { 4 } }\nfn cool() {}\n";
    let unit = parse_unit(&Language::Rust, "h.rs".to_string(), src).unwrap();
    let fns = extract_functions(&Language::Rust, &unit.root, &unit.lines);
    let pool: Vec<RankedFunction> = fns
        .into_iter()
        .map(|f| RankedFunction { file_path: "h.rs".to_string(), function: f })
        .collect();
    let spots = find_hotspots(&pool, 2);
    assert_eq!(spots.len(), 1);
    assert_eq!(spots[0].function_name, "hot");
    assert_eq!(spots[0].complexity, 4);
    assert_eq!(spots[0].severity, HotspotSeverity::Low);
    assert!(find_hotspots(&pool, 10).is_empty());
}

#[test]
fn parameter_estimation_follows_naming() {
    let analyzer = HotspotAnalyzer::with_thresholds(10, 50, 4, 5);
    let ctor = FunctionInfo { name: "create_widget".to_string(), line_number: 1, complexity: 5 };
    let setter = FunctionInfo { name: "set_width".to_string(), line_number: 1, complexity: 0 };
    let handler = FunctionInfo { name: "handleClick".to_string(), line_number: 1, complexity: 0 };
    assert_eq!(analyzer.estimate_parameter_count(&ctor, "rust"), 4);
    assert_eq!(analyzer.estimate_parameter_count(&setter, "rust"), 2);
    assert_eq!(analyzer.estimate_parameter_count(&handler, "javascript"), 4);
    assert_eq!(analyzer.estimate_parameter_count(&setter, "go"), 2);
}

#[test]
fn greeting_and_fibonacci() {
    assert_eq!(greet("World"), "Hello, World!");
    assert_eq!(fibonacci(0), 0);
    assert_eq!(fibonacci(1), 1);
    assert_eq!(fibonacci(2), 1);
    assert_eq!(fibonacci(10), 55);
    assert_eq!(fibonacci(20), 6765);
}

#[test]
fn order_summary_counts_events() {
    let mut summary = OrderSummary::new();
    summary.add_processing_order();
    summary.add_shipped_order();
    summary.add_shipped_order();
    summary.add_express_shipment();
    summary.add_delivered_order();
    summary.add_satisfied_customer();
    summary.add_refunded_order();
    summary.add_quality_issue();
    assert_eq!(summary.processing_orders, 1);
    assert_eq!(summary.shipped_orders, 2);
    assert_eq!(summary.express_shipments, 1);
    assert_eq!(summary.delivered_orders, 1);
    assert_eq!(summary.satisfied_customers, 1);
    assert_eq!(summary.refunded_orders, 1);
    assert_eq!(summary.quality_issues, 1);
    assert_eq!(summary.cancelled_orders, 0);
    assert_eq!(summary.book_orders, 0);
}

#[test]
fn customers_report_their_standing() {
    let customer = Customer {
        email: "a@example.com".to_string(),
        premium: true,
        satisfaction: Some(4),
    };
    assert!(customer.is_premium());
    assert_eq!(customer.satisfaction_rating(), Some(4));

    let service = UserService::new();
    assert!(service.users.is_empty());
}

fn plain_function(name: &str, complexity: u64, params: u64, loc: u64, nesting: u64) -> FunctionAnalysis {
    FunctionAnalysis {
        name: name.to_string(),
        start_line: 3,
        end_line: 9,
        parameter_count: params,
        cyclomatic_complexity: complexity,
        nesting_depth: nesting,
        lines_of_code: loc,
        is_async: false,
        is_recursive: false,
        calls: Vec::new(),
    }
}

#[test]
fn issues_are_flagged_per_threshold() {
    let quiet = plain_function("tidy", 3, 2, 10, 1);
    assert!(detect_issues(&quiet).is_empty());

    let noisy = plain_function("monster", 16, 8, 51, 6);
    let issues = detect_issues(&noisy);
    assert_eq!(issues.len(), 4);
    assert_eq!(issues[0].severity, IssueSeverity::Warning);
    assert_eq!(issues[0].category, IssueCategory::Complexity);
    assert!(issues[0].message.contains("monster"));
    assert!(issues[0].message.contains("cyclomatic"));
    assert_eq!(issues[1].category, IssueCategory::Maintainability);
    assert_eq!(issues[2].severity, IssueSeverity::Info);
    assert!(issues[3].message.contains("nesting"));
    assert_eq!(issues[3].line, 3);

    let long_only = plain_function("verbose", 1, 0, 80, 0);
    let issues = detect_issues(&long_only);
    assert_eq!(issues.len(), 1);
    assert_eq!(issues[0].severity, IssueSeverity::Info);
}

#[test]
fn file_hotspots_follow_size_tiers() {
    assert!(find_file_hotspots("small.rs", 120, 4).is_empty());

    let spots = find_file_hotspots("big.rs", 800, 25);
    assert_eq!(spots.len(), 2);
    assert_eq!(spots[0].severity, Severity::Medium);
    assert_eq!(spots[0].hotspot_type, HotspotType::LowCohesion);
    assert_eq!(spots[0].line_end, 800);
    assert_eq!(spots[1].severity, Severity::Medium);

    let huge = find_file_hotspots("huge.rs", 1500, 3);
    assert_eq!(huge.len(), 1);
    assert_eq!(huge[0].severity, Severity::High);
}

#[test]
fn hotspot_summary_counts_severities() {
    let spot = |c: u64, sev: HotspotSeverity| ComplexityHotspot {
        function_name: "f".to_string(),
        file_path: "a.rs".to_string(),
        complexity: c,
        line_number: 1,
        severity: sev,
    };
    let spots = vec![
        spot(25, HotspotSeverity::Critical),
        spot(18, HotspotSeverity::High),
        spot(18, HotspotSeverity::High),
        spot(12, HotspotSeverity::Medium),
        spot(4, HotspotSeverity::Low),
    ];
    let summary = summarize_hotspots(&spots);
    assert_eq!(summary.total_hotspots, 5);
    assert_eq!(summary.critical_count, 1);
    assert_eq!(summary.high_count, 2);
    assert_eq!(summary.medium_count, 1);
    assert_eq!(summary.low_count, 1);
}

#[test]
fn clusters_group_modules_by_directory() {
    let files = vec![
        SourceFile {
            path: "core/a.rs".to_string(),
            source: "use crate::core::b;
".to_string(),
        },
        SourceFile { path: "core/b.rs".to_string(), source: "pub fn lib() {}
".to_string() },
        SourceFile { path: "lone/c.rs".to_string(), source: "fn c() {}
".to_string() },
    ];
    let results = analyze_project(&files, &AnalysisConfig::default());
    let clusters = detect_clusters(&results.dependency_graph);
    assert_eq!(clusters.len(), 1);
    assert_eq!(clusters[0].name, "core");
    assert_eq!(clusters[0].nodes, vec!["core::a".to_string(), "core::b".to_string()]);
    assert_eq!(clusters[0].internal_edges, 1);
    assert_eq!(clusters[0].external_edges, 0);
    assert_eq!(clusters[0].cohesion_ratio(), (1, 1));
}

#[test]
fn duplicate_module_ids_yield_one_node() {
    let files = vec![
        SourceFile { path: "util.rs".to_string(), source: "fn a() {}
".to_string() },
        SourceFile { path: "util.js".to_string(), source: "function b() {}
".to_string() },
    ];
    let results = analyze_project(&files, &AnalysisConfig::default());
    assert_eq!(results.files_analyzed, 2);
    assert_eq!(results.dependency_graph.nodes.len(), 1);
    assert_eq!(results.dependency_graph.nodes[0].id, "util");
    assert_eq!(results.dependency_graph.nodes[0].file_path, "util.rs");
}

#[test]
fn type_definitions_are_extracted() {
    let src = "pub struct Point { x: i64, y: i64 }\nenum Shape { Dot, Line }\nfn helper() {}\n";
    let unit = parse_unit(&Language::Rust, "t.rs".to_string(), src).unwrap();
    let types = extract_types(&Language::Rust, &unit.root);
    assert_eq!(types.len(), 2);
    assert_eq!(types[0].name, "Point");
    assert_eq!(types[0].kind, "struct_item");
    assert_eq!(types[0].fields, vec!["x".to_string(), "y".to_string()]);
    assert_eq!(types[1].name, "Shape");
    assert_eq!(types[1].kind, "enum_item");

    let py = "class Widget:\n    def draw(self):\n        pass\n";
    let unit = parse_unit(&Language::Python, "t.py".to_string(), py).unwrap();
    let types = extract_types(&Language::Python, &unit.root);
    assert_eq!(types.len(), 1);
    assert_eq!(types[0].name, "Widget");
    assert_eq!(types[0].kind, "class_definition");
}
