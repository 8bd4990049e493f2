//! Tests of the command-line options, the hotspot estimators, the chart
//! renderers, the CI gate model and dependency classification.

use codemetrics::charts::{
    generate_bar_chart, generate_complexity_chart, generate_histogram, generate_summary_box,
};
use codemetrics::ci::{BaselineConfig, NotificationConfig, QualityMetric, ReportFormat};
use codemetrics::cli::{Args, OutputFormat};
use codemetrics::extract::extract_functions;
use codemetrics::graph::DependencyAnalyzer;
use codemetrics::hotspot::{FunctionInfo, HotspotAnalyzer};
use codemetrics::lang::Language;
use codemetrics::parse::parse_unit;
use codemetrics::report::RecommendationsEngine;

fn base_args() -> Args {
    Args {
        path: String::from("."),
        format: OutputFormat::Terminal,
        output: None,
        metrics: None,
        complexity_threshold: 10,
        include_tests: false,
        progress: false,
        verbose: false,
    }
}

#[test]
fn test_args_validation() {
    let valid_args = base_args();
    assert!(valid_args.validate(true, true).is_ok());

    let invalid_args = Args { path: String::from("/nonexistent/path"), ..base_args() };
    assert!(invalid_args.validate(false, false).is_err());
}

#[test]
fn test_metrics_parsing() {
    let args = Args { metrics: Some(String::from("complexity,duplication")), ..base_args() };
    let parsed = args.parse_metrics();
    assert_eq!(parsed, vec!["complexity".to_string(), "duplication".to_string()]);

    let default_args = Args { metrics: None, ..base_args() };
    let default_parsed = default_args.parse_metrics();
    assert_eq!(
        default_parsed,
        vec!["complexity".to_string(), "duplication".to_string(), "dependencies".to_string()]
    );
}

#[test]
fn test_hotspot_analyzer_creation() {
    let analyzer = HotspotAnalyzer::new();
    assert_eq!(analyzer.complexity_threshold, 10);
}

#[test]
fn test_function_line_estimation() {
    let analyzer = HotspotAnalyzer::new();
    let function =
        FunctionInfo { name: "test_function".to_string(), line_number: 1, complexity: 15 };

    let estimated_lines = analyzer.estimate_function_lines(&function);
    assert!(estimated_lines > 20);
}

#[test]
fn test_recommendations_engine_creation() {
    let engine = RecommendationsEngine::new();
    assert!(engine.knowledge_base.complexity_patterns.is_empty());
}

#[test]
fn test_ci_config_loading() {
    let notify = NotificationConfig {
        slack_webhook: None,
        github_status: true,
        email_recipients: Vec::new(),
        summary_format: ReportFormat::Markdown,
    };
    let baseline = BaselineConfig {
        store_baseline: false,
        baseline_path: String::from("baseline.json"),
        comparison_metrics: vec![QualityMetric::CyclomaticComplexity],
    };
    assert!(notify.github_status);
    assert!(!baseline.store_baseline);
    assert_eq!(baseline.comparison_metrics.len(), 1);
}

#[test]
fn test_bar_chart_generation() {
    let data = vec![
        ("Rust".to_string(), 10u64),
        ("JavaScript".to_string(), 5u64),
        ("Python".to_string(), 3u64),
    ];

    let chart = generate_bar_chart(&data, "Language Usage", 50);

    assert!(chart.contains("Rust"));
    assert!(chart.contains("JavaScript"));
    assert!(chart.contains("Python"));
    assert!(chart.contains("Language Usage"));
}

#[test]
fn test_complexity_chart_generation() {
    let complexities = vec![
        ("function1".to_string(), 15u64),
        ("function2".to_string(), 8u64),
        ("function3".to_string(), 3u64),
    ];

    let chart = generate_complexity_chart(&complexities, 60);

    assert!(chart.contains("function1"));
    assert!(chart.contains("\u{1f534}")); // High complexity indicator
    assert!(chart.contains("\u{1f7e1}")); // Medium complexity indicator
    assert!(chart.contains("\u{1f7e2}")); // Low complexity indicator
}

#[test]
fn test_histogram_generation() {
    let values = vec![1, 2, 2, 3, 3, 3, 4, 4, 5];
    let histogram = generate_histogram(&values, "Value Distribution", 5, 40);

    assert!(histogram.contains("Value Distribution"));
    assert!(histogram.contains("\u{2588}"));
}

#[test]
fn test_summary_box_generation() {
    let metrics = vec![
        ("Files".to_string(), "42".to_string()),
        ("Complexity".to_string(), "156".to_string()),
        ("Issues".to_string(), "3".to_string()),
    ];

    let box_output = generate_summary_box(&metrics, "Project Summary");

    assert!(box_output.contains("Project Summary"));
    assert!(box_output.contains("Files"));
    assert!(box_output.contains("42"));
    assert!(box_output.contains("\u{250c}")); // Box drawing characters
    assert!(box_output.contains("\u{2514}"));
}

#[test]
fn test_external_dependency_detection() {
    let analyzer = DependencyAnalyzer::new(String::from("."));

    // JavaScript/TypeScript tests
    assert!(analyzer.is_external_dependency("react", &Language::JavaScript));
    assert!(!analyzer.is_external_dependency("./components", &Language::JavaScript));
    assert!(!analyzer.is_external_dependency("../utils", &Language::JavaScript));

    // Rust tests
    assert!(analyzer.is_external_dependency("serde", &Language::Rust));
    assert!(!analyzer.is_external_dependency("crate::utils", &Language::Rust));
    assert!(!analyzer.is_external_dependency("super::types", &Language::Rust));

    // Python tests
    assert!(analyzer.is_external_dependency("numpy", &Language::Python));
    assert!(!analyzer.is_external_dependency(".utils", &Language::Python));
}

#[test]
fn test_rust_function_extraction() {
    let source_code = r#"
            fn calculate_total(items: &[Item], tax_rate: f64) -> f64 {
                let subtotal = items.iter().map(|item| item.price).sum::<f64>();
                subtotal * (1.0 + tax_rate)
            }
        "#;

    let unit = parse_unit(&Language::Rust, "test.rs".to_string(), source_code).unwrap();
    let functions = extract_functions(&Language::Rust, &unit.root, &unit.lines);

    assert_eq!(functions.len(), 1);
    assert_eq!(functions[0].name, "calculate_total");
    assert_eq!(functions[0].parameter_count, 2);
}

#[test]
fn language_extractors_test_complexity_calculation() {
    let source_code = r#"
            fn complex_function(x: i32) -> i32 {
                if x > 0 {
                    if x > 10 {
                        for i in 0..x {
                            if i % 2 == 0 {
                                return i;
                            }
                        }
                    } else {
                        match x {
                            1 => 1,
                            2 => 2,
                            _ => 0,
                        }
                    }
                } else {
                    while x < 0 {
                        x += 1;
                    }
                }
                x
            }
        "#;

    let unit = parse_unit(&Language::Rust, "test.rs".to_string(), source_code).unwrap();
    let functions = extract_functions(&Language::Rust, &unit.root, &unit.lines);

    assert_eq!(functions.len(), 1);
    // This function should have high complexity due to nested conditions
    assert!(functions[0].cyclomatic_complexity > 5);
}
