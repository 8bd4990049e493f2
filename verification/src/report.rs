//! The data carried by reports, insights and recommendations. Rendering —
//! HTML, Markdown, terminal tables — is the caller's; the library only
//! defines what a report holds.

use vstd::prelude::*;
use vstd::string::StringExecFns;

verus! {

/// A kind of node in a rendered dependency view.
#[derive(Clone, Copy, Debug, PartialEq, Eq, Structural)]
pub enum NodeType {
    File,
    Module,
    Function,
    Class,
    Import,
}

/// A kind of relationship in a rendered dependency view.
#[derive(Clone, Copy, Debug, PartialEq, Eq, Structural)]
pub enum RelationshipType {
    Imports,
    Calls,
    Inherits,
    Uses,
    Contains,
}

/// What aspect of the code an insight speaks about.
#[derive(Clone, Copy, Debug, PartialEq, Eq, Structural)]
pub enum InsightCategory {
    Complexity,
    Dependencies,
    TechnicalDebt,
    Performance,
    Maintainability,
}

/// How urgent an insight or recommendation is.
#[derive(Clone, Copy, Debug, PartialEq, Eq, Structural)]
pub enum Priority {
    Low,
    Medium,
    High,
    Critical,
}

/// How much work acting on an insight takes.
#[derive(Clone, Copy, Debug, PartialEq, Eq, Structural)]
pub enum EffortEstimate {
    Small,
    Medium,
    Large,
    XLarge,
}

/// One actionable finding derived from the analysis results.
pub struct ActionableInsight {
    pub category: InsightCategory,
    pub title: String,
    pub description: String,
    pub priority: Priority,
    pub affected_files: Vec<String>,
    pub recommendation: String,
    pub effort_estimate: EffortEstimate,
}

/// Derives insights from analysis results for the report.
pub struct InsightEngine;

/// Renders reports from a template path; the rendering itself is the
/// caller's.
pub struct ReportGenerator {
    pub template_path: String,
}

impl ReportGenerator {
    /// A generator pointed at the default report template.
    pub fn new() -> (r: Self)
        ensures
            r.template_path@ == "templates/report.html"@,
    {
        ReportGenerator { template_path: String::from_str("templates/report.html") }
    }
}

/// Carries the HTML page skeleton that reports are rendered into.
pub struct HtmlReporter {
    pub template: String,
}

impl HtmlReporter {
    /// A reporter with the built-in page skeleton.
    pub fn new() -> (r: Self)
        ensures
            r.template@ == "<!DOCTYPE html><html><head><title>Code Analysis Report</title></head><body></body></html>"@,
    {
        HtmlReporter {
            template: String::from_str(
                "<!DOCTYPE html><html><head><title>Code Analysis Report</title></head><body></body></html>",
            ),
        }
    }
}

/// What kind of improvement a recommendation proposes.
#[derive(Clone, Copy, Debug, PartialEq, Eq, Structural)]
pub enum RecommendationCategory {
    Architecture,
    CodeQuality,
    Performance,
    Maintainability,
    Testing,
    Security,
    Documentation,
}

/// How much a recommendation would improve the codebase.
#[derive(Clone, Copy, Debug, PartialEq, Eq, Structural)]
pub enum Impact {
    High,
    Medium,
    Low,
}

/// How much work a recommendation takes.
#[derive(Clone, Copy, Debug, PartialEq, Eq, Structural)]
pub enum Effort {
    Low,
    Medium,
    High,
}

/// One concrete step of a recommendation.
pub struct ActionableStep {
    pub step_number: u64,
    pub description: String,
    pub estimated_time: String,
    pub tools_required: Vec<String>,
    pub code_changes: Option<String>,
}

/// A before/after code sample that illustrates a recommendation.
pub struct CodeExample {
    pub language: String,
    pub before: String,
    pub after: String,
    pub explanation: String,
}

/// One phase of an improvement roadmap.
pub struct RoadmapPhase {
    pub phase_number: u64,
    pub name: String,
    pub description: String,
    pub recommendations: Vec<String>,
    pub estimated_duration: String,
    pub prerequisites: Vec<String>,
}

/// The cost/benefit summary of a set of recommendations.
pub struct ROIAnalysis {
    pub total_effort_estimate: String,
    pub expected_benefits: Vec<String>,
    pub risk_mitigation: Vec<String>,
    pub success_metrics: Vec<String>,
}

/// Turns analysis findings into recommendations, backed by a small
/// knowledge base of templates.
pub struct RecommendationsEngine {
    pub knowledge_base: RecommendationKnowledgeBase,
}

/// The recommendation templates the engine draws from.
pub struct RecommendationKnowledgeBase {
    pub complexity_patterns: Vec<String>,
    pub architectural_patterns: Vec<String>,
    pub best_practices: Vec<String>,
}

impl RecommendationKnowledgeBase {
    /// An empty knowledge base.
    pub fn new() -> (r: Self)
        ensures
            r.complexity_patterns@.len() == 0,
            r.architectural_patterns@.len() == 0,
            r.best_practices@.len() == 0,
    {
        RecommendationKnowledgeBase {
            complexity_patterns: Vec::new(),
            architectural_patterns: Vec::new(),
            best_practices: Vec::new(),
        }
    }
}

impl RecommendationsEngine {
    /// An engine with an empty knowledge base.
    pub fn new() -> (r: Self)
        ensures
            r.knowledge_base.complexity_patterns@.len() == 0,
    {
        RecommendationsEngine { knowledge_base: RecommendationKnowledgeBase::new() }
    }

    /// The ratio a recommendation's return is scored by: its impact weight
    /// over its effort weight, as numerator and denominator.
    pub fn roi_ratio(&self, impact: &Impact, effort: &Effort) -> (r: (u64, u64))
        ensures
            r.0 == match *impact {
                Impact::High => 3u64,
                Impact::Medium => 2u64,
                Impact::Low => 1u64,
            },
            r.1 == match *effort {
                Effort::Low => 1u64,
                Effort::Medium => 2u64,
                Effort::High => 3u64,
            },
    {
        let num = match impact {
            Impact::High => 3,
            Impact::Medium => 2,
            Impact::Low => 1,
        };
        let den = match effort {
            Effort::Low => 1,
            Effort::Medium => 2,
            Effort::High => 3,
        };
        (num, den)
    }
}

} // verus!
