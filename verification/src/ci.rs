//! The quality-gate model for continuous-integration runs: which metric a
//! gate watches, how it compares against its threshold, and how gate
//! results combine into one overall status. Loading platform configuration
//! and talking to a CI service are the caller's.

use vstd::prelude::*;

verus! {

/// The metric a quality gate watches.
#[derive(Clone, Copy, Debug, PartialEq, Eq, Structural)]
pub enum QualityMetric {
    CyclomaticComplexity,
    TechnicalDebt,
    TestCoverage,
    DuplicationRatio,
    SecurityVulnerabilities,
    DependencyFreshness,
}

/// How a gate compares the measured value against its threshold.
#[derive(Clone, Copy, Debug, PartialEq, Eq, Structural)]
pub enum ComparisonOperator {
    LessThan,
    GreaterThan,
    Equal,
    LessThanOrEqual,
    GreaterThanOrEqual,
}

/// The outcome of one gate, or of a whole run.
#[derive(Clone, Copy, Debug, PartialEq, Eq, Structural)]
pub enum QualityStatus {
    Pass,
    Warning,
    Fail,
}

/// The assessed risk of a change.
#[derive(Clone, Copy, Debug, PartialEq, Eq, Structural)]
pub enum RiskLevel {
    Low,
    Medium,
    High,
    Critical,
}

/// How a run's outcome is reported.
#[derive(Clone, Copy, Debug, PartialEq, Eq, Structural)]
pub enum ReportFormat {
    Markdown,
    Json,
    Html,
    Junit,
}

/// Where and how a run's outcome is announced.
pub struct NotificationConfig {
    pub slack_webhook: Option<String>,
    pub github_status: bool,
    pub email_recipients: Vec<String>,
    pub summary_format: ReportFormat,
}

/// How baselines for regression comparison are kept.
pub struct BaselineConfig {
    pub store_baseline: bool,
    pub baseline_path: String,
    pub comparison_metrics: Vec<QualityMetric>,
}

/// Whether a measured value satisfies the comparison against a threshold.
pub open spec fn comparison_holds(op: ComparisonOperator, actual: u64, threshold: u64) -> bool {
    match op {
        ComparisonOperator::LessThan => actual < threshold,
        ComparisonOperator::GreaterThan => actual > threshold,
        ComparisonOperator::Equal => actual == threshold,
        ComparisonOperator::LessThanOrEqual => actual <= threshold,
        ComparisonOperator::GreaterThanOrEqual => actual >= threshold,
    }
}

/// Evaluates one gate: the status is `Pass` exactly when the comparison
/// holds, and `Fail` otherwise.
pub fn evaluate_gate(op: &ComparisonOperator, actual: u64, threshold: u64) -> (r: QualityStatus)
    ensures
        r == if comparison_holds(*op, actual, threshold) {
            QualityStatus::Pass
        } else {
            QualityStatus::Fail
        },
{
    let holds = match op {
        ComparisonOperator::LessThan => actual < threshold,
        ComparisonOperator::GreaterThan => actual > threshold,
        ComparisonOperator::Equal => actual == threshold,
        ComparisonOperator::LessThanOrEqual => actual <= threshold,
        ComparisonOperator::GreaterThanOrEqual => actual >= threshold,
    };
    if holds {
        QualityStatus::Pass
    } else {
        QualityStatus::Fail
    }
}

/// The worse of two statuses: any failure fails the run, any warning
/// downgrades a pass.
pub open spec fn worse_status(a: QualityStatus, b: QualityStatus) -> QualityStatus {
    if a == QualityStatus::Fail || b == QualityStatus::Fail {
        QualityStatus::Fail
    } else if a == QualityStatus::Warning || b == QualityStatus::Warning {
        QualityStatus::Warning
    } else {
        QualityStatus::Pass
    }
}

/// Combines two gate outcomes into the worse one.
pub fn combine_status(a: QualityStatus, b: QualityStatus) -> (r: QualityStatus)
    ensures
        r == worse_status(a, b),
{
    if a == QualityStatus::Fail || b == QualityStatus::Fail {
        QualityStatus::Fail
    } else if a == QualityStatus::Warning || b == QualityStatus::Warning {
        QualityStatus::Warning
    } else {
        QualityStatus::Pass
    }
}

} // verus!
