//! Command-line options and the issue model, as plain data. Argument
//! parsing and all file-system checks live with the caller; the library
//! only decides what given values mean.

use vstd::prelude::*;
use vstd::string::StringExecFns;
use crate::source::{split_on, split_on_spec, trim_chars, trim_spec};
use crate::text::chars_to_string;

verus! {

/// How results are rendered.
#[derive(Clone, Copy, Debug, PartialEq, Eq, Structural)]
pub enum OutputFormat {
    Terminal,
    Json,
    Html,
    Markdown,
}

/// The command-line options of an analysis run.
pub struct Args {
    /// Path to analyze.
    pub path: String,
    /// Output format.
    pub format: OutputFormat,
    /// Output file, when results are written rather than printed.
    pub output: Option<String>,
    /// Comma-separated list of metrics to analyze.
    pub metrics: Option<String>,
    /// Minimum complexity threshold to report.
    pub complexity_threshold: u64,
    /// Whether test files are analyzed.
    pub include_tests: bool,
    /// Whether a progress bar is shown.
    pub progress: bool,
    /// Whether debug information is printed.
    pub verbose: bool,
}

/// The options of the `analyze` subcommand.
pub struct AnalyzeArgs {
    /// Path to analyze.
    pub path: String,
    /// Language to analyze; detected from extensions when absent.
    pub language: Option<String>,
    /// Output format name.
    pub format: String,
    /// Whether test files are analyzed.
    pub include_tests: bool,
}

/// The cleaned-up metric names of a comma-separated list: each piece
/// trimmed, empty pieces dropped.
pub open spec fn metric_names(ts: Seq<Seq<char>>) -> Seq<Seq<char>>
    decreases ts.len(),
{
    if ts.len() == 0 {
        Seq::empty()
    } else {
        metric_names(ts.drop_last()) + (if trim_spec(ts.last()).len() > 0 {
            seq![trim_spec(ts.last())]
        } else {
            Seq::<Seq<char>>::empty()
        })
    }
}

proof fn lemma_metric_names_take(ts: Seq<Seq<char>>, i: int)
    requires
        0 <= i < ts.len(),
    ensures
        metric_names(ts.take(i + 1)) == metric_names(ts.take(i)) + (if trim_spec(
            ts[i],
        ).len() > 0 {
            seq![trim_spec(ts[i])]
        } else {
            Seq::<Seq<char>>::empty()
        }),
{
    assert(ts.take(i + 1).drop_last() =~= ts.take(i));
    assert(ts.take(i + 1).last() == ts[i]);
}

impl Args {
    /// Validates the options against what the caller observed of the file
    /// system: the path must exist and be a directory, and the threshold
    /// must be positive. Returns the first failing check's message.
    pub fn validate(&self, path_exists: bool, path_is_dir: bool) -> (r: Result<(), String>)
        ensures
            r is Ok <==> path_exists && path_is_dir && self.complexity_threshold > 0,
            !path_exists ==> (r matches Err(m) && m@ == "Path does not exist: "@ + self.path@),
            path_exists && !path_is_dir ==> (r matches Err(m) && m@ == "Path is not a directory: "@
                + self.path@),
            path_exists && path_is_dir && self.complexity_threshold == 0 ==> (r matches Err(m)
                && m@ == "Complexity threshold must be greater than 0"@),
    {
        if !path_exists {
            Err(String::from_str("Path does not exist: ").concat(self.path.as_str()))
        } else if !path_is_dir {
            Err(String::from_str("Path is not a directory: ").concat(self.path.as_str()))
        } else if self.complexity_threshold == 0 {
            Err(String::from_str("Complexity threshold must be greater than 0"))
        } else {
            Ok(())
        }
    }

    /// The metric names to analyze: the cleaned-up pieces of the given
    /// comma-separated list, or the default set when none was given.
    pub fn parse_metrics(&self) -> (r: Vec<String>)
        ensures
            match self.metrics {
                Some(m) => r.deep_view() == metric_names(split_on_spec(m@, ',')),
                None => r.deep_view() == seq!["complexity"@, "duplication"@, "dependencies"@],
            },
    {
        match &self.metrics {
            Some(m) => {
                let tokens = split_on(m.as_str(), ',');
                let mut out: Vec<String> = Vec::new();
                let ghost ts = split_on_spec(m@, ',');
                let mut i: usize = 0;
                proof {
                    assert(ts.take(0) =~= Seq::<Seq<char>>::empty());
                    assert(out.deep_view() =~~= metric_names(ts.take(0)));
                }
                while i < tokens.len()
                    invariant
                        i <= tokens@.len(),
                        ts == split_on_spec(m@, ','),
                        tokens.deep_view() == ts,
                        out.deep_view() =~~= metric_names(ts.take(i as int)),
                    decreases tokens@.len() - i,
                {
                    proof {
                        lemma_metric_names_take(ts, i as int);
                        assert(tokens.deep_view()[i as int] == tokens@[i as int]@);
                    }
                    let t = trim_chars(&tokens[i]);
                    if t.len() > 0 {
                        let ghost pre = out.deep_view();
                        out.push(chars_to_string(&t));
                        proof {
                            assert(out.deep_view() =~~= pre + seq![trim_spec(ts[i as int])]);
                        }
                    }
                    i = i + 1;
                }
                proof {
                    assert(ts.take(ts.len() as int) =~= ts);
                }
                out
            },
            None => {
                let mut out: Vec<String> = Vec::new();
                out.push(String::from_str("complexity"));
                out.push(String::from_str("duplication"));
                out.push(String::from_str("dependencies"));
                proof {
                    assert(out.deep_view() =~~= seq![
                        "complexity"@,
                        "duplication"@,
                        "dependencies"@,
                    ]);
                }
                out
            },
        }
    }
}

/// The severity of a reported issue.
#[derive(Clone, Copy, Debug, PartialEq, Eq, Structural)]
pub enum IssueSeverity {
    Info,
    Warning,
    Error,
    Critical,
}

/// The category of a reported issue.
#[derive(Clone, Copy, Debug, PartialEq, Eq, Structural)]
pub enum IssueCategory {
    Complexity,
    Performance,
    Maintainability,
    Security,
    Style,
    Duplication,
}

/// One code-quality finding inside a file.
pub struct CodeIssue {
    pub severity: IssueSeverity,
    pub category: IssueCategory,
    pub message: String,
    pub line: u64,
    pub column: u64,
    pub suggestion: Option<String>,
}

/// One file-level finding of an analysis run.
pub struct AnalysisIssue {
    pub file_path: String,
    pub line: u64,
    pub severity: IssueSeverity,
    pub message: String,
    pub suggestion: Option<String>,
}

/// Which metrics an analysis run collects.
pub struct MetricsConfig {
    pub enabled_metrics: Vec<String>,
    pub complexity_threshold: u64,
    pub include_tests: bool,
    pub analyze_dependencies: bool,
}

/// Formats analysis results in one configured output format; the actual
/// writing is the caller's.
pub struct OutputFormatter {
    pub format: OutputFormat,
}

impl OutputFormatter {
    /// A formatter for the given output format.
    pub fn new(format: OutputFormat) -> (r: Self)
        ensures
            r.format == format,
    {
        OutputFormatter { format }
    }
}

} // verus!
