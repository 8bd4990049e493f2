//! Hotspot detection: flags functions whose metrics exceed configured
//! thresholds, with a severity tier per finding.

use vstd::prelude::*;
use vstd::string::StringExecFns;
use crate::cli::{CodeIssue, IssueCategory, IssueSeverity};
use crate::extract::FunctionAnalysis;
use crate::metrics::sat64;
use crate::score::RankedFunction;
use crate::text::{has_substring, is_prefix_of, str_contains, str_eq, str_starts_with};

verus! {

/// The severity of a hotspot finding.
#[derive(Clone, Copy, Debug, PartialEq, Eq, Structural)]
pub enum Severity {
    Critical,
    High,
    Medium,
    Low,
}

/// What kind of problem a hotspot flags.
#[derive(Clone, Copy, Debug, PartialEq, Eq, Structural)]
pub enum HotspotType {
    HighComplexity,
    LargeFunction,
    DeepNesting,
    TooManyParameters,
    DuplicatedCode,
    LowCohesion,
    TightCoupling,
    CodeSmell,
}

/// The severity tier of a complexity hotspot, as reports carry it.
#[derive(Clone, Copy, Debug, PartialEq, Eq, Structural)]
pub enum HotspotSeverity {
    Critical,
    High,
    Medium,
    Low,
}

/// A summary of one function, as hotspot estimation consumes it.
pub struct FunctionInfo {
    pub name: String,
    pub line_number: u64,
    pub complexity: u64,
}

/// Size and complexity figures of one function, as reports carry them.
pub struct FunctionMetrics {
    pub name: String,
    pub line_start: u64,
    pub line_end: u64,
    pub complexity: u64,
    pub parameters: u64,
    pub lines_of_code: u64,
    pub cognitive_complexity: u64,
}

/// One function flagged for its complexity.
pub struct ComplexityHotspot {
    pub function_name: String,
    pub file_path: String,
    pub complexity: u64,
    pub line_number: u64,
    pub severity: HotspotSeverity,
}

/// The severity tier of a complexity value: over 20 is critical, 16 to 20
/// high, 11 to 15 medium, anything else low.
pub open spec fn complexity_severity(c: u64) -> HotspotSeverity {
    if c > 20 {
        HotspotSeverity::Critical
    } else if c > 15 {
        HotspotSeverity::High
    } else if c > 10 {
        HotspotSeverity::Medium
    } else {
        HotspotSeverity::Low
    }
}

/// Flags functions by fixed thresholds.
pub struct HotspotAnalyzer {
    pub complexity_threshold: u64,
    pub function_size_threshold: u64,
    pub nesting_depth_threshold: u64,
    pub parameter_count_threshold: u64,
}

/// The estimated line count of a function, from its complexity alone.
pub open spec fn estimated_lines(c: u64) -> u64 {
    if c <= 5 {
        (5 + c * 2) as u64
    } else if c <= 10 {
        (15 + c * 3) as u64
    } else if c <= 20 {
        (25 + c * 4) as u64
    } else {
        sat64((50 + c * 5) as nat)
    }
}

impl HotspotAnalyzer {
    /// An analyzer with the default thresholds: complexity 10, function
    /// size 50 lines, nesting depth 4, parameter count 5.
    pub fn new() -> (r: Self)
        ensures
            r.complexity_threshold == 10,
            r.function_size_threshold == 50,
            r.nesting_depth_threshold == 4,
            r.parameter_count_threshold == 5,
    {
        HotspotAnalyzer {
            complexity_threshold: 10,
            function_size_threshold: 50,
            nesting_depth_threshold: 4,
            parameter_count_threshold: 5,
        }
    }

    /// An analyzer with the given thresholds.
    pub fn with_thresholds(
        complexity: u64,
        function_size: u64,
        nesting_depth: u64,
        parameter_count: u64,
    ) -> (r: Self)
        ensures
            r.complexity_threshold == complexity,
            r.function_size_threshold == function_size,
            r.nesting_depth_threshold == nesting_depth,
            r.parameter_count_threshold == parameter_count,
    {
        HotspotAnalyzer {
            complexity_threshold: complexity,
            function_size_threshold: function_size,
            nesting_depth_threshold: nesting_depth,
            parameter_count_threshold: parameter_count,
        }
    }

    /// A rough line-count estimate for a function, from its complexity
    /// alone, used where the real span is not available.
    pub fn estimate_function_lines(&self, function: &FunctionInfo) -> (r: u64)
        ensures
            r == estimated_lines(function.complexity),
    {
        let c = function.complexity;
        if c <= 5 {
            5 + c * 2
        } else if c <= 10 {
            15 + c * 3
        } else if c <= 20 {
            25 + c * 4
        } else {
            if c > (u64::MAX - 50) / 5 {
                proof {
                    assert(50 + c * 5 > 0xffff_ffff_ffff_ffff) by (nonlinear_arith)
                        requires
                            c > (0xffff_ffff_ffff_ffffu64 - 50) / 5,
                    ;
                }
                u64::MAX
            } else {
                proof {
                    assert(50 + c * 5 <= 0xffff_ffff_ffff_ffff) by (nonlinear_arith)
                        requires
                            c <= (0xffff_ffff_ffff_ffffu64 - 50) / 5,
                    ;
                }
                50 + c * 5
            }
        }
    }

    /// A rough parameter-count estimate from the function's name and the
    /// language, plus one per five points of complexity.
    pub open spec fn estimated_parameters(name: Seq<char>, language: Seq<char>, c: u64) -> u64 {
        let base: u64 = if language == "rust"@ {
            if has_substring(name, "new"@) || has_substring(name, "create"@) {
                3u64
            } else if is_prefix_of("set_"@, name) || is_prefix_of("update_"@, name) {
                2u64
            } else {
                1u64
            }
        } else if language == "javascript"@ || language == "typescript"@ {
            if has_substring(name, "handle"@) || has_substring(name, "process"@) {
                4u64
            } else {
                2u64
            }
        } else {
            2u64
        };
        (base + c / 5) as u64
    }

    /// Estimates a function's parameter count from its name, the language
    /// and its complexity.
    pub fn estimate_parameter_count(&self, function: &FunctionInfo, language: &str) -> (r: u64)
        ensures
            r == Self::estimated_parameters(function.name@, language@, function.complexity),
    {
        let name = function.name.as_str();
        let base: u64 = if str_eq(language, "rust") {
            if str_contains(name, "new") || str_contains(name, "create") {
                3
            } else if str_starts_with(name, "set_") || str_starts_with(name, "update_") {
                2
            } else {
                1
            }
        } else if str_eq(language, "javascript") || str_eq(language, "typescript") {
            if str_contains(name, "handle") || str_contains(name, "process") {
                4
            } else {
                2
            }
        } else {
            2
        };
        proof {
            assert(base + function.complexity / 5 <= 0xffff_ffff_ffff_ffff);
        }
        base + function.complexity / 5
    }
}


/// The issues one function's metrics raise, as ghost tuples of severity,
/// category, message and suggestion: one entry per exceeded threshold, in
/// a fixed order — complexity over 15, more than 7 parameters, more than
/// 50 lines, nesting deeper than 5.
pub open spec fn issue_specs(f: FunctionAnalysis) -> Seq<
    (IssueSeverity, IssueCategory, Seq<char>, Seq<char>),
> {
    (if f.cyclomatic_complexity > 15 {
        seq![
            (
                IssueSeverity::Warning,
                IssueCategory::Complexity,
                "function "@ + f.name@ + " has high cyclomatic complexity"@,
                "break the function into smaller, focused functions"@,
            ),
        ]
    } else {
        Seq::empty()
    }) + (if f.parameter_count > 7 {
        seq![
            (
                IssueSeverity::Warning,
                IssueCategory::Maintainability,
                "function "@ + f.name@ + " has too many parameters"@,
                "group related parameters into one value"@,
            ),
        ]
    } else {
        Seq::empty()
    }) + (if f.lines_of_code > 50 {
        seq![
            (
                IssueSeverity::Info,
                IssueCategory::Maintainability,
                "function "@ + f.name@ + " is quite long"@,
                "split the function into smaller ones"@,
            ),
        ]
    } else {
        Seq::empty()
    }) + (if f.nesting_depth > 5 {
        seq![
            (
                IssueSeverity::Warning,
                IssueCategory::Complexity,
                "function "@ + f.name@ + " has deep nesting"@,
                "use early returns or extract the nested logic"@,
            ),
        ]
    } else {
        Seq::empty()
    })
}

/// What one reported issue says about its ghost tuple and its function.
pub open spec fn issue_matches(
    f: FunctionAnalysis,
    t: (IssueSeverity, IssueCategory, Seq<char>, Seq<char>),
    c: CodeIssue,
) -> bool {
    &&& c.severity == t.0
    &&& c.category == t.1
    &&& c.message@ == t.2
    &&& c.line == f.start_line
    &&& c.column == 1
    &&& c.suggestion matches Some(s) && s@ == t.3
}

/// Whether `rs` holds exactly the issues of `f`, in order.
pub open spec fn issues_match(f: FunctionAnalysis, rs: Seq<CodeIssue>) -> bool {
    &&& rs.len() == issue_specs(f).len()
    &&& forall|i: int|
        0 <= i < rs.len() ==> issue_matches(f, issue_specs(f)[i], #[trigger] rs[i])
}

/// Flags the quality issues of one function: one issue per exceeded
/// threshold, with a fixed message and suggestion.
pub fn detect_issues(f: &FunctionAnalysis) -> (r: Vec<CodeIssue>)
    ensures
        issues_match(*f, r@),
{
    let mut r: Vec<CodeIssue> = Vec::new();
    let ghost mut expect: Seq<(IssueSeverity, IssueCategory, Seq<char>, Seq<char>)> =
        Seq::empty();
    if f.cyclomatic_complexity > 15 {
        let ghost pre = r@;
        r.push(
            CodeIssue {
                severity: IssueSeverity::Warning,
                category: IssueCategory::Complexity,
                message: String::from_str("function ").concat(f.name.as_str()).concat(
                    " has high cyclomatic complexity",
                ),
                line: f.start_line,
                column: 1,
                suggestion: Some(
                    String::from_str("break the function into smaller, focused functions"),
                ),
            },
        );
        proof {
            expect = expect + seq![
                (
                    IssueSeverity::Warning,
                    IssueCategory::Complexity,
                    "function "@ + f.name@ + " has high cyclomatic complexity"@,
                    "break the function into smaller, focused functions"@,
                ),
            ];
            assert(r@.len() == expect.len());
            assert forall|i: int| 0 <= i < r@.len() implies issue_matches(
                *f,
                expect[i],
                #[trigger] r@[i],
            ) by {
                if i < pre.len() {
                    assert(r@[i] == pre[i]);
                }
            }
        }
    }
    if f.parameter_count > 7 {
        let ghost pre = r@;
        let ghost pre_expect = expect;
        r.push(
            CodeIssue {
                severity: IssueSeverity::Warning,
                category: IssueCategory::Maintainability,
                message: String::from_str("function ").concat(f.name.as_str()).concat(
                    " has too many parameters",
                ),
                line: f.start_line,
                column: 1,
                suggestion: Some(String::from_str("group related parameters into one value")),
            },
        );
        proof {
            expect = expect + seq![
                (
                    IssueSeverity::Warning,
                    IssueCategory::Maintainability,
                    "function "@ + f.name@ + " has too many parameters"@,
                    "group related parameters into one value"@,
                ),
            ];
            assert(r@.len() == expect.len());
            assert forall|i: int| 0 <= i < r@.len() implies issue_matches(
                *f,
                expect[i],
                #[trigger] r@[i],
            ) by {
                if i < pre.len() {
                    assert(r@[i] == pre[i]);
                    assert(expect[i] == pre_expect[i]);
                }
            }
        }
    }
    if f.lines_of_code > 50 {
        let ghost pre = r@;
        let ghost pre_expect = expect;
        r.push(
            CodeIssue {
                severity: IssueSeverity::Info,
                category: IssueCategory::Maintainability,
                message: String::from_str("function ").concat(f.name.as_str()).concat(
                    " is quite long",
                ),
                line: f.start_line,
                column: 1,
                suggestion: Some(String::from_str("split the function into smaller ones")),
            },
        );
        proof {
            expect = expect + seq![
                (
                    IssueSeverity::Info,
                    IssueCategory::Maintainability,
                    "function "@ + f.name@ + " is quite long"@,
                    "split the function into smaller ones"@,
                ),
            ];
            assert(r@.len() == expect.len());
            assert forall|i: int| 0 <= i < r@.len() implies issue_matches(
                *f,
                expect[i],
                #[trigger] r@[i],
            ) by {
                if i < pre.len() {
                    assert(r@[i] == pre[i]);
                    assert(expect[i] == pre_expect[i]);
                }
            }
        }
    }
    if f.nesting_depth > 5 {
        let ghost pre = r@;
        let ghost pre_expect = expect;
        r.push(
            CodeIssue {
                severity: IssueSeverity::Warning,
                category: IssueCategory::Complexity,
                message: String::from_str("function ").concat(f.name.as_str()).concat(
                    " has deep nesting",
                ),
                line: f.start_line,
                column: 1,
                suggestion: Some(String::from_str("use early returns or extract the nested logic")),
            },
        );
        proof {
            expect = expect + seq![
                (
                    IssueSeverity::Warning,
                    IssueCategory::Complexity,
                    "function "@ + f.name@ + " has deep nesting"@,
                    "use early returns or extract the nested logic"@,
                ),
            ];
            assert(r@.len() == expect.len());
            assert forall|i: int| 0 <= i < r@.len() implies issue_matches(
                *f,
                expect[i],
                #[trigger] r@[i],
            ) by {
                if i < pre.len() {
                    assert(r@[i] == pre[i]);
                    assert(expect[i] == pre_expect[i]);
                }
            }
        }
    }
    proof {
        assert(expect =~~= issue_specs(*f));
    }
    r
}

/// One file-level finding: a file so large or so crowded that it likely
/// bundles several concerns.
pub struct FileHotspot {
    pub file_path: String,
    pub hotspot_type: HotspotType,
    pub severity: Severity,
    pub line_start: u64,
    pub line_end: u64,
}

/// The severity tier of a file of `line_count` lines: over 1000 is high,
/// 751 to 1000 medium, anything else low.
pub open spec fn file_size_severity(line_count: u64) -> Severity {
    if line_count > 1000 {
        Severity::High
    } else if line_count > 750 {
        Severity::Medium
    } else {
        Severity::Low
    }
}

/// Flags file-level hotspots: one entry when the file is longer than 500
/// lines, tiered by its length, and one medium entry when it holds more
/// than 20 functions.
pub fn find_file_hotspots(path: &str, line_count: u64, function_count: u64) -> (r: Vec<
    FileHotspot,
>)
    ensures
        r@.len() == (if line_count > 500 {
            1int
        } else {
            0
        }) + (if function_count > 20 {
            1int
        } else {
            0
        }),
        line_count > 500 ==> {
            &&& r@[0].file_path@ == path@
            &&& r@[0].hotspot_type == HotspotType::LowCohesion
            &&& r@[0].severity == file_size_severity(line_count)
            &&& r@[0].line_start == 1
            &&& r@[0].line_end == line_count
        },
        function_count > 20 ==> {
            &&& r@.last().file_path@ == path@
            &&& r@.last().hotspot_type == HotspotType::LowCohesion
            &&& r@.last().severity == Severity::Medium
            &&& r@.last().line_start == 1
            &&& r@.last().line_end == line_count
        },
{
    let mut r: Vec<FileHotspot> = Vec::new();
    if line_count > 500 {
        let severity = if line_count > 1000 {
            Severity::High
        } else if line_count > 750 {
            Severity::Medium
        } else {
            Severity::Low
        };
        r.push(
            FileHotspot {
                file_path: String::from_str(path),
                hotspot_type: HotspotType::LowCohesion,
                severity,
                line_start: 1,
                line_end: line_count,
            },
        );
    }
    if function_count > 20 {
        r.push(
            FileHotspot {
                file_path: String::from_str(path),
                hotspot_type: HotspotType::LowCohesion,
                severity: Severity::Medium,
                line_start: 1,
                line_end: line_count,
            },
        );
    }
    r
}

/// Per-severity counts of a set of hotspot findings.
pub struct HotspotSummary {
    pub total_hotspots: u64,
    pub critical_count: u64,
    pub high_count: u64,
    pub medium_count: u64,
    pub low_count: u64,
}

/// How many of the findings of `s` carry severity `sev`.
pub open spec fn count_severity(s: Seq<ComplexityHotspot>, sev: HotspotSeverity) -> nat
    decreases s.len(),
{
    if s.len() == 0 {
        0nat
    } else {
        count_severity(s.drop_last(), sev) + (if s.last().severity == sev {
            1nat
        } else {
            0nat
        })
    }
}

proof fn lemma_count_severity_take(s: Seq<ComplexityHotspot>, sev: HotspotSeverity, i: int)
    requires
        0 <= i < s.len(),
    ensures
        count_severity(s.take(i + 1), sev) == count_severity(s.take(i), sev) + (
        if s[i].severity == sev {
            1nat
        } else {
            0nat
        }),
{
    assert(s.take(i + 1).drop_last() =~= s.take(i));
    assert(s.take(i + 1).last() == s[i]);
}

/// Sums a set of hotspot findings into per-severity counts.
pub fn summarize_hotspots(hs: &Vec<ComplexityHotspot>) -> (r: HotspotSummary)
    ensures
        r.total_hotspots == sat64(hs@.len() as nat),
        r.critical_count == sat64(count_severity(hs@, HotspotSeverity::Critical)),
        r.high_count == sat64(count_severity(hs@, HotspotSeverity::High)),
        r.medium_count == sat64(count_severity(hs@, HotspotSeverity::Medium)),
        r.low_count == sat64(count_severity(hs@, HotspotSeverity::Low)),
{
    let mut critical: u64 = 0;
    let mut high: u64 = 0;
    let mut medium: u64 = 0;
    let mut low: u64 = 0;
    let mut i: usize = 0;
    proof {
        assert(hs@.take(0) =~= Seq::<ComplexityHotspot>::empty());
    }
    while i < hs.len()
        invariant
            i <= hs@.len(),
            critical == sat64(count_severity(hs@.take(i as int), HotspotSeverity::Critical)),
            high == sat64(count_severity(hs@.take(i as int), HotspotSeverity::High)),
            medium == sat64(count_severity(hs@.take(i as int), HotspotSeverity::Medium)),
            low == sat64(count_severity(hs@.take(i as int), HotspotSeverity::Low)),
        decreases hs@.len() - i,
    {
        proof {
            lemma_count_severity_take(hs@, HotspotSeverity::Critical, i as int);
            lemma_count_severity_take(hs@, HotspotSeverity::High, i as int);
            lemma_count_severity_take(hs@, HotspotSeverity::Medium, i as int);
            lemma_count_severity_take(hs@, HotspotSeverity::Low, i as int);
            crate::metrics::lemma_sat_add(
                count_severity(hs@.take(i as int), HotspotSeverity::Critical),
                1,
            );
            crate::metrics::lemma_sat_add(
                count_severity(hs@.take(i as int), HotspotSeverity::High),
                1,
            );
            crate::metrics::lemma_sat_add(
                count_severity(hs@.take(i as int), HotspotSeverity::Medium),
                1,
            );
            crate::metrics::lemma_sat_add(
                count_severity(hs@.take(i as int), HotspotSeverity::Low),
                1,
            );
        }
        match hs[i].severity {
            HotspotSeverity::Critical => {
                critical = crate::metrics::sat_add64(critical, 1);
            },
            HotspotSeverity::High => {
                high = crate::metrics::sat_add64(high, 1);
            },
            HotspotSeverity::Medium => {
                medium = crate::metrics::sat_add64(medium, 1);
            },
            HotspotSeverity::Low => {
                low = crate::metrics::sat_add64(low, 1);
            },
        }
        i = i + 1;
    }
    proof {
        assert(hs@.take(hs@.len() as int) =~= hs@);
        assert(hs@.len() as nat <= 0xffff_ffff_ffff_ffff);
    }
    HotspotSummary {
        total_hotspots: hs.len() as u64,
        critical_count: critical,
        high_count: high,
        medium_count: medium,
        low_count: low,
    }
}

/// The hotspot entries of a ranked pool: one per function whose complexity
/// exceeds the threshold, in pool order, as ghost tuples of name, path,
/// complexity and line.
pub open spec fn hotspot_specs(pool: Seq<RankedFunction>, threshold: u64) -> Seq<
    (Seq<char>, Seq<char>, u64, u64),
>
    decreases pool.len(),
{
    if pool.len() == 0 {
        Seq::empty()
    } else {
        hotspot_specs(pool.drop_last(), threshold) + (if pool.last().function.cyclomatic_complexity
            > threshold {
            seq![
                (
                    pool.last().function.name@,
                    pool.last().file_path@,
                    pool.last().function.cyclomatic_complexity,
                    pool.last().function.start_line,
                ),
            ]
        } else {
            Seq::empty()
        })
    }
}

/// What one flagged hotspot says about its ghost tuple.
pub open spec fn hotspot_matches(h: ComplexityHotspot, t: (Seq<char>, Seq<char>, u64, u64)) -> bool {
    &&& h.function_name@ == t.0
    &&& h.file_path@ == t.1
    &&& h.complexity == t.2
    &&& h.line_number == t.3
    &&& h.severity == complexity_severity(t.2)
}

proof fn lemma_hotspot_specs_take(pool: Seq<RankedFunction>, threshold: u64, i: int)
    requires
        0 <= i < pool.len(),
    ensures
        hotspot_specs(pool.take(i + 1), threshold) == hotspot_specs(pool.take(i), threshold) + (
        if pool[i].function.cyclomatic_complexity > threshold {
            seq![
                (
                    pool[i].function.name@,
                    pool[i].file_path@,
                    pool[i].function.cyclomatic_complexity,
                    pool[i].function.start_line,
                ),
            ]
        } else {
            Seq::empty()
        }),
{
    assert(pool.take(i + 1).drop_last() =~= pool.take(i));
    assert(pool.take(i + 1).last() == pool[i]);
}

/// Flags every function whose complexity exceeds the threshold, in pool
/// order, with the severity tier of its complexity.
pub fn find_hotspots(pool: &Vec<RankedFunction>, threshold: u64) -> (r: Vec<ComplexityHotspot>)
    ensures
        r@.len() == hotspot_specs(pool@, threshold).len(),
        forall|i: int|
            0 <= i < r@.len() ==> hotspot_matches(
                #[trigger] r@[i],
                hotspot_specs(pool@, threshold)[i],
            ),
{
    let mut r: Vec<ComplexityHotspot> = Vec::new();
    let mut i: usize = 0;
    proof {
        assert(pool@.take(0) =~= Seq::<RankedFunction>::empty());
    }
    while i < pool.len()
        invariant
            i <= pool@.len(),
            r@.len() == hotspot_specs(pool@.take(i as int), threshold).len(),
            forall|j: int|
                0 <= j < r@.len() ==> hotspot_matches(
                    #[trigger] r@[j],
                    hotspot_specs(pool@.take(i as int), threshold)[j],
                ),
        decreases pool@.len() - i,
    {
        proof {
            lemma_hotspot_specs_take(pool@, threshold, i as int);
        }
        let f = &pool[i];
        if f.function.cyclomatic_complexity > threshold {
            let c = f.function.cyclomatic_complexity;
            let severity = if c > 20 {
                HotspotSeverity::Critical
            } else if c > 15 {
                HotspotSeverity::High
            } else if c > 10 {
                HotspotSeverity::Medium
            } else {
                HotspotSeverity::Low
            };
            let ghost pre = r@;
            r.push(
                ComplexityHotspot {
                    function_name: f.function.name.clone(),
                    file_path: f.file_path.clone(),
                    complexity: c,
                    line_number: f.function.start_line,
                    severity,
                },
            );
            proof {
                assert(forall|j: int| 0 <= j < pre.len() ==> r@[j] == pre[j]);
            }
        }
        i = i + 1;
    }
    proof {
        assert(pool@.take(pool@.len() as int) =~= pool@);
    }
    r
}

} // verus!
