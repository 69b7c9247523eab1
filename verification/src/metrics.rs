use vstd::prelude::*;

verus! {

/// Metrics of one function of a TypeScript/JavaScript source file.
///
/// The churn score of the function is not stored: it is a function of the
/// three churn counters (see [`churn_ratio`]) and is read through
/// [`FunctionMetrics::churn_score`].
#[derive(Debug, Clone)]
pub struct FunctionMetrics {
    pub name: String,
    pub file: String,
    pub line: u32,
    pub cyclomatic_complexity: u32,
    pub nesting_depth: u32,
    pub lines_of_code: u32,
    pub times_modified: usize,
    pub bug_fix_commits: usize,
    pub authors_count: usize,
}

/// The plain-value content of a [`FunctionMetrics`].
pub struct FunctionMetricsView {
    pub name: Seq<char>,
    pub file: Seq<char>,
    pub line: u32,
    pub cyclomatic_complexity: u32,
    pub nesting_depth: u32,
    pub lines_of_code: u32,
    pub times_modified: usize,
    pub bug_fix_commits: usize,
    pub authors_count: usize,
}

impl View for FunctionMetrics {
    type V = FunctionMetricsView;

    open spec fn view(&self) -> FunctionMetricsView {
        FunctionMetricsView {
            name: self.name@,
            file: self.file@,
            line: self.line,
            cyclomatic_complexity: self.cyclomatic_complexity,
            nesting_depth: self.nesting_depth,
            lines_of_code: self.lines_of_code,
            times_modified: self.times_modified,
            bug_fix_commits: self.bug_fix_commits,
            authors_count: self.authors_count,
        }
    }
}

/// The views of a sequence of function metrics.
pub open spec fn metrics_views(fs: Seq<FunctionMetrics>) -> Seq<FunctionMetricsView> {
    fs.map_values(|f: FunctionMetrics| f@)
}

/// Churn statistics of one file of a repository.
#[derive(Debug, Clone, Copy)]
pub struct ChurnMetrics {
    pub times_modified: usize,
    pub bug_fix_commits: usize,
    pub authors_count: usize,
}

/// The churn score as an exact fraction `(numerator, denominator)`:
/// `times_modified * bug_fix_commits / authors_count` when some author is
/// known, `times_modified` otherwise.
pub open spec fn churn_ratio(times_modified: usize, bug_fix_commits: usize, authors_count: usize) -> (int, int) {
    if authors_count > 0 {
        (times_modified * bug_fix_commits, authors_count as int)
    } else {
        (times_modified as int, 1)
    }
}

/// Computes [`churn_ratio`].
pub fn churn_score_of(times_modified: usize, bug_fix_commits: usize, authors_count: usize) -> (r: (u128, u128))
    ensures
        (r.0 as int, r.1 as int) == churn_ratio(times_modified, bug_fix_commits, authors_count),
        r.1 > 0,
{
    if authors_count > 0 {
        proof {
            assert(times_modified * bug_fix_commits <= usize::MAX * usize::MAX) by (nonlinear_arith)
                requires times_modified <= usize::MAX, bug_fix_commits <= usize::MAX;
            assert(usize::MAX * usize::MAX <= u128::MAX) by (nonlinear_arith)
                requires usize::MAX <= u64::MAX;
        }
        ((times_modified as u128) * (bug_fix_commits as u128), authors_count as u128)
    } else {
        (times_modified as u128, 1)
    }
}

impl ChurnMetrics {
    /// The churn score of the file as an exact fraction.
    pub fn churn_score(&self) -> (r: (u128, u128))
        ensures
            (r.0 as int, r.1 as int) == churn_ratio(self.times_modified, self.bug_fix_commits, self.authors_count),
            r.1 > 0,
    {
        churn_score_of(self.times_modified, self.bug_fix_commits, self.authors_count)
    }
}

impl FunctionMetrics {
    /// The churn score of the function's file as an exact fraction.
    pub fn churn_score(&self) -> (r: (u128, u128))
        ensures
            (r.0 as int, r.1 as int) == churn_ratio(self.times_modified, self.bug_fix_commits, self.authors_count),
            r.1 > 0,
    {
        churn_score_of(self.times_modified, self.bug_fix_commits, self.authors_count)
    }
}

} // verus!
