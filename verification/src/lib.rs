//! Complexity and churn analysis of TypeScript/JavaScript repositories.
//!
//! The library parses source files with tree-sitter and measures every
//! function (see [`ast`]), tallies the history of files (see [`git`]), and
//! assembles the ranked report (this module).  Reading files and repositories
//! is left to the caller.
pub mod ast;
pub mod error;
pub mod git;
pub mod metrics;
pub mod ranking;
pub mod sort;
pub mod text;

use vstd::prelude::*;
use crate::metrics::{ChurnMetrics, FunctionMetrics, FunctionMetricsView, churn_ratio, metrics_views};
use crate::ranking::{SortField, key_le, sort_field_named, sort_field_from_name};
use crate::sort::{
    Ranked, lemma_stable_sort_unique, lemma_stable_sort_unique_by_key, stable_arrangement, stable_sort_desc,
    stable_sort_of,
};
use crate::text::str_eq;

verus! {

// ---------------------------------------------------------------------------
// Which directory entries hold sources
// ---------------------------------------------------------------------------

/// File extensions of the sources that are analysed.
pub open spec fn is_source_extension_text(ext: Seq<char>) -> bool {
    ext == "ts"@ || ext == "tsx"@ || ext == "js"@ || ext == "jsx"@
}

/// Whether a file with extension `ext` is analysed.
pub fn is_source_extension(ext: &str) -> (r: bool)
    ensures
        r == is_source_extension_text(ext@),
{
    str_eq(ext, "ts") || str_eq(ext, "tsx") || str_eq(ext, "js") || str_eq(ext, "jsx")
}

/// Directory entries that the search for sources passes over: hidden ones and
/// dependency or build output directories.
pub open spec fn is_skipped_entry_text(name: Seq<char>) -> bool {
    ||| (name.len() > 0 && name[0] == '.')
    ||| name == "node_modules"@
    ||| name == "dist"@
    ||| name == "build"@
    ||| name == "target"@
}

/// Whether the search for sources passes over an entry named `name`.
pub fn is_skipped_entry(name: &str) -> (r: bool)
    ensures
        r == is_skipped_entry_text(name@),
{
    let hidden = !name.is_empty() && name.get_char(0) == '.';
    hidden || str_eq(name, "node_modules") || str_eq(name, "dist") || str_eq(name, "build") || str_eq(
        name,
        "target",
    )
}

// ---------------------------------------------------------------------------
// Ranking functions
// ---------------------------------------------------------------------------

/// Sorts functions from the highest value of the metric named `sort_by`
/// down (`churn_score`, `cyclomatic_complexity`, `times_modified`,
/// `nesting_depth` or `lines_of_code`), functions with equal values ordered
/// by file, name and line, ascending; leaves them as they are for any other
/// name.
pub fn sort_functions(functions: &mut Vec<FunctionMetrics>, sort_by: &str)
    ensures
        sort_field_named(sort_by@) is None ==> final(functions)@ == old(functions)@,
        sort_field_named(sort_by@) is Some ==> stable_sort_of(
            sort_field_named(sort_by@)->Some_0,
            old(functions)@,
            final(functions)@,
        ),
{
    match sort_field_from_name(sort_by) {
        Some(field) => stable_sort_desc(&field, functions),
        None => {},
    }
}

/// A sort name selects a metric exactly when it is one of
/// `churn_score`, `cyclomatic_complexity`, `times_modified`, `nesting_depth`
/// and `lines_of_code`; any other name leaves the functions in order.
pub proof fn lemma_sort_names_recognised(sort_by: Seq<char>)
    ensures
        sort_field_named(sort_by) is Some <==> (sort_by == "churn_score"@ || sort_by == "cyclomatic_complexity"@
            || sort_by == "times_modified"@ || sort_by == "nesting_depth"@ || sort_by == "lines_of_code"@),
{
}

/// The sort names are exactly `churn_score`, `cyclomatic_complexity`,
/// `times_modified`, `nesting_depth` and `lines_of_code`, and sorting by one
/// of them ranks by that metric: in what [`sort_functions`] gives, the named
/// metric never rises from one position to a later one (the churn score
/// compared as an exact fraction).
pub proof fn lemma_sort_names_select_their_metric(sort_by: Seq<char>, input: Seq<FunctionMetrics>, output: Seq<FunctionMetrics>)
    requires
        sort_field_named(sort_by) is Some,
        stable_sort_of(sort_field_named(sort_by)->Some_0, input, output),
    ensures
        sort_by == "churn_score"@ || sort_by == "cyclomatic_complexity"@ || sort_by == "times_modified"@
            || sort_by == "nesting_depth"@ || sort_by == "lines_of_code"@,
        forall|i: int, j: int|
            0 <= i < j < output.len() ==> {
                let (a, b) = (#[trigger] output[i], #[trigger] output[j]);
                let (na, da) = churn_ratio(a.times_modified, a.bug_fix_commits, a.authors_count);
                let (nb, db) = churn_ratio(b.times_modified, b.bug_fix_commits, b.authors_count);
                &&& sort_by == "churn_score"@ ==> nb * da <= na * db
                &&& sort_by == "cyclomatic_complexity"@ ==> b.cyclomatic_complexity <= a.cyclomatic_complexity
                &&& sort_by == "times_modified"@ ==> b.times_modified <= a.times_modified
                &&& sort_by == "nesting_depth"@ ==> b.nesting_depth <= a.nesting_depth
                &&& sort_by == "lines_of_code"@ ==> b.lines_of_code <= a.lines_of_code
            },
{
    reveal_strlit("churn_score");
    reveal_strlit("cyclomatic_complexity");
    reveal_strlit("times_modified");
    reveal_strlit("nesting_depth");
    reveal_strlit("lines_of_code");
    let field = sort_field_named(sort_by)->Some_0;
    assert("cyclomatic_complexity"@[1] != "churn_score"@[1]);
    assert("times_modified"@[0] != "churn_score"@[0]);
    assert("times_modified"@[0] != "cyclomatic_complexity"@[0]);
    assert("nesting_depth"@[0] != "churn_score"@[0]);
    assert("nesting_depth"@[0] != "cyclomatic_complexity"@[0]);
    assert("nesting_depth"@[0] != "times_modified"@[0]);
    assert("lines_of_code"@[0] != "churn_score"@[0]);
    assert("lines_of_code"@[0] != "cyclomatic_complexity"@[0]);
    assert("lines_of_code"@[0] != "times_modified"@[0]);
    assert("lines_of_code"@[0] != "nesting_depth"@[0]);
    assert(sort_by == "churn_score"@ ==> field == SortField::ChurnScore);
    assert(sort_by == "cyclomatic_complexity"@ ==> field == SortField::CyclomaticComplexity);
    assert(sort_by == "times_modified"@ ==> field == SortField::TimesModified);
    assert(sort_by == "nesting_depth"@ ==> field == SortField::NestingDepth);
    assert(sort_by == "lines_of_code"@ ==> field == SortField::LinesOfCode);
    assert forall|i: int, j: int| 0 <= i < j < output.len() implies {
        let (a, b) = (#[trigger] output[i], #[trigger] output[j]);
        let (na, da) = churn_ratio(a.times_modified, a.bug_fix_commits, a.authors_count);
        let (nb, db) = churn_ratio(b.times_modified, b.bug_fix_commits, b.authors_count);
        &&& sort_by == "churn_score"@ ==> nb * da <= na * db
        &&& sort_by == "cyclomatic_complexity"@ ==> b.cyclomatic_complexity <= a.cyclomatic_complexity
        &&& sort_by == "times_modified"@ ==> b.times_modified <= a.times_modified
        &&& sort_by == "nesting_depth"@ ==> b.nesting_depth <= a.nesting_depth
        &&& sort_by == "lines_of_code"@ ==> b.lines_of_code <= a.lines_of_code
    } by {
        assert(FunctionMetrics::rank_le(field, output[j], output[i]));
        assert(key_le(field, output[j], output[i]));
    }
}

// ---------------------------------------------------------------------------
// Churn per file
// ---------------------------------------------------------------------------

/// The churn attributed to a file.
#[derive(Debug)]
pub struct FileChurn {
    pub file: String,
    pub churn: usize,
}

/// What a function adds to the churn of its file: the number of times the
/// file was modified, and at least 1.
pub open spec fn modification_weight(f: FunctionMetricsView) -> nat {
    if f.times_modified == 0 {
        1
    } else {
        f.times_modified as nat
    }
}

/// The churn of `file`: what its functions among `fs` add to it.
pub open spec fn file_weight(fs: Seq<FunctionMetricsView>, file: Seq<char>) -> nat
    decreases fs.len(),
{
    if fs.len() == 0 {
        0
    } else {
        file_weight(fs.drop_last(), file) + if fs.last().file == file {
            modification_weight(fs.last())
        } else {
            0
        }
    }
}

/// The files of `fs`, each once, in the order in which they first occur.
pub open spec fn files_in_order(fs: Seq<FunctionMetricsView>) -> Seq<Seq<char>>
    decreases fs.len(),
{
    if fs.len() == 0 {
        seq![]
    } else {
        let prev = files_in_order(fs.drop_last());
        if prev.contains(fs.last().file) {
            prev
        } else {
            prev.push(fs.last().file)
        }
    }
}

/// The churn of every file of `fs` fits in a `usize`.
pub open spec fn file_churn_fits(fs: Seq<FunctionMetricsView>) -> bool {
    forall|i: int| 0 <= i < files_in_order(fs).len() ==> #[trigger] file_weight(fs, files_in_order(fs)[i]) <= usize::MAX
}

/// `totals` lists the files of `fs` in the order of their first function,
/// each with its churn.
pub open spec fn is_file_churn_of(fs: Seq<FunctionMetricsView>, totals: Seq<FileChurn>) -> bool {
    &&& totals.len() == files_in_order(fs).len()
    &&& forall|i: int|
        0 <= i < totals.len() ==> (#[trigger] totals[i]).file@ == files_in_order(fs)[i] && totals[i].churn
            == file_weight(fs, files_in_order(fs)[i])
}

/// No file is listed twice.
pub proof fn lemma_files_in_order_distinct(fs: Seq<FunctionMetricsView>)
    ensures
        files_in_order(fs).no_duplicates(),
    decreases fs.len(),
{
    if fs.len() > 0 {
        lemma_files_in_order_distinct(fs.drop_last());
    }
}

/// A file that none of `fs` stands in has no churn.
pub proof fn lemma_unlisted_file_weight(fs: Seq<FunctionMetricsView>, file: Seq<char>)
    requires
        !files_in_order(fs).contains(file),
    ensures
        file_weight(fs, file) == 0,
    decreases fs.len(),
{
    if fs.len() > 0 {
        let prev = files_in_order(fs.drop_last());
        if prev.contains(file) {
            let i = choose|i: int| 0 <= i < prev.len() && prev[i] == file;
            if prev.contains(fs.last().file) {
                assert(files_in_order(fs)[i] == file);
            } else {
                assert(files_in_order(fs)[i] == file);
            }
        }
        if fs.last().file == file {
            if prev.contains(fs.last().file) {
            } else {
                assert(files_in_order(fs)[prev.len() as int] == file);
            }
        }
        lemma_unlisted_file_weight(fs.drop_last(), file);
    }
}

/// The files of a prefix are listed first among the files of a longer prefix,
/// and a file's churn only grows with the prefix.
pub proof fn lemma_prefix_files(fs: Seq<FunctionMetricsView>, a: int, b: int, file: Seq<char>)
    requires
        0 <= a <= b <= fs.len(),
    ensures
        files_in_order(fs.take(a)).len() <= files_in_order(fs.take(b)).len(),
        files_in_order(fs.take(a)) == files_in_order(fs.take(b)).take(files_in_order(fs.take(a)).len() as int),
        file_weight(fs.take(a), file) <= file_weight(fs.take(b), file),
    decreases b - a,
{
    if a < b {
        lemma_prefix_files(fs, a, b - 1, file);
        assert(fs.take(b).drop_last() =~= fs.take(b - 1));
        let prev = files_in_order(fs.take(b - 1));
        assert(prev.push(fs[b - 1].file).take(prev.len() as int) =~= prev);
        assert(prev.take(files_in_order(fs.take(a)).len() as int) =~= files_in_order(fs.take(b)).take(
            files_in_order(fs.take(a)).len() as int,
        ));
    }
}

/// What all functions of `fs` add to the churn of their files.
pub open spec fn total_weight(fs: Seq<FunctionMetricsView>) -> nat
    decreases fs.len(),
{
    if fs.len() == 0 {
        0
    } else {
        total_weight(fs.drop_last()) + modification_weight(fs.last())
    }
}

/// The churn of the files `files` added up.
pub open spec fn churn_sum(fs: Seq<FunctionMetricsView>, files: Seq<Seq<char>>) -> nat
    decreases files.len(),
{
    if files.len() == 0 {
        0
    } else {
        churn_sum(fs, files.drop_last()) + file_weight(fs, files.last())
    }
}

proof fn lemma_churn_sum_step(fs: Seq<FunctionMetricsView>, files: Seq<Seq<char>>)
    requires
        fs.len() > 0,
        files.no_duplicates(),
    ensures
        churn_sum(fs, files) == churn_sum(fs.drop_last(), files) + if files.contains(fs.last().file) {
            modification_weight(fs.last())
        } else {
            0
        },
    decreases files.len(),
{
    if files.len() > 0 {
        let rest = files.drop_last();
        assert(rest.no_duplicates());
        lemma_churn_sum_step(fs, rest);
        let c = fs.last().file;
        if files.last() == c {
            assert(!rest.contains(c)) by {
                if rest.contains(c) {
                    let i = choose|i: int| 0 <= i < rest.len() && rest[i] == c;
                    assert(files[i] == files[files.len() - 1]);
                }
            }
            assert(files.contains(c)) by {
                assert(files[files.len() - 1] == c);
            }
        } else {
            assert(files.contains(c) == rest.contains(c)) by {
                if files.contains(c) {
                    let i = choose|i: int| 0 <= i < files.len() && files[i] == c;
                    assert(rest[i] == c);
                }
                if rest.contains(c) {
                    let i = choose|i: int| 0 <= i < rest.len() && rest[i] == c;
                    assert(files[i] == c);
                }
            }
        }
    }
}

/// The churn of the files of `fs` adds up to what all functions of `fs` add
/// to it: no function's weight is lost or counted twice.
pub proof fn lemma_file_churn_conserved(fs: Seq<FunctionMetricsView>)
    ensures
        churn_sum(fs, files_in_order(fs)) == total_weight(fs),
    decreases fs.len(),
{
    if fs.len() > 0 {
        let prev = fs.drop_last();
        let c = fs.last().file;
        lemma_file_churn_conserved(prev);
        lemma_files_in_order_distinct(prev);
        lemma_files_in_order_distinct(fs);
        let before = files_in_order(prev);
        if before.contains(c) {
            lemma_churn_sum_step(fs, before);
        } else {
            lemma_churn_sum_step(fs, before);
            lemma_unlisted_file_weight(prev, c);
            let after = before.push(c);
            assert(after.drop_last() =~= before);
        }
    }
}

/// The churn of every file of `functions`, the files in the order of their
/// first function; nothing where some file's churn does not fit in a
/// `usize`.
pub fn file_churn_totals(functions: &Vec<FunctionMetrics>) -> (r: Option<Vec<FileChurn>>)
    ensures
        r is Some <==> file_churn_fits(metrics_views(functions@)),
        r is Some ==> is_file_churn_of(metrics_views(functions@), r->Some_0@),
{
    let ghost fs = metrics_views(functions@);
    let mut totals: Vec<FileChurn> = Vec::new();
    let mut k: usize = 0;
    assert(fs.take(0) =~= Seq::<FunctionMetricsView>::empty());
    while k < functions.len()
        invariant
            fs == metrics_views(functions@),
            fs.len() == functions@.len(),
            k <= functions@.len(),
            is_file_churn_of(fs.take(k as int), totals@),
        decreases functions@.len() - k,
    {
        let f = &functions[k];
        let ghost fv = fs[k as int];
        let ghost pre = fs.take(k as int);
        let ghost post = fs.take(k + 1);
        proof {
            assert(post.drop_last() =~= pre);
            assert(post.last() == fv);
            assert(fv == f@);
            lemma_files_in_order_distinct(pre);
        }
        let weight: usize = if f.times_modified == 0 { 1 } else { f.times_modified };
        let mut j: usize = 0;
        while j < totals.len() && totals[j].file != f.file
            invariant
                j <= totals@.len(),
                forall|i: int| 0 <= i < j ==> (#[trigger] totals@[i]).file@ != f.file@,
            decreases totals@.len() - j,
        {
            j = j + 1;
        }
        if j < totals.len() {
            assert(files_in_order(pre)[j as int] == fv.file);
            assert(files_in_order(pre).contains(fv.file));
            let current = totals[j].churn;
            match current.checked_add(weight) {
                Some(sum) => {
                    let ghost old_totals = totals@;
                    totals.set(j, FileChurn { file: f.file.clone(), churn: sum });
                    assert forall|i: int| 0 <= i < totals@.len() implies (#[trigger] totals@[i]).file@
                        == files_in_order(post)[i] && totals@[i].churn == file_weight(
                        post,
                        files_in_order(post)[i],
                    ) by {
                        if i != j {
                            assert(files_in_order(pre)[i] != files_in_order(pre)[j as int]);
                        }
                    }
                },
                None => {
                    proof {
                        lemma_prefix_files(fs, k + 1, fs.len() as int, fv.file);
                        assert(fs.take(fs.len() as int) =~= fs);
                        assert(files_in_order(fs)[j as int] == fv.file);
                        assert(file_weight(fs, files_in_order(fs)[j as int]) > usize::MAX);
                    }
                    return None;
                },
            }
        } else {
            assert(!files_in_order(pre).contains(fv.file)) by {
                if files_in_order(pre).contains(fv.file) {
                    let i = choose|i: int| 0 <= i < files_in_order(pre).len() && files_in_order(pre)[i] == fv.file;
                    assert(totals@[i].file@ == fv.file);
                }
            }
            proof {
                lemma_unlisted_file_weight(pre, fv.file);
            }
            totals.push(FileChurn { file: f.file.clone(), churn: weight });
            assert forall|i: int| 0 <= i < totals@.len() implies (#[trigger] totals@[i]).file@
                == files_in_order(post)[i] && totals@[i].churn == file_weight(post, files_in_order(post)[i]) by {
                if i < totals@.len() - 1 {
                    assert(files_in_order(pre)[i] != fv.file);
                }
            }
        }
        k = k + 1;
    }
    assert(fs.take(k as int) =~= fs);
    assert forall|i: int| 0 <= i < files_in_order(fs).len() implies #[trigger] file_weight(
        fs,
        files_in_order(fs)[i],
    ) <= usize::MAX by {
        assert(totals@[i].churn == file_weight(fs, files_in_order(fs)[i]));
    }
    Some(totals)
}

// ---------------------------------------------------------------------------
// Summary
// ---------------------------------------------------------------------------

impl Ranked for FileChurn {
    type Order = ();

    open spec fn rank_le(order: (), a: FileChurn, b: FileChurn) -> bool {
        a.churn <= b.churn
    }

    proof fn lemma_rank_le_transitive(order: (), a: FileChurn, b: FileChurn, c: FileChurn) {
    }

    proof fn lemma_rank_le_total(order: (), a: FileChurn, b: FileChurn) {
    }

    fn ranks_above(order: &(), a: &FileChurn, b: &FileChurn) -> (r: bool) {
        a.churn > b.churn
    }
}

/// How many files a summary names.
pub const MOST_CHURNED_LIMIT: usize = 10;

/// The files of `ranked`, from the first, at most `MOST_CHURNED_LIMIT` of them.
pub open spec fn leading_files(ranked: Seq<FileChurn>) -> Seq<Seq<char>> {
    let n = if ranked.len() < MOST_CHURNED_LIMIT { ranked.len() } else { MOST_CHURNED_LIMIT as nat };
    Seq::new(n, |i: int| ranked[i].file@)
}

/// The files with the most churn, most first, files of equal churn in the
/// order in which `file_metrics` lists them, at most `MOST_CHURNED_LIMIT`
/// of them.
pub fn most_churned_files(file_metrics: &Vec<FileChurn>) -> (r: Vec<String>)
    ensures
        exists|ranked: Seq<FileChurn>|
            stable_sort_of((), file_metrics@, ranked) && #[trigger] leading_files(ranked) == r@.map_values(
                |s: String| s@,
            ),
{
    let mut ranked: Vec<FileChurn> = Vec::new();
    let mut i: usize = 0;
    while i < file_metrics.len()
        invariant
            i <= file_metrics@.len(),
            ranked@ == file_metrics@.take(i as int),
        decreases file_metrics@.len() - i,
    {
        ranked.push(FileChurn { file: file_metrics[i].file.clone(), churn: file_metrics[i].churn });
        assert(ranked@ =~= file_metrics@.take(i + 1));
        i = i + 1;
    }
    assert(ranked@ =~= file_metrics@);
    stable_sort_desc(&(), &mut ranked);
    let mut names: Vec<String> = Vec::new();
    let mut j: usize = 0;
    while j < ranked.len() && j < MOST_CHURNED_LIMIT
        invariant
            j <= ranked@.len(),
            j <= MOST_CHURNED_LIMIT,
            names@.len() == j,
            forall|k: int| 0 <= k < j ==> (#[trigger] names@[k])@ == ranked@[k].file@,
        decreases ranked@.len() - j,
    {
        names.push(ranked[j].file.clone());
        j = j + 1;
    }
    assert(leading_files(ranked@) =~= names@.map_values(|s: String| s@));
    names
}

/// The counted parts of a report's summary: how many functions the report
/// lists, and the files with the most churn.
#[derive(Debug)]
pub struct SummaryCounts {
    pub total_functions: usize,
    pub most_churned_files: Vec<String>,
}

/// `r` summarises a report listing `functions` whose files have the churn in
/// `file_metrics`: it counts the functions and names the files with the most
/// churn, most first, files of equal churn in the order of `file_metrics`, at
/// most `MOST_CHURNED_LIMIT` of them.
pub open spec fn is_summary_of(functions: Seq<FunctionMetrics>, file_metrics: Seq<FileChurn>, r: SummaryCounts) -> bool {
    &&& r.total_functions == functions.len()
    &&& exists|ranked: Seq<FileChurn>|
        stable_sort_of((), file_metrics, ranked) && #[trigger] leading_files(ranked)
            == r.most_churned_files@.map_values(|s: String| s@)
}

/// The counted parts of the summary of a report listing `functions`, with the
/// churn of its files in `file_metrics`.
pub fn calculate_summary(functions: &Vec<FunctionMetrics>, file_metrics: &Vec<FileChurn>) -> (r: SummaryCounts)
    ensures
        is_summary_of(functions@, file_metrics@, r),
{
    SummaryCounts { total_functions: functions.len(), most_churned_files: most_churned_files(file_metrics) }
}

/// A summary is a function of what it summarises: two summaries of the same
/// functions and file churn count the same number of functions and name the
/// same files in the same order.
pub proof fn lemma_summary_deterministic(
    functions: Seq<FunctionMetrics>,
    file_metrics: Seq<FileChurn>,
    r1: SummaryCounts,
    r2: SummaryCounts,
)
    requires
        is_summary_of(functions, file_metrics, r1),
        is_summary_of(functions, file_metrics, r2),
    ensures
        r1.total_functions == r2.total_functions,
        r1.most_churned_files@.map_values(|s: String| s@) == r2.most_churned_files@.map_values(|s: String| s@),
{
    let ranked1 = choose|ranked: Seq<FileChurn>|
        stable_sort_of((), file_metrics, ranked) && #[trigger] leading_files(ranked)
            == r1.most_churned_files@.map_values(|s: String| s@);
    let ranked2 = choose|ranked: Seq<FileChurn>|
        stable_sort_of((), file_metrics, ranked) && #[trigger] leading_files(ranked)
            == r2.most_churned_files@.map_values(|s: String| s@);
    lemma_stable_sort_unique((), file_metrics, ranked1, ranked2);
}

// ---------------------------------------------------------------------------
// Assembling the report
// ---------------------------------------------------------------------------

/// A function of a file at `path`, with the file's churn where it is known.
pub open spec fn with_file_churn(
    f: FunctionMetricsView,
    path: Seq<char>,
    churn: Option<ChurnMetrics>,
) -> FunctionMetricsView {
    match churn {
        Some(c) => FunctionMetricsView {
            name: f.name,
            file: path,
            line: f.line,
            cyclomatic_complexity: f.cyclomatic_complexity,
            nesting_depth: f.nesting_depth,
            lines_of_code: f.lines_of_code,
            times_modified: c.times_modified,
            bug_fix_commits: c.bug_fix_commits,
            authors_count: c.authors_count,
        },
        None => FunctionMetricsView {
            name: f.name,
            file: path,
            line: f.line,
            cyclomatic_complexity: f.cyclomatic_complexity,
            nesting_depth: f.nesting_depth,
            lines_of_code: f.lines_of_code,
            times_modified: f.times_modified,
            bug_fix_commits: f.bug_fix_commits,
            authors_count: f.authors_count,
        },
    }
}

/// Attaching a file's churn to a function keeps what was measured of it (its
/// name, line, complexity, nesting depth and length), records `path` as its
/// file, and takes the file's modifications, fixes and authors where they are
/// known, keeping its own otherwise.
pub proof fn lemma_file_churn_keeps_measures(f: FunctionMetricsView, path: Seq<char>, churn: Option<ChurnMetrics>)
    ensures
        with_file_churn(f, path, churn).name == f.name,
        with_file_churn(f, path, churn).line == f.line,
        with_file_churn(f, path, churn).cyclomatic_complexity == f.cyclomatic_complexity,
        with_file_churn(f, path, churn).nesting_depth == f.nesting_depth,
        with_file_churn(f, path, churn).lines_of_code == f.lines_of_code,
        with_file_churn(f, path, churn).file == path,
        churn is Some ==> with_file_churn(f, path, churn).times_modified == churn->Some_0.times_modified
            && with_file_churn(f, path, churn).bug_fix_commits == churn->Some_0.bug_fix_commits
            && with_file_churn(f, path, churn).authors_count == churn->Some_0.authors_count,
        churn is None ==> with_file_churn(f, path, churn).times_modified == f.times_modified
            && with_file_churn(f, path, churn).bug_fix_commits == f.bug_fix_commits
            && with_file_churn(f, path, churn).authors_count == f.authors_count,
{
}

/// The functions of an analysed file are its measured functions, one for one
/// and in order, each with the same name, line, complexity, nesting depth and
/// length.
pub proof fn lemma_file_functions_keep_measures(fa: FileAnalysis)
    ensures
        file_functions(fa).len() == fa.functions@.len(),
        forall|i: int|
            0 <= i < fa.functions@.len() ==> {
                let g = #[trigger] file_functions(fa)[i];
                let f = fa.functions@[i];
                &&& g.name == f.name@
                &&& g.line == f.line
                &&& g.cyclomatic_complexity == f.cyclomatic_complexity
                &&& g.nesting_depth == f.nesting_depth
                &&& g.lines_of_code == f.lines_of_code
            },
{
    assert forall|i: int| 0 <= i < fa.functions@.len() implies {
        let g = #[trigger] file_functions(fa)[i];
        let f = fa.functions@[i];
        &&& g.name == f.name@
        &&& g.line == f.line
        &&& g.cyclomatic_complexity == f.cyclomatic_complexity
        &&& g.nesting_depth == f.nesting_depth
        &&& g.lines_of_code == f.lines_of_code
    } by {
        assert(metrics_views(fa.functions@)[i] == fa.functions@[i]@);
        match fa.relative_path {
            Some(path) => lemma_file_churn_keeps_measures(metrics_views(fa.functions@)[i], path@, fa.churn),
            None => {},
        }
    }
}

/// Records `relative_path` as the file of every function, and the file's
/// churn where it is known.
pub fn attach_file_churn(functions: &mut Vec<FunctionMetrics>, relative_path: &str, churn: Option<ChurnMetrics>)
    ensures
        metrics_views(final(functions)@) == metrics_views(old(functions)@).map_values(
            |f: FunctionMetricsView| with_file_churn(f, relative_path@, churn),
        ),
        final(functions)@.len() == old(functions)@.len(),
        forall|i: int|
            0 <= i < old(functions)@.len() ==> {
                &&& (#[trigger] final(functions)@[i]).name@ == old(functions)@[i].name@
                &&& final(functions)@[i].line == old(functions)@[i].line
                &&& final(functions)@[i].cyclomatic_complexity == old(functions)@[i].cyclomatic_complexity
                &&& final(functions)@[i].nesting_depth == old(functions)@[i].nesting_depth
                &&& final(functions)@[i].lines_of_code == old(functions)@[i].lines_of_code
                &&& final(functions)@[i].file@ == relative_path@
            },
{
    let ghost before = metrics_views(functions@);
    let mut i: usize = 0;
    while i < functions.len()
        invariant
            i <= functions@.len(),
            functions@.len() == before.len(),
            forall|k: int| 0 <= k < i ==> (#[trigger] functions@[k])@ == with_file_churn(before[k], relative_path@, churn),
            forall|k: int| i <= k < functions@.len() ==> (#[trigger] functions@[k])@ == before[k],
        decreases functions@.len() - i,
    {
        let f = &functions[i];
        let updated = match churn {
            Some(c) => FunctionMetrics {
                name: f.name.clone(),
                file: relative_path.to_owned(),
                line: f.line,
                cyclomatic_complexity: f.cyclomatic_complexity,
                nesting_depth: f.nesting_depth,
                lines_of_code: f.lines_of_code,
                times_modified: c.times_modified,
                bug_fix_commits: c.bug_fix_commits,
                authors_count: c.authors_count,
            },
            None => FunctionMetrics {
                name: f.name.clone(),
                file: relative_path.to_owned(),
                line: f.line,
                cyclomatic_complexity: f.cyclomatic_complexity,
                nesting_depth: f.nesting_depth,
                lines_of_code: f.lines_of_code,
                times_modified: f.times_modified,
                bug_fix_commits: f.bug_fix_commits,
                authors_count: f.authors_count,
            },
        };
        functions.set(i, updated);
        i = i + 1;
    }
    assert(metrics_views(functions@) =~= before.map_values(
        |f: FunctionMetricsView| with_file_churn(f, relative_path@, churn),
    ));
    proof {
        assert forall|i: int| 0 <= i < functions@.len() implies (#[trigger] functions@[i])@ == with_file_churn(
            before[i],
            relative_path@,
            churn,
        ) by {
            lemma_file_churn_keeps_measures(before[i], relative_path@, churn);
        }
    }
}

/// One analysed source file: its path relative to the repository where it
/// has one, the file's churn where it is known, and its functions.
pub struct FileAnalysis {
    pub relative_path: Option<String>,
    pub churn: Option<ChurnMetrics>,
    pub functions: Vec<FunctionMetrics>,
}

/// The functions of one analysed file, with its relative path and churn
/// recorded where it has a relative path.
pub open spec fn file_functions(fa: FileAnalysis) -> Seq<FunctionMetricsView> {
    match fa.relative_path {
        Some(path) => metrics_views(fa.functions@).map_values(
            |f: FunctionMetricsView| with_file_churn(f, path@, fa.churn),
        ),
        None => metrics_views(fa.functions@),
    }
}

/// The functions of all analysed files, file after file.
pub open spec fn analysed_functions(files: Seq<FileAnalysis>) -> Seq<FunctionMetricsView>
    decreases files.len(),
{
    if files.len() == 0 {
        seq![]
    } else {
        analysed_functions(files.drop_last()) + file_functions(files.last())
    }
}

/// The first `limit` values of `s`, or all of them where there is no limit or
/// fewer values.
pub open spec fn limited<T>(s: Seq<T>, limit: Option<usize>) -> Seq<T> {
    match limit {
        Some(l) => if l < s.len() { s.take(l as int) } else { s },
        None => s,
    }
}

/// The functions of a report and the counts of its summary.
pub struct FunctionReport {
    pub functions: Vec<FunctionMetrics>,
    pub summary: SummaryCounts,
}

/// `report` is what analysing `files` gives: all their functions, ranked (as
/// [`sort_functions`] ranks them) by the metric that `sort_by` names (left in
/// order for any other name), at most `limit` of them, and a summary that
/// counts those listed and names the files with the most churn among all
/// functions.
pub open spec fn is_report_of(
    files: Seq<FileAnalysis>,
    sort_by: Seq<char>,
    limit: Option<usize>,
    report: FunctionReport,
) -> bool {
    exists|all: Seq<FunctionMetrics>, ranked: Seq<FunctionMetrics>, totals: Seq<FileChurn>, ranked_files: Seq<FileChurn>|
        #![trigger metrics_views(all), limited(ranked, limit), is_file_churn_of(analysed_functions(files), totals), leading_files(ranked_files)]
        {
            &&& metrics_views(all) == analysed_functions(files)
            &&& (sort_field_named(sort_by) is None ==> ranked == all)
            &&& (sort_field_named(sort_by) is Some ==> stable_sort_of(sort_field_named(sort_by)->Some_0, all, ranked))
            &&& report.functions@ == limited(ranked, limit)
            &&& report.summary.total_functions == report.functions@.len()
            &&& is_file_churn_of(analysed_functions(files), totals)
            &&& stable_sort_of((), totals, ranked_files)
            &&& leading_files(ranked_files) == report.summary.most_churned_files@.map_values(|s: String| s@)
        }
}

/// The number of functions that a report of `files` lists: all analysed
/// functions, or `limit` of them where there are more.
pub open spec fn listed_count(files: Seq<FileAnalysis>, limit: Option<usize>) -> nat {
    match limit {
        Some(l) => if l < analysed_functions(files).len() { l as nat } else { analysed_functions(files).len() },
        None => analysed_functions(files).len(),
    }
}

/// A report lists exactly as many functions as the limit lets through, counts
/// them in its summary, lists only analysed functions, and names at most
/// `MOST_CHURNED_LIMIT` files, each a file of some analysed function.
pub proof fn lemma_report_contents(files: Seq<FileAnalysis>, sort_by: Seq<char>, limit: Option<usize>, report: FunctionReport)
    requires
        is_report_of(files, sort_by, limit, report),
    ensures
        report.functions@.len() == listed_count(files, limit),
        report.summary.total_functions == listed_count(files, limit),
        forall|i: int|
            0 <= i < report.functions@.len() ==> exists|j: int|
                0 <= j < analysed_functions(files).len() && #[trigger] report.functions@[i]@ == analysed_functions(files)[j],
        report.summary.most_churned_files@.len() <= MOST_CHURNED_LIMIT,
        forall|i: int|
            0 <= i < report.summary.most_churned_files@.len() ==> files_in_order(analysed_functions(files)).contains(
                #[trigger] report.summary.most_churned_files@[i]@,
            ),
{
    let (all, ranked, totals, ranked_files) = choose|
        all: Seq<FunctionMetrics>,
        ranked: Seq<FunctionMetrics>,
        totals: Seq<FileChurn>,
        ranked_files: Seq<FileChurn>,
    |
        #![trigger metrics_views(all), limited(ranked, limit), is_file_churn_of(analysed_functions(files), totals), leading_files(ranked_files)]
        {
            &&& metrics_views(all) == analysed_functions(files)
            &&& (sort_field_named(sort_by) is None ==> ranked == all)
            &&& (sort_field_named(sort_by) is Some ==> stable_sort_of(sort_field_named(sort_by)->Some_0, all, ranked))
            &&& report.functions@ == limited(ranked, limit)
            &&& report.summary.total_functions == report.functions@.len()
            &&& is_file_churn_of(analysed_functions(files), totals)
            &&& stable_sort_of((), totals, ranked_files)
            &&& leading_files(ranked_files) == report.summary.most_churned_files@.map_values(|s: String| s@)
        };
    let fs = analysed_functions(files);
    assert(all.len() == fs.len());
    // Every ranked function is one of `all`.
    assert forall|i: int| 0 <= i < ranked.len() implies exists|j: int| 0 <= j < all.len() && #[trigger] ranked[i] == all[j] by {
        if sort_field_named(sort_by) is Some {
            let p = choose|p: Seq<int>| stable_arrangement(sort_field_named(sort_by)->Some_0, all, ranked, p);
            assert(ranked[i] == all[p[i]]);
        } else {
            assert(ranked[i] == all[i]);
        }
    }
    assert forall|i: int| 0 <= i < report.functions@.len() implies exists|j: int|
        0 <= j < fs.len() && #[trigger] report.functions@[i]@ == fs[j] by {
        assert(report.functions@[i] == ranked[i]);
        let j = choose|j: int| 0 <= j < all.len() && #[trigger] ranked[i] == all[j];
        assert(metrics_views(all)[j] == all[j]@);
    }
    let names = report.summary.most_churned_files@;
    assert(names.len() == leading_files(ranked_files).len());
    assert forall|i: int| 0 <= i < names.len() implies files_in_order(fs).contains(#[trigger] names[i]@) by {
        assert(leading_files(ranked_files)[i] == names[i]@);
        let p = choose|p: Seq<int>| stable_arrangement((), totals, ranked_files, p);
        let k = p[i];
        assert(ranked_files[i] == totals[k]);
        assert(totals[k].file@ == files_in_order(fs)[k]);
    }
}

/// A report is a function of what it reports on: two reports of the same
/// analysed files, sort name and limit list the same functions in the same
/// order, count them alike and name the same files in the same order.
pub proof fn lemma_report_deterministic(
    files: Seq<FileAnalysis>,
    sort_by: Seq<char>,
    limit: Option<usize>,
    r1: FunctionReport,
    r2: FunctionReport,
)
    requires
        is_report_of(files, sort_by, limit, r1),
        is_report_of(files, sort_by, limit, r2),
    ensures
        metrics_views(r1.functions@) == metrics_views(r2.functions@),
        r1.summary.total_functions == r2.summary.total_functions,
        r1.summary.most_churned_files@.map_values(|s: String| s@) == r2.summary.most_churned_files@.map_values(
            |s: String| s@,
        ),
{
    let (all1, ranked1, totals1, ranked_files1) = choose|
        all: Seq<FunctionMetrics>,
        ranked: Seq<FunctionMetrics>,
        totals: Seq<FileChurn>,
        ranked_files: Seq<FileChurn>,
    |
        #![trigger metrics_views(all), limited(ranked, limit), is_file_churn_of(analysed_functions(files), totals), leading_files(ranked_files)]
        {
            &&& metrics_views(all) == analysed_functions(files)
            &&& (sort_field_named(sort_by) is None ==> ranked == all)
            &&& (sort_field_named(sort_by) is Some ==> stable_sort_of(sort_field_named(sort_by)->Some_0, all, ranked))
            &&& r1.functions@ == limited(ranked, limit)
            &&& r1.summary.total_functions == r1.functions@.len()
            &&& is_file_churn_of(analysed_functions(files), totals)
            &&& stable_sort_of((), totals, ranked_files)
            &&& leading_files(ranked_files) == r1.summary.most_churned_files@.map_values(|s: String| s@)
        };
    let (all2, ranked2, totals2, ranked_files2) = choose|
        all: Seq<FunctionMetrics>,
        ranked: Seq<FunctionMetrics>,
        totals: Seq<FileChurn>,
        ranked_files: Seq<FileChurn>,
    |
        #![trigger metrics_views(all), limited(ranked, limit), is_file_churn_of(analysed_functions(files), totals), leading_files(ranked_files)]
        {
            &&& metrics_views(all) == analysed_functions(files)
            &&& (sort_field_named(sort_by) is None ==> ranked == all)
            &&& (sort_field_named(sort_by) is Some ==> stable_sort_of(sort_field_named(sort_by)->Some_0, all, ranked))
            &&& r2.functions@ == limited(ranked, limit)
            &&& r2.summary.total_functions == r2.functions@.len()
            &&& is_file_churn_of(analysed_functions(files), totals)
            &&& stable_sort_of((), totals, ranked_files)
            &&& leading_files(ranked_files) == r2.summary.most_churned_files@.map_values(|s: String| s@)
        };
    let view_of = |m: FunctionMetrics| m@;
    assert(all1.len() == all2.len());
    assert forall|i: int| 0 <= i < all1.len() implies view_of(#[trigger] all1[i]) == view_of(all2[i]) by {
        assert(metrics_views(all1)[i] == metrics_views(all2)[i]);
    }
    match sort_field_named(sort_by) {
        Some(field) => {
            assert forall|a: FunctionMetrics, b: FunctionMetrics, c: FunctionMetrics, d: FunctionMetrics|
                view_of(a) == view_of(c) && view_of(b) == view_of(d) implies #[trigger] FunctionMetrics::rank_le(
                field,
                a,
                b,
            ) == #[trigger] FunctionMetrics::rank_le(field, c, d) by {
                assert(a.file@ == c.file@ && a.name@ == c.name@);
                assert(b.file@ == d.file@ && b.name@ == d.name@);
            }
            lemma_stable_sort_unique_by_key(field, view_of, all1, all2, ranked1, ranked2);
        },
        None => {},
    }
    assert(metrics_views(ranked1) =~= metrics_views(ranked2));
    assert(metrics_views(r1.functions@) =~= metrics_views(r2.functions@)) by {
        assert forall|i: int| 0 <= i < r1.functions@.len() implies #[trigger] r1.functions@[i]@ == r2.functions@[i]@ by {
            assert(r1.functions@[i] == ranked1[i]);
            assert(r2.functions@[i] == ranked2[i]);
            assert(metrics_views(ranked1)[i] == metrics_views(ranked2)[i]);
        }
    }
    let churn_of = |c: FileChurn| (c.file@, c.churn);
    assert forall|i: int| 0 <= i < totals1.len() implies churn_of(#[trigger] totals1[i]) == churn_of(totals2[i]) by {
        assert(totals1[i].file@ == totals2[i].file@);
    }
    lemma_stable_sort_unique_by_key((), churn_of, totals1, totals2, ranked_files1, ranked_files2);
    assert(leading_files(ranked_files1) =~= leading_files(ranked_files2)) by {
        assert forall|i: int| 0 <= i < leading_files(ranked_files1).len() implies leading_files(ranked_files1)[i]
            == leading_files(ranked_files2)[i] by {
            assert(churn_of(ranked_files1[i]) == churn_of(ranked_files2[i]));
        }
    }
}

/// Assembles the report of analysed files: ranks their functions by the
/// metric that `sort_by` names, keeps at most `limit` of them, and summarises;
/// nothing where the churn of some file does not fit in a `usize`.
pub fn assemble_report(files: Vec<FileAnalysis>, sort_by: &str, limit: Option<usize>) -> (r: Option<FunctionReport>)
    ensures
        r is None <==> !file_churn_fits(analysed_functions(files@)),
        r is Some ==> is_report_of(files@, sort_by@, limit, r->Some_0),
{
    let ghost input = files@;
    let mut all: Vec<FunctionMetrics> = Vec::new();
    for fa in it: files
        invariant
            it.seq() == input,
            metrics_views(all@) == analysed_functions(input.take(it.index() as int)),
    {
        let ghost before = metrics_views(all@);
        let ghost k = it.index();
        let FileAnalysis { relative_path, churn, mut functions } = fa;
        match relative_path {
            Some(path) => attach_file_churn(&mut functions, path.as_str(), churn),
            None => {},
        }
        proof {
            assert(metrics_views(functions@) == file_functions(input[k as int]));
            assert(input.take(k + 1).drop_last() =~= input.take(k as int));
        }
        let ghost added = functions@;
        all.append(&mut functions);
        assert(metrics_views(all@) =~= before + metrics_views(added));
    }
    assert(input.take(input.len() as int) =~= input);
    let totals = match file_churn_totals(&all) {
        Some(t) => t,
        None => return None,
    };
    let ghost unsorted = all@;
    sort_functions(&mut all, sort_by);
    let ghost ranked = all@;
    match limit {
        Some(l) => all.truncate(l),
        None => {},
    }
    let summary = calculate_summary(&all, &totals);
    let report = FunctionReport { functions: all, summary };
    proof {
        assert(is_summary_of(report.functions@, totals@, report.summary));
        let ranked_files = choose|rf: Seq<FileChurn>|
            stable_sort_of((), totals@, rf) && #[trigger] leading_files(rf)
                == report.summary.most_churned_files@.map_values(|s: String| s@);
        assert(report.functions@ =~= limited(ranked, limit));
        assert(is_report_of(input, sort_by@, limit, report)) by {
            assert(metrics_views(unsorted) == analysed_functions(input));
            assert(is_file_churn_of(analysed_functions(input), totals@));
        }
    }
    Some(report)
}

} // verus!
