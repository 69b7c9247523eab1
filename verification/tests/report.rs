use churnlens::metrics::{ChurnMetrics, FunctionMetrics};
use churnlens::ranking::{sort_field_from_name, SortField};
use churnlens::{
    assemble_report, attach_file_churn, calculate_summary, file_churn_totals, is_skipped_entry,
    is_source_extension, most_churned_files, sort_functions, FileAnalysis, FileChurn,
};

fn metric(name: &str, file: &str, cc: u32, depth: u32, loc: u32, tm: usize, bf: usize, ac: usize) -> FunctionMetrics {
    FunctionMetrics {
        name: name.to_string(),
        file: file.to_string(),
        line: 1,
        cyclomatic_complexity: cc,
        nesting_depth: depth,
        lines_of_code: loc,
        times_modified: tm,
        bug_fix_commits: bf,
        authors_count: ac,
    }
}

fn names(fs: &[FunctionMetrics]) -> Vec<String> {
    fs.iter().map(|f| f.name.clone()).collect()
}

#[test]
fn sort_by_complexity_is_descending_and_stable() {
    let mut fs = vec![
        metric("a", "x.ts", 2, 0, 1, 0, 0, 0),
        metric("b", "x.ts", 5, 0, 1, 0, 0, 0),
        metric("c", "x.ts", 2, 0, 1, 0, 0, 0),
        metric("d", "x.ts", 7, 0, 1, 0, 0, 0),
        metric("e", "x.ts", 5, 0, 1, 0, 0, 0),
    ];
    sort_functions(&mut fs, "cyclomatic_complexity");
    assert_eq!(names(&fs), vec!["d", "b", "e", "a", "c"]);
}

#[test]
fn sort_by_other_fields() {
    let base = vec![
        metric("a", "x.ts", 1, 3, 10, 4, 0, 0),
        metric("b", "x.ts", 1, 1, 30, 9, 0, 0),
        metric("c", "x.ts", 1, 2, 20, 1, 0, 0),
    ];
    let mut fs = base.clone();
    sort_functions(&mut fs, "nesting_depth");
    assert_eq!(names(&fs), vec!["a", "c", "b"]);
    let mut fs = base.clone();
    sort_functions(&mut fs, "lines_of_code");
    assert_eq!(names(&fs), vec!["b", "c", "a"]);
    let mut fs = base.clone();
    sort_functions(&mut fs, "times_modified");
    assert_eq!(names(&fs), vec!["b", "a", "c"]);
}

#[test]
fn sort_by_churn_score_compares_exact_fractions() {
    // churn scores: a = 3*1/2 = 1.5, b = 4 (no authors), c = 2*3/4 = 1.5, d = 10*10/3 = 33.3
    let mut fs = vec![
        metric("a", "x.ts", 1, 0, 1, 3, 1, 2),
        metric("b", "x.ts", 1, 0, 1, 4, 0, 0),
        metric("c", "x.ts", 1, 0, 1, 2, 3, 4),
        metric("d", "x.ts", 1, 0, 1, 10, 10, 3),
    ];
    sort_functions(&mut fs, "churn_score");
    assert_eq!(names(&fs), vec!["d", "b", "a", "c"]);
}

#[test]
fn sort_by_churn_score_with_huge_counts() {
    let big = usize::MAX;
    let mut fs = vec![
        metric("small", "x.ts", 1, 0, 1, big, big, big),
        metric("large", "x.ts", 1, 0, 1, big, big, big - 1),
    ];
    sort_functions(&mut fs, "churn_score");
    assert_eq!(names(&fs), vec!["large", "small"]);
}

#[test]
fn sort_by_unknown_field_leaves_order() {
    let mut fs = vec![metric("a", "x.ts", 1, 0, 1, 0, 0, 0), metric("b", "x.ts", 9, 0, 1, 0, 0, 0)];
    sort_functions(&mut fs, "risk");
    assert_eq!(names(&fs), vec!["a", "b"]);
}

#[test]
fn sort_field_names() {
    assert_eq!(sort_field_from_name("churn_score"), Some(SortField::ChurnScore));
    assert_eq!(sort_field_from_name("lines_of_code"), Some(SortField::LinesOfCode));
    assert_eq!(sort_field_from_name("Churn_Score"), None);
    assert_eq!(sort_field_from_name(""), None);
}

#[test]
fn file_totals_sum_weights_per_file_in_first_order() {
    let fs = vec![
        metric("a", "b.ts", 1, 0, 1, 3, 0, 0),
        metric("b", "a.ts", 1, 0, 1, 0, 0, 0),
        metric("c", "b.ts", 1, 0, 1, 0, 0, 0),
        metric("d", "a.ts", 1, 0, 1, 5, 0, 0),
    ];
    let totals = file_churn_totals(&fs).unwrap();
    assert_eq!(totals.len(), 2);
    assert_eq!(totals[0].file, "b.ts");
    assert_eq!(totals[0].churn, 4);
    assert_eq!(totals[1].file, "a.ts");
    assert_eq!(totals[1].churn, 6);
}

#[test]
fn file_totals_overflow_gives_nothing() {
    let fs = vec![
        metric("a", "b.ts", 1, 0, 1, usize::MAX, 0, 0),
        metric("b", "b.ts", 1, 0, 1, 1, 0, 0),
    ];
    assert!(file_churn_totals(&fs).is_none());
    let separate = vec![
        metric("a", "a.ts", 1, 0, 1, usize::MAX, 0, 0),
        metric("b", "b.ts", 1, 0, 1, 1, 0, 0),
    ];
    assert!(file_churn_totals(&separate).is_some());
}

#[test]
fn most_churned_files_takes_ten_highest_stably() {
    let totals: Vec<FileChurn> = (0..12usize)
        .map(|i| FileChurn { file: format!("f{}.ts", i), churn: if i % 2 == 0 { 5 } else { i } })
        .collect();
    let top = most_churned_files(&totals);
    assert_eq!(
        top,
        vec!["f11.ts", "f9.ts", "f7.ts", "f0.ts", "f2.ts", "f4.ts", "f5.ts", "f6.ts", "f8.ts", "f10.ts"]
    );
}

#[test]
fn summary_counts_functions() {
    let fs = vec![metric("a", "a.ts", 1, 0, 1, 1, 0, 0), metric("b", "b.ts", 1, 0, 1, 2, 0, 0)];
    let totals = file_churn_totals(&fs).unwrap();
    let summary = calculate_summary(&fs, &totals);
    assert_eq!(summary.total_functions, 2);
    assert_eq!(summary.most_churned_files, vec!["b.ts", "a.ts"]);
}

#[test]
fn attach_churn_records_path_and_counts() {
    let mut fs = vec![metric("a", "/abs/src/a.ts", 2, 1, 3, 0, 0, 0)];
    attach_file_churn(
        &mut fs,
        "src/a.ts",
        Some(ChurnMetrics { times_modified: 4, bug_fix_commits: 2, authors_count: 3 }),
    );
    assert_eq!(fs[0].file, "src/a.ts");
    assert_eq!(fs[0].times_modified, 4);
    assert_eq!(fs[0].bug_fix_commits, 2);
    assert_eq!(fs[0].authors_count, 3);
    assert_eq!(fs[0].cyclomatic_complexity, 2);

    let mut gs = vec![metric("b", "/abs/src/b.ts", 2, 1, 3, 0, 0, 0)];
    attach_file_churn(&mut gs, "src/b.ts", None);
    assert_eq!(gs[0].file, "src/b.ts");
    assert_eq!(gs[0].times_modified, 0);
}

#[test]
fn assemble_report_ranks_limits_and_summarises() {
    let files = vec![
        FileAnalysis {
            relative_path: Some("src/a.ts".to_string()),
            churn: Some(ChurnMetrics { times_modified: 2, bug_fix_commits: 1, authors_count: 1 }),
            functions: vec![metric("low", "/r/src/a.ts", 1, 0, 1, 0, 0, 0), metric("high", "/r/src/a.ts", 1, 0, 1, 0, 0, 0)],
        },
        FileAnalysis {
            relative_path: Some("src/b.ts".to_string()),
            churn: Some(ChurnMetrics { times_modified: 6, bug_fix_commits: 3, authors_count: 2 }),
            functions: vec![metric("mid", "/r/src/b.ts", 1, 0, 1, 0, 0, 0)],
        },
        FileAnalysis {
            relative_path: None,
            churn: None,
            functions: vec![metric("outside", "/elsewhere/c.ts", 1, 0, 1, 0, 0, 0)],
        },
    ];
    let report = assemble_report(files, "churn_score", Some(2)).unwrap();
    // `high` and `low` share their file's churn; of the two, `high` comes
    // first by name.
    assert_eq!(names(&report.functions), vec!["mid", "high"]);
    assert_eq!(report.functions[0].file, "src/b.ts");
    assert_eq!(report.functions[0].times_modified, 6);
    assert_eq!(report.summary.total_functions, 2);
    assert_eq!(report.summary.most_churned_files, vec!["src/b.ts", "src/a.ts", "/elsewhere/c.ts"]);
}

#[test]
fn assemble_report_without_limit_keeps_all() {
    let files = vec![FileAnalysis {
        relative_path: Some("a.ts".to_string()),
        churn: None,
        functions: vec![metric("x", "a.ts", 3, 0, 1, 0, 0, 0), metric("y", "a.ts", 4, 0, 1, 0, 0, 0)],
    }];
    let report = assemble_report(files, "cyclomatic_complexity", None).unwrap();
    assert_eq!(names(&report.functions), vec!["y", "x"]);
    assert_eq!(report.summary.total_functions, 2);
    assert_eq!(report.summary.most_churned_files, vec!["a.ts"]);
}

#[test]
fn source_extensions() {
    assert!(is_source_extension("ts"));
    assert!(is_source_extension("tsx"));
    assert!(is_source_extension("js"));
    assert!(is_source_extension("jsx"));
    assert!(!is_source_extension("rs"));
    assert!(!is_source_extension("TS"));
}

#[test]
fn skipped_entries() {
    assert!(is_skipped_entry(".git"));
    assert!(is_skipped_entry("node_modules"));
    assert!(is_skipped_entry("dist"));
    assert!(is_skipped_entry("build"));
    assert!(is_skipped_entry("target"));
    assert!(!is_skipped_entry("src"));
    assert!(!is_skipped_entry(""));
}

#[test]
fn file_churn_adds_up_to_function_weights() {
    let fs = vec![
        metric("a", "a.ts", 1, 0, 1, 3, 0, 0),
        metric("b", "b.ts", 1, 0, 1, 0, 0, 0),
        metric("c", "a.ts", 1, 0, 1, 2, 0, 0),
        metric("d", "c.ts", 1, 0, 1, 7, 0, 0),
        metric("e", "b.ts", 1, 0, 1, 0, 0, 0),
    ];
    let totals = file_churn_totals(&fs).unwrap();
    let sum: usize = totals.iter().map(|t| t.churn).sum();
    let weights: usize = fs.iter().map(|f| f.times_modified.max(1)).sum();
    assert_eq!(sum, weights);
    assert_eq!(sum, 14);
}

#[test]
fn sorting_twice_changes_nothing() {
    let mut fs = vec![
        metric("a", "x.ts", 3, 0, 1, 0, 0, 0),
        metric("b", "x.ts", 1, 0, 1, 0, 0, 0),
        metric("c", "x.ts", 3, 0, 1, 0, 0, 0),
        metric("d", "x.ts", 2, 0, 1, 0, 0, 0),
    ];
    sort_functions(&mut fs, "cyclomatic_complexity");
    let once = names(&fs);
    sort_functions(&mut fs, "cyclomatic_complexity");
    assert_eq!(names(&fs), once);
    assert_eq!(once, vec!["a", "c", "d", "b"]);
}

#[test]
fn sort_of_empty_and_single() {
    let mut empty: Vec<FunctionMetrics> = Vec::new();
    sort_functions(&mut empty, "churn_score");
    assert!(empty.is_empty());
    let mut one = vec![metric("only", "x.ts", 1, 0, 1, 0, 0, 0)];
    sort_functions(&mut one, "lines_of_code");
    assert_eq!(names(&one), vec!["only"]);
}

fn located(name: &str, file: &str, line: u32, cc: u32) -> FunctionMetrics {
    let mut m = metric(name, file, cc, 0, 1, 0, 0, 0);
    m.line = line;
    m
}

#[test]
fn ties_are_ordered_by_file_name_and_line() {
    let mut fs = vec![
        located("b", "src/index.ts", 6, 1),
        located("a", "src/index.ts", 2, 1),
        located("z", "lib/a.ts", 9, 1),
        located("a", "src/index.ts", 1, 1),
        located("top", "src/z.ts", 3, 4),
        located("A", "src/index.ts", 7, 1),
    ];
    sort_functions(&mut fs, "cyclomatic_complexity");
    let order: Vec<(String, String, u32)> = fs.iter().map(|f| (f.file.clone(), f.name.clone(), f.line)).collect();
    assert_eq!(
        order,
        vec![
            ("src/z.ts".to_string(), "top".to_string(), 3),
            ("lib/a.ts".to_string(), "z".to_string(), 9),
            ("src/index.ts".to_string(), "A".to_string(), 7),
            ("src/index.ts".to_string(), "a".to_string(), 1),
            ("src/index.ts".to_string(), "a".to_string(), 2),
            ("src/index.ts".to_string(), "b".to_string(), 6),
        ]
    );
}

#[test]
fn equal_churn_scores_follow_file_name_and_line() {
    // Every function has the same churn score (one commit, no fix, one
    // author), as in a repository with a single commit.
    let mut fs = vec![
        located("b", "src/index.ts", 6, 1),
        located("a", "src/index.ts", 2, 2),
    ];
    for f in fs.iter_mut() {
        f.times_modified = 1;
        f.authors_count = 1;
    }
    sort_functions(&mut fs, "churn_score");
    assert_eq!(names(&fs), vec!["a", "b"]);
}

fn sample_files() -> Vec<FileAnalysis> {
    vec![
        FileAnalysis {
            relative_path: Some("src/b.ts".to_string()),
            churn: Some(ChurnMetrics { times_modified: 3, bug_fix_commits: 1, authors_count: 2 }),
            functions: vec![located("g", "/r/src/b.ts", 4, 2), located("f", "/r/src/b.ts", 1, 5)],
        },
        FileAnalysis {
            relative_path: Some("src/a.ts".to_string()),
            churn: Some(ChurnMetrics { times_modified: 3, bug_fix_commits: 1, authors_count: 2 }),
            functions: vec![located("h", "/r/src/a.ts", 2, 1)],
        },
    ]
}

#[test]
fn reports_of_the_same_input_are_equal() {
    let first = assemble_report(sample_files(), "churn_score", None).unwrap();
    let second = assemble_report(sample_files(), "churn_score", None).unwrap();
    let view = |fs: &[FunctionMetrics]| -> Vec<(String, String, u32)> {
        fs.iter().map(|f| (f.file.clone(), f.name.clone(), f.line)).collect()
    };
    assert_eq!(view(&first.functions), view(&second.functions));
    assert_eq!(names(&first.functions), vec!["h", "f", "g"]);
    assert_eq!(first.summary.total_functions, second.summary.total_functions);
    assert_eq!(first.summary.most_churned_files, second.summary.most_churned_files);
    assert_eq!(first.summary.most_churned_files, vec!["src/b.ts", "src/a.ts"]);
}

#[test]
fn summaries_of_the_same_input_are_equal() {
    let fs = vec![metric("a", "a.ts", 1, 0, 1, 2, 0, 0), metric("b", "b.ts", 1, 0, 1, 2, 0, 0)];
    let totals = file_churn_totals(&fs).unwrap();
    let first = calculate_summary(&fs, &totals);
    let second = calculate_summary(&fs, &totals);
    assert_eq!(first.total_functions, second.total_functions);
    assert_eq!(first.most_churned_files, second.most_churned_files);
    assert_eq!(first.most_churned_files, vec!["a.ts", "b.ts"]);
}
