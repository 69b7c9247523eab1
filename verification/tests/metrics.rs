use churnlens::error::ChurnLensError;
use churnlens::metrics::{churn_score_of, ChurnMetrics};
use churnlens::text::{compare_text, contains_word};

#[test]
fn churn_score_formula() {
    assert_eq!(churn_score_of(6, 3, 2), (18, 2));
    assert_eq!(churn_score_of(5, 4, 0), (5, 1));
    let m = ChurnMetrics { times_modified: 7, bug_fix_commits: 0, authors_count: 3 };
    assert_eq!(m.churn_score(), (0, 3));
    assert_eq!(
        churn_score_of(usize::MAX, usize::MAX, 1),
        ((usize::MAX as u128) * (usize::MAX as u128), 1)
    );
}

#[test]
fn error_messages() {
    assert_eq!(ChurnLensError::ParseError("bad".to_string()).message(), "Parse error: bad");
    assert_eq!(ChurnLensError::GitError("no repo".to_string()).message(), "Git error: no repo");
    assert_eq!(ChurnLensError::IoError("denied".to_string()).message(), "IO error: denied");
}

#[test]
fn texts_compare_by_code_point() {
    assert_eq!(compare_text("a", "b"), -1);
    assert_eq!(compare_text("b", "a"), 1);
    assert_eq!(compare_text("abc", "abc"), 0);
    assert_eq!(compare_text("ab", "abc"), -1);
    assert_eq!(compare_text("", ""), 0);
    assert_eq!(compare_text("Z", "a"), -1);
    assert_eq!(compare_text("é", "z"), 1);
    assert_eq!(compare_text("src/a.ts", "src/a.tsx"), -1);
}

#[test]
fn words_are_found_whole() {
    assert!(contains_word("a fix here", "fix"));
    assert!(contains_word("fix", "fix"));
    assert!(contains_word("(fix)", "fix"));
    assert!(!contains_word("prefix", "fix"));
    assert!(!contains_word("fixture", "fix"));
    assert!(!contains_word("fix2", "fix"));
    assert!(!contains_word("", "fix"));
    assert!(!contains_word("fi", "fix"));
}
