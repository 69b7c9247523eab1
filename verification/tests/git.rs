use churnlens::git::{ChurnTally, GitAnalyzer};

#[test]
fn bug_fix_messages_are_found_in_any_case() {
    assert!(GitAnalyzer::is_bug_fix_message("Fix crash on start"));
    assert!(GitAnalyzer::is_bug_fix_message("FIX typo"));
    assert!(GitAnalyzer::is_bug_fix_message("squash a BUG"));
    assert!(GitAnalyzer::is_bug_fix_message("Fixed: off-by-one (#12)"));
    assert!(GitAnalyzer::is_bug_fix_message("bugfix"));
    assert!(GitAnalyzer::is_bug_fix_message("several bugs,fixes"));
    assert!(!GitAnalyzer::is_bug_fix_message("add feature"));
    assert!(!GitAnalyzer::is_bug_fix_message(""));
}

#[test]
fn bug_fix_words_must_stand_alone() {
    assert!(!GitAnalyzer::is_bug_fix_message("Add prefix parsing"));
    assert!(!GitAnalyzer::is_bug_fix_message("debugger support"));
    assert!(!GitAnalyzer::is_bug_fix_message("fix_up helper"));
    assert!(!GitAnalyzer::is_bug_fix_message("fixé"));
    assert!(GitAnalyzer::is_bug_fix_message("[fix] parser"));
    assert!(GitAnalyzer::is_bug_fix_message("é fix"));
}

#[test]
fn commit_touches_only_the_paths_it_changed() {
    let paths = vec!["src/a.tsx".to_string(), "lib/src/b.ts".to_string(), "README.md".to_string()];
    assert!(GitAnalyzer::file_modified_in_commit(&paths, "src/a.tsx"));
    assert!(GitAnalyzer::file_modified_in_commit(&paths, "README.md"));
    assert!(!GitAnalyzer::file_modified_in_commit(&paths, "src/a.ts"));
    assert!(!GitAnalyzer::file_modified_in_commit(&paths, "src/b.ts"));
    assert!(!GitAnalyzer::file_modified_in_commit(&vec![], "src/a.ts"));
}

#[test]
fn tally_counts_commits_fixes_and_distinct_authors() {
    let mut tally = ChurnTally::new();
    tally.record_commit(true, Some("Ann"), Some("Fix the parser"));
    tally.record_commit(true, Some("Bob"), Some("add feature"));
    tally.record_commit(false, Some("Cid"), Some("fix unrelated"));
    tally.record_commit(true, Some("Ann"), Some("bugfix"));
    tally.record_commit(true, Some("Ann"), Some("prefix the names"));
    tally.record_commit(true, None, None);
    let m = tally.finish();
    assert_eq!(m.times_modified, 5);
    assert_eq!(m.bug_fix_commits, 2);
    assert_eq!(m.authors_count, 2);
}

#[test]
fn empty_tally() {
    let m = ChurnTally::new().finish();
    assert_eq!(m.times_modified, 0);
    assert_eq!(m.bug_fix_commits, 0);
    assert_eq!(m.authors_count, 0);
}

use churnlens::git::CommitRecord;

fn commit(paths: &[&str], author: Option<&str>, message: Option<&str>) -> CommitRecord {
    CommitRecord {
        changed_paths: paths.iter().map(|p| p.to_string()).collect(),
        author: author.map(|a| a.to_string()),
        message: message.map(|m| m.to_string()),
    }
}

#[test]
fn churn_of_history_counts_touching_commits() {
    let commits = vec![
        commit(&["src/a.ts"], Some("Ann"), Some("Fix overflow")),
        commit(&["src/b.ts"], Some("Bob"), Some("fix b")),
        commit(&["docs/x.md", "src/a.ts"], Some("Bob"), Some("refactor")),
        commit(&["src/a.ts"], None, Some("BUG 12")),
        commit(&["src/a.tsx"], Some("Dan"), Some("fix the tsx file")),
        commit(&["src/a.ts", "src/b.ts"], Some("Cid"), Some("initial")),
    ];
    let m = GitAnalyzer::churn_of_history(&commits, "src/a.ts");
    assert_eq!(m.times_modified, 4);
    assert_eq!(m.bug_fix_commits, 2);
    assert_eq!(m.authors_count, 3);
    let b = GitAnalyzer::churn_of_history(&commits, "src/b.ts");
    assert_eq!(b.times_modified, 2);
    assert_eq!(b.bug_fix_commits, 1);
    assert_eq!(b.authors_count, 2);
    let readme = GitAnalyzer::churn_of_history(&commits, "README.md");
    assert_eq!(readme.times_modified, 0);
    let none = GitAnalyzer::churn_of_history(&Vec::new(), "src/a.ts");
    assert_eq!(none.times_modified, 0);
}
