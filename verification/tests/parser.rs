use churnlens::assemble_report;
use churnlens::ast::parser::TypeScriptAnalyzer;
use churnlens::git::{CommitRecord, GitAnalyzer};
use churnlens::FileAnalysis;

#[test]
fn test_parse_simple_function() {
    let source = r#"
        function add(a: number, b: number): number {
            return a + b;
        }
        "#;

    let result = TypeScriptAnalyzer::parse_source(source, "test.ts");
    assert!(result.is_ok());
    let functions = result.unwrap();
    assert!(!functions.is_empty());
}

#[test]
fn test_parse_complex_function() {
    let source = r#"
        function validate(input: any): boolean {
            if (!input) return false;
            if (typeof input !== 'string') return false;
            if (input.length === 0) return false;
            if (input.length > 100) return false;
            return true;
        }
        "#;

    let result = TypeScriptAnalyzer::parse_source(source, "test.ts");
    assert!(result.is_ok());
    let functions = result.unwrap();
    assert!(!functions.is_empty());
    assert!(functions[0].cyclomatic_complexity > 1);
}

#[test]
fn simple_function_metrics_are_exact() {
    let source = "function add(a: number, b: number): number {\n    return a + b;\n}\n";
    let functions = TypeScriptAnalyzer::parse_source(source, "src/add.ts").unwrap();
    assert_eq!(functions.len(), 1);
    let f = &functions[0];
    assert_eq!(f.name, "add");
    assert_eq!(f.file, "src/add.ts");
    assert_eq!(f.line, 1);
    assert_eq!(f.cyclomatic_complexity, 1);
    assert_eq!(f.nesting_depth, 0);
    assert_eq!(f.lines_of_code, 3);
    assert_eq!(f.times_modified, 0);
    assert_eq!(f.bug_fix_commits, 0);
    assert_eq!(f.authors_count, 0);
}

#[test]
fn complex_function_counts_every_if() {
    let source = r#"
        function validate(input: any): boolean {
            if (!input) return false;
            if (typeof input !== 'string') return false;
            if (input.length === 0) return false;
            if (input.length > 100) return false;
            return true;
        }
        "#;
    let functions = TypeScriptAnalyzer::parse_source(source, "test.ts").unwrap();
    assert_eq!(functions.len(), 1);
    assert_eq!(functions[0].name, "validate");
    assert_eq!(functions[0].cyclomatic_complexity, 5);
    assert_eq!(functions[0].nesting_depth, 1);
    assert_eq!(functions[0].line, 2);
    assert_eq!(functions[0].lines_of_code, 7);
}

#[test]
fn functions_are_listed_in_document_order() {
    let source = "function a() {\n    if (x) {}\n}\n\nconst b = () => {};\n\nclass C {\n    m() { return 1; }\n}\n";
    let functions = TypeScriptAnalyzer::parse_source(source, "index.ts").unwrap();
    let names: Vec<&str> = functions.iter().map(|f| f.name.as_str()).collect();
    assert_eq!(names, vec!["a", "b", "m"]);
    assert_eq!(functions[0].cyclomatic_complexity, 2);
    assert_eq!(functions[0].nesting_depth, 1);
    assert_eq!(functions[0].lines_of_code, 3);
    assert_eq!(functions[1].line, 5);
    assert_eq!(functions[1].cyclomatic_complexity, 1);
    assert_eq!(functions[1].nesting_depth, 0);
    assert_eq!(functions[1].lines_of_code, 1);
    assert_eq!(functions[2].line, 8);
}

#[test]
fn anonymous_functions_take_the_name_of_what_they_are_assigned_to() {
    let source = "obj.handler = () => {};\nlet f;\nf = function () {};\nconst o = { key: () => 1, named: function inner() {} };\nclass K {\n  field = () => 2;\n}\nconst double = x => x * 2;\ncall(() => 3);\n";
    let functions = TypeScriptAnalyzer::parse_source(source, "n.ts").unwrap();
    let names: Vec<&str> = functions.iter().map(|f| f.name.as_str()).collect();
    assert_eq!(names, vec!["handler", "f", "key", "inner", "field", "double", "<anonymous>"]);
}

#[test]
fn methods_are_named_by_their_property() {
    let source = "class C { foo() { return 1; } get size() { return 0; } }\n";
    let functions = TypeScriptAnalyzer::parse_source(source, "c.ts").unwrap();
    let names: Vec<&str> = functions.iter().map(|f| f.name.as_str()).collect();
    assert_eq!(names, vec!["foo", "size"]);
}

#[test]
fn nested_functions_are_measured_on_their_own() {
    let source = "function outer() {\n    function inner() {\n        while (x) { if (y) { z(); } }\n    }\n}\n";
    let functions = TypeScriptAnalyzer::parse_source(source, "n.ts").unwrap();
    assert_eq!(functions.len(), 2);
    assert_eq!(functions[0].name, "outer");
    assert_eq!(functions[1].name, "inner");
    assert_eq!(functions[0].cyclomatic_complexity, 1);
    assert_eq!(functions[1].cyclomatic_complexity, 3);
    assert_eq!(functions[0].nesting_depth, 0);
    assert_eq!(functions[1].nesting_depth, 2);

    let source = "function outer() { const g = () => { if (x) { if (y) {} } }; }\n";
    let functions = TypeScriptAnalyzer::parse_source(source, "o.ts").unwrap();
    assert_eq!(functions.len(), 2);
    assert_eq!(functions[0].name, "outer");
    assert_eq!(functions[0].cyclomatic_complexity, 1);
    assert_eq!(functions[0].nesting_depth, 0);
    assert_eq!(functions[1].name, "g");
    assert_eq!(functions[1].cyclomatic_complexity, 3);
    assert_eq!(functions[1].nesting_depth, 2);
}

#[test]
fn logical_operators_add_branches() {
    let source = "function f(a, b, c) { return a && b || c; }\n";
    let functions = TypeScriptAnalyzer::parse_source(source, "f.js").unwrap();
    assert_eq!(functions[0].cyclomatic_complexity, 3);
    let source = "function g(a, b) { return a + b > 1 ? a ?? b : b; }\n";
    let functions = TypeScriptAnalyzer::parse_source(source, "g.js").unwrap();
    assert_eq!(functions[0].cyclomatic_complexity, 2);
}

#[test]
fn else_adds_no_branch() {
    let source = "function f(a) { if (a) { return 1; } else { return 2; } }\n";
    let functions = TypeScriptAnalyzer::parse_source(source, "t.ts").unwrap();
    assert_eq!(functions[0].cyclomatic_complexity, 2);
}

#[test]
fn loops_over_collections_add_branches() {
    let source = "function f(xs) { for (const x of xs) {} for (const k in xs) {} }\n";
    let functions = TypeScriptAnalyzer::parse_source(source, "t.ts").unwrap();
    assert_eq!(functions[0].cyclomatic_complexity, 3);
    // A `for ... of` or `for ... in` loop opens no nesting level of its own;
    // an `if` inside one does.
    assert_eq!(functions[0].nesting_depth, 0);
    let source = "function g(xs) { for (const x of xs) { if (x) {} } for (;;) { break; } }\n";
    let functions = TypeScriptAnalyzer::parse_source(source, "t.ts").unwrap();
    assert_eq!(functions[0].cyclomatic_complexity, 4);
    assert_eq!(functions[0].nesting_depth, 1);
}

#[test]
fn each_case_adds_a_branch() {
    let source = "function f(x) { switch (x) { case 1: return 1; case 2: return 2; } }\n";
    let functions = TypeScriptAnalyzer::parse_source(source, "t.ts").unwrap();
    assert_eq!(functions[0].cyclomatic_complexity, 3);
    assert_eq!(functions[0].nesting_depth, 1);
}

#[test]
fn switch_cases_catch_and_ternary_add_branches() {
    let source = "function g(x) {\n  if (x) { a(); } else { b(); }\n  switch (x) { case 1: break; case 2: break; default: break; }\n  try { c(); } catch (e) { d(); }\n  do { x--; } while (x > 0);\n  return x ? 1 : 2;\n}\n";
    let functions = TypeScriptAnalyzer::parse_source(source, "g.ts").unwrap();
    // if, two cases, catch, do and the ternary.
    assert_eq!(functions[0].cyclomatic_complexity, 7);
    assert_eq!(functions[0].nesting_depth, 1);
}

#[test]
fn no_functions_in_plain_statements() {
    let functions = TypeScriptAnalyzer::parse_source("let x = 1;\nx += 2;\n", "s.ts").unwrap();
    assert!(functions.is_empty());
    let functions = TypeScriptAnalyzer::parse_source("", "empty.ts").unwrap();
    assert!(functions.is_empty());
}

#[test]
fn names_with_non_ascii_text() {
    let source = "function grüße() { return \"é\"; }\n";
    let functions = TypeScriptAnalyzer::parse_source(source, "u.ts").unwrap();
    assert_eq!(functions[0].name, "grüße");
}

#[test]
fn single_commit_repository_through_the_library() {
    let source = "\n        function a() {\n            if (x) {}\n        }\n\n        const b = () => {};\n        ";
    let functions = TypeScriptAnalyzer::parse_source(source, "/repo/src/index.ts").unwrap();
    // The only commit is the root commit, which adds the file.
    let history = vec![CommitRecord {
        changed_paths: vec!["src/index.ts".to_string()],
        author: Some("Test User".to_string()),
        message: Some("initial commit".to_string()),
    }];
    let churn = GitAnalyzer::churn_of_history(&history, "src/index.ts");
    assert_eq!(churn.times_modified, 1);
    assert_eq!(churn.bug_fix_commits, 0);
    assert_eq!(churn.authors_count, 1);
    let files = vec![FileAnalysis {
        relative_path: Some("src/index.ts".to_string()),
        churn: Some(churn),
        functions,
    }];
    let report = assemble_report(files, "churn_score", None).unwrap();
    assert_eq!(report.summary.total_functions, 2);
    assert_eq!(report.functions.len(), 2);
    let order: Vec<(&str, &str, u32)> =
        report.functions.iter().map(|f| (f.file.as_str(), f.name.as_str(), f.line)).collect();
    let mut expected = order.clone();
    expected.sort();
    assert_eq!(order, expected);

    let a = report.functions.iter().find(|f| f.name == "a").unwrap();
    assert_eq!(a.cyclomatic_complexity, 2);
    assert_eq!(a.nesting_depth, 1);
    assert!(a.lines_of_code >= 3 && a.lines_of_code <= 5);
    let b = report.functions.iter().find(|f| f.name == "b").unwrap();
    assert_eq!(b.cyclomatic_complexity, 1);
    assert_eq!(b.nesting_depth, 0);
    assert!(b.lines_of_code >= 1 && b.lines_of_code <= 2);
    assert_eq!(report.summary.most_churned_files, vec!["src/index.ts"]);
}
