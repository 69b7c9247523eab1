# churnlens

Measures the complexity and churn of the functions of a TypeScript/JavaScript
repository and ranks them.

- `src/` is the verified library.
  - `ast/syntax.rs` parses with tree-sitter and reads syntax nodes;
    `ast/visitor.rs` defines the metrics over the syntax tree and collects
    them; `ast/parser.rs` ties the two together.
  - `git.rs` decides, commit by commit, what counts towards a file's churn:
    a commit counts for a file when the file's path is, as a whole, one of
    the paths it changed, and reports a fix when its message holds `fix`,
    `fixes`, `fixed`, `bug`, `bugs` or `bugfix` as a word.
  - `sort.rs` is a stable sort from the highest rank down, with its laws;
    `ranking.rs` gives the metrics by which functions are ranked, functions
    of equal rank ordered by file, name and line.
  - `lib.rs` assembles the report: churn per file, ranking, limit, summary.
- `app/` is the command-line program: arguments, walking the directory tree and
  the repository history, the floating-point figures, and JSON output.
- `tests/` holds the tests of the library.
