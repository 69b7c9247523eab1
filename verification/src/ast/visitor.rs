//! Per-function metrics of a syntax tree: cyclomatic complexity, nesting
//! depth and length, collected for every function node in document order.
use vstd::prelude::*;
use vstd::utf8::*;
use tree_sitter::Node;
use crate::ast::syntax::{
    NodeView, node_subtree, node_kind, node_start_row, node_end_row, node_child_count, node_child,
    node_utf8_text,
};
use crate::metrics::{FunctionMetrics, FunctionMetricsView, metrics_views};
use crate::text::str_eq;

verus! {

// ---------------------------------------------------------------------------
// What the metrics are, over the plain-value tree
// ---------------------------------------------------------------------------

/// Node kinds that start a function.
pub open spec fn is_function_kind(k: Seq<char>) -> bool {
    ||| k == "function_declaration"@
    ||| k == "arrow_function"@
    ||| k == "method_definition"@
    ||| k == "function_expression"@
}

/// Node kinds that add a path through a function: the conditional, the
/// loops (`for ... of` and `for ... in` among them), each `case` of a
/// `switch`, `catch` and the conditional expression.
pub open spec fn is_branch_kind(k: Seq<char>) -> bool {
    ||| k == "if_statement"@
    ||| k == "for_statement"@
    ||| k == "for_in_statement"@
    ||| k == "while_statement"@
    ||| k == "do_statement"@
    ||| k == "switch_case"@
    ||| k == "catch_clause"@
    ||| k == "ternary_expression"@
}

/// Node kinds that open a nesting level.
pub open spec fn is_nesting_kind(k: Seq<char>) -> bool {
    ||| k == "if_statement"@
    ||| k == "for_statement"@
    ||| k == "while_statement"@
    ||| k == "do_statement"@
    ||| k == "switch_statement"@
    ||| k == "try_statement"@
}

/// The text of the source that a node spans: the characters that its bytes
/// encode, or `<unknown>` where they are not valid UTF-8.
pub open spec fn span_text(t: NodeView, source: Seq<u8>) -> Seq<char> {
    let bytes = source.subrange(t.start_byte as int, t.end_byte as int);
    if valid_utf8(bytes) {
        decode_utf8(bytes)
    } else {
        "<unknown>"@
    }
}

/// The text that a node spans, where there is a node.
pub open spec fn text_of(node: Option<NodeView>, source: Seq<u8>) -> Option<Seq<char>> {
    match node {
        Some(n) => Some(span_text(n, source)),
        None => None,
    }
}

/// The first of the children `cs[i..]` whose kind is `k1` or `k2`.
pub open spec fn first_child_of_kind(cs: Seq<NodeView>, i: int, k1: Seq<char>, k2: Seq<char>) -> Option<NodeView>
    decreases cs.len() - i,
{
    if i < 0 || i >= cs.len() {
        None
    } else if cs[i].kind == k1 || cs[i].kind == k2 {
        Some(cs[i])
    } else {
        first_child_of_kind(cs, i + 1, k1, k2)
    }
}

/// The child that names a function node itself: its first `identifier` or
/// `property_identifier` child (the name of a declaration, of a named
/// function expression or of a method).  An arrow function has none: an
/// identifier among its children is its parameter.
pub open spec fn own_name_node(t: NodeView) -> Option<NodeView> {
    if t.kind == "arrow_function"@ {
        None
    } else {
        first_child_of_kind(t.children, 0, "identifier"@, "property_identifier"@)
    }
}

/// The name that a node gives to a function standing among its children: the
/// variable of a `variable_declarator`; the target of an
/// `assignment_expression` (a variable, or the property of a member
/// expression); the key of a `pair` or of a `public_field_definition`.
pub open spec fn context_name(parent: NodeView, source: Seq<u8>) -> Option<Seq<char>> {
    if parent.kind == "variable_declarator"@ {
        text_of(first_child_of_kind(parent.children, 0, "identifier"@, "identifier"@), source)
    } else if parent.kind == "assignment_expression"@ {
        if parent.children.len() == 0 {
            None
        } else {
            let left = parent.children[0];
            if left.kind == "identifier"@ {
                Some(span_text(left, source))
            } else if left.kind == "member_expression"@ {
                text_of(
                    first_child_of_kind(left.children, 0, "property_identifier"@, "property_identifier"@),
                    source,
                )
            } else {
                None
            }
        }
    } else if parent.kind == "pair"@ || parent.kind == "public_field_definition"@ {
        text_of(first_child_of_kind(parent.children, 0, "property_identifier"@, "property_identifier"@), source)
    } else {
        None
    }
}

/// The name of a function node whose parent offers the name `context`: its
/// own name where it has one, else the name its parent gives it, else
/// `<anonymous>`.
pub open spec fn function_name(t: NodeView, source: Seq<u8>, context: Option<Seq<char>>) -> Seq<char> {
    match own_name_node(t) {
        Some(c) => span_text(c, source),
        None => match context {
            Some(n) => n,
            None => "<anonymous>"@,
        },
    }
}

/// Whether a node has an `&&` or `||` operator token among its children.
pub open spec fn has_logical_operator(t: NodeView) -> bool {
    first_child_of_kind(t.children, 0, "&&"@, "||"@) is Some
}

/// Whether a node adds one to the complexity of the function around it: a
/// branch node, or a binary expression whose operator is `&&` or `||`.
pub open spec fn adds_branch(t: NodeView) -> bool {
    is_branch_kind(t.kind) || (t.kind == "binary_expression"@ && has_logical_operator(t))
}

/// The number of nodes of a tree, its root included, that add a branch,
/// leaving out the functions nested in it, which are measured on their own.
pub open spec fn branch_count(t: NodeView) -> nat
    decreases t, 0nat,
{
    (if adds_branch(t) { 1nat } else { 0nat }) + branch_count_upto(t.children, t.children.len())
}

/// The number of branch nodes in the trees `cs[..n]`, a tree whose root is a
/// function counting none.
pub open spec fn branch_count_upto(cs: Seq<NodeView>, n: nat) -> nat
    decreases cs, n,
{
    if n == 0 || n > cs.len() {
        0
    } else {
        branch_count_upto(cs, (n - 1) as nat) + if is_function_kind(cs[n - 1].kind) {
            0nat
        } else {
            branch_count(cs[n - 1])
        }
    }
}

/// The larger of two naturals.
pub open spec fn max_nat(a: nat, b: nat) -> nat {
    if a >= b { a } else { b }
}

/// The deepest nesting level reached in a tree whose root stands at level
/// `level`: a nesting node lies one level below the level around it, the
/// functions nested in the tree are left out, and the result is 0 where the
/// tree holds no nesting node.
pub open spec fn nesting_max(t: NodeView, level: nat) -> nat
    decreases t, 0nat,
{
    if is_nesting_kind(t.kind) {
        max_nat(level + 1, nesting_max_upto(t.children, level + 1, t.children.len()))
    } else {
        nesting_max_upto(t.children, level, t.children.len())
    }
}

/// The deepest nesting level reached in the trees `cs[..n]`, each standing at
/// level `level`, a tree whose root is a function reaching none.
pub open spec fn nesting_max_upto(cs: Seq<NodeView>, level: nat, n: nat) -> nat
    decreases cs, n,
{
    if n == 0 || n > cs.len() {
        0
    } else {
        max_nat(
            nesting_max_upto(cs, level, (n - 1) as nat),
            if is_function_kind(cs[n - 1].kind) {
                0nat
            } else {
                nesting_max(cs[n - 1], level)
            },
        )
    }
}

/// The number of nodes of a tree.
pub open spec fn tree_size(t: NodeView) -> nat
    decreases t, 0nat,
{
    1 + size_upto(t.children, t.children.len())
}

/// The number of nodes of the trees `cs[..n]`.
pub open spec fn size_upto(cs: Seq<NodeView>, n: nat) -> nat
    decreases cs, n,
{
    if n == 0 || n > cs.len() {
        0
    } else {
        size_upto(cs, (n - 1) as nat) + tree_size(cs[n - 1])
    }
}

/// A tree whose byte ranges lie within a source of `source_len` bytes, whose
/// nodes end on a row at or after the one they start on, and whose rows stay
/// below `u32::MAX`.
pub open spec fn well_formed(t: NodeView, source_len: nat) -> bool
    decreases t, 0nat,
{
    &&& t.start_byte <= t.end_byte <= source_len
    &&& t.start_row <= t.end_row < u32::MAX
    &&& well_formed_upto(t.children, source_len, t.children.len())
}

/// Every tree of `cs[..n]` is well formed.
pub open spec fn well_formed_upto(cs: Seq<NodeView>, source_len: nat, n: nat) -> bool
    decreases cs, n,
{
    if n == 0 || n > cs.len() {
        true
    } else {
        well_formed_upto(cs, source_len, (n - 1) as nat) && well_formed(cs[n - 1], source_len)
    }
}

/// A tree that the analysis can measure: well formed against the source, with
/// fewer than `u32::MAX` nodes so that every count fits in a `u32`.
pub open spec fn measurable(t: NodeView, source_len: nat) -> bool {
    well_formed(t, source_len) && tree_size(t) < u32::MAX
}

/// The metrics of a function node whose parent offers the name `context`:
/// its name, the file it stands in, the line (counted from 1) on which it
/// starts, one plus its branch nodes, its deepest nesting level, and the
/// number of lines it spans; no churn yet.
pub open spec fn function_metrics(t: NodeView, source: Seq<u8>, file: Seq<char>, context: Option<Seq<char>>) -> FunctionMetricsView {
    FunctionMetricsView {
        name: function_name(t, source, context),
        file: file,
        line: (t.start_row + 1) as u32,
        cyclomatic_complexity: (1 + branch_count(t)) as u32,
        nesting_depth: nesting_max(t, 0) as u32,
        lines_of_code: (t.end_row - t.start_row + 1) as u32,
        times_modified: 0,
        bug_fix_commits: 0,
        authors_count: 0,
    }
}

/// The metrics of every function node of a tree whose root is offered the
/// name `context`, in document order (a node before its descendants, a child
/// before its later siblings).
pub open spec fn functions_in(t: NodeView, source: Seq<u8>, file: Seq<char>, context: Option<Seq<char>>) -> Seq<FunctionMetricsView>
    decreases t, 0nat,
{
    (if is_function_kind(t.kind) { seq![function_metrics(t, source, file, context)] } else { seq![] })
        + functions_in_upto(t.children, source, file, context_name(t, source), t.children.len())
}

/// The metrics of every function node of the trees `cs[..n]`, each offered
/// the name `context`, in order.
pub open spec fn functions_in_upto(
    cs: Seq<NodeView>,
    source: Seq<u8>,
    file: Seq<char>,
    context: Option<Seq<char>>,
    n: nat,
) -> Seq<FunctionMetricsView>
    decreases cs, n,
{
    if n == 0 || n > cs.len() {
        seq![]
    } else {
        functions_in_upto(cs, source, file, context, (n - 1) as nat) + functions_in(cs[n - 1], source, file, context)
    }
}

// ---------------------------------------------------------------------------
// Facts about the measures
// ---------------------------------------------------------------------------

/// A child's tree is well formed when the trees of its parent's children are.
pub proof fn lemma_well_formed_child(cs: Seq<NodeView>, source_len: nat, n: nat, i: int)
    requires
        well_formed_upto(cs, source_len, n),
        0 <= i < n <= cs.len(),
    ensures
        well_formed(cs[i], source_len),
    decreases n,
{
    if i < n - 1 {
        lemma_well_formed_child(cs, source_len, (n - 1) as nat, i);
    }
}

/// The trees `cs[..n]` hold at least as many nodes as `cs[..i+1]`.
pub proof fn lemma_size_upto_grows(cs: Seq<NodeView>, i: nat, n: nat)
    requires
        i < n <= cs.len(),
    ensures
        size_upto(cs, i) + tree_size(cs[i as int]) <= size_upto(cs, n),
    decreases n,
{
    if i + 1 < n {
        lemma_size_upto_grows(cs, i, (n - 1) as nat);
    }
}

/// The branch nodes of `cs[..n]` are at least those of `cs[..i+1]`.
pub proof fn lemma_branch_upto_grows(cs: Seq<NodeView>, i: nat, n: nat)
    requires
        i < n <= cs.len(),
    ensures
        branch_count_upto(cs, i) + (if is_function_kind(cs[i as int].kind) {
            0nat
        } else {
            branch_count(cs[i as int])
        }) <= branch_count_upto(cs, n),
    decreases n,
{
    if i + 1 < n {
        lemma_branch_upto_grows(cs, i, (n - 1) as nat);
    }
}

/// No tree holds more branch nodes than nodes.
pub proof fn lemma_branch_count_bounded(t: NodeView)
    ensures
        branch_count(t) <= tree_size(t),
    decreases t, 0nat,
{
    lemma_branch_upto_bounded(t.children, t.children.len());
}

/// No trees hold more branch nodes than nodes.
pub proof fn lemma_branch_upto_bounded(cs: Seq<NodeView>, n: nat)
    ensures
        branch_count_upto(cs, n) <= size_upto(cs, n),
    decreases cs, n,
{
    if n > 0 && n <= cs.len() {
        lemma_branch_upto_bounded(cs, (n - 1) as nat);
        lemma_branch_count_bounded(cs[n - 1]);
    }
}

/// The nodes that open a nesting level are exactly the conditionals, the
/// `for`, `while` and `do` loops, `switch` and `try`: below such a node the
/// level is one deeper, and reached at least, whatever the node holds.
pub proof fn lemma_nesting_levels_open_at_control_flow(t: NodeView, level: nat)
    ensures
        (t.kind == "if_statement"@ || t.kind == "for_statement"@ || t.kind == "while_statement"@
            || t.kind == "do_statement"@ || t.kind == "switch_statement"@ || t.kind == "try_statement"@)
            ==> nesting_max(t, level) >= level + 1 && nesting_max(t, level) == max_nat(
            level + 1,
            nesting_max_upto(t.children, level + 1, t.children.len()),
        ),
        !(t.kind == "if_statement"@ || t.kind == "for_statement"@ || t.kind == "while_statement"@
            || t.kind == "do_statement"@ || t.kind == "switch_statement"@ || t.kind == "try_statement"@)
            ==> nesting_max(t, level) == nesting_max_upto(t.children, level, t.children.len()),
{
}

/// The nodes that add a path through a function are exactly the `if`, the
/// `for`, `for ... in`/`for ... of`, `while` and `do` loops, each `case` of a
/// `switch`, `catch`, the conditional expression, and binary expressions whose
/// operator token is `&&` or `||`; every other node (a `throw`, an `else`, a
/// `switch` itself, a `??` expression, ...) adds none.
pub proof fn lemma_branches_are_decisions(t: NodeView)
    ensures
        adds_branch(t) <==> {
        ||| t.kind == "if_statement"@
        ||| t.kind == "for_statement"@
        ||| t.kind == "for_in_statement"@
        ||| t.kind == "while_statement"@
        ||| t.kind == "do_statement"@
        ||| t.kind == "switch_case"@
        ||| t.kind == "catch_clause"@
        ||| t.kind == "ternary_expression"@
        ||| (t.kind == "binary_expression"@ && exists|i: int|
            0 <= i < t.children.len() && (#[trigger] t.children[i].kind == "&&"@ || t.children[i].kind == "||"@))
        },
        branch_count(t) == (if adds_branch(t) { 1nat } else { 0nat }) + branch_count_upto(
            t.children,
            t.children.len(),
        ),
{
    lemma_first_child_of_kind_found(t.children, 0, "&&"@, "||"@);
}

/// `first_child_of_kind(cs, i, k1, k2)` finds a child exactly where one of
/// `cs[i..]` has kind `k1` or `k2`.
proof fn lemma_first_child_of_kind_found(cs: Seq<NodeView>, i: int, k1: Seq<char>, k2: Seq<char>)
    requires
        0 <= i,
    ensures
        first_child_of_kind(cs, i, k1, k2) is Some <==> exists|j: int|
            i <= j < cs.len() && (#[trigger] cs[j].kind == k1 || cs[j].kind == k2),
    decreases cs.len() - i,
{
    if i < cs.len() {
        lemma_first_child_of_kind_found(cs, i + 1, k1, k2);
        if first_child_of_kind(cs, i, k1, k2) is None {
            assert forall|j: int| i <= j < cs.len() implies !(#[trigger] cs[j].kind == k1 || cs[j].kind == k2) by {}
        }
    }
}

/// The properties that every function metric of a measurable tree has.
pub open spec fn sensible_metrics(f: FunctionMetricsView) -> bool {
    &&& f.cyclomatic_complexity >= 1
    &&& f.line >= 1
    &&& f.lines_of_code >= 1
    &&& f.times_modified == 0
    &&& f.bug_fix_commits == 0
    &&& f.authors_count == 0
}

/// Every function of a measurable tree has a cyclomatic complexity of at
/// least 1, starts on a line numbered from 1, spans at least one line, and
/// carries no churn yet.
pub proof fn lemma_function_metrics_sensible(t: NodeView, source: Seq<u8>, file: Seq<char>, context: Option<Seq<char>>)
    requires
        measurable(t, source.len()),
    ensures
        forall|i: int| 0 <= i < functions_in(t, source, file, context).len() ==> sensible_metrics(
            #[trigger] functions_in(t, source, file, context)[i],
        ),
    decreases t, 0nat,
{
    lemma_branch_count_bounded(t);
    let inner = context_name(t, source);
    lemma_functions_upto_sensible(t.children, source, file, inner, t.children.len(), tree_size(t));
    let own: Seq<FunctionMetricsView> = if is_function_kind(t.kind) {
        seq![function_metrics(t, source, file, context)]
    } else {
        seq![]
    };
    let rest = functions_in_upto(t.children, source, file, inner, t.children.len());
    assert forall|i: int| 0 <= i < functions_in(t, source, file, context).len() implies sensible_metrics(
        #[trigger] functions_in(t, source, file, context)[i],
    ) by {
        if i < own.len() {
        } else {
            assert(functions_in(t, source, file, context)[i] == rest[i - own.len()]);
        }
    }
}

/// Every function of measurable trees `cs[..n]` has sensible metrics, given
/// that the trees hold fewer than `bound` nodes and `bound` is at most
/// `u32::MAX`.
pub proof fn lemma_functions_upto_sensible(
    cs: Seq<NodeView>,
    source: Seq<u8>,
    file: Seq<char>,
    context: Option<Seq<char>>,
    n: nat,
    bound: nat,
)
    requires
        n <= cs.len(),
        well_formed_upto(cs, source.len(), n),
        size_upto(cs, n) < bound,
        bound <= u32::MAX,
    ensures
        forall|i: int| 0 <= i < functions_in_upto(cs, source, file, context, n).len() ==> sensible_metrics(
            #[trigger] functions_in_upto(cs, source, file, context, n)[i],
        ),
    decreases cs, n,
{
    if n > 0 {
        lemma_functions_upto_sensible(cs, source, file, context, (n - 1) as nat, bound);
        lemma_well_formed_child(cs, source.len(), n, n - 1);
        lemma_function_metrics_sensible(cs[n - 1], source, file, context);
        let prev = functions_in_upto(cs, source, file, context, (n - 1) as nat);
        let last = functions_in(cs[n - 1], source, file, context);
        assert forall|i: int| 0 <= i < functions_in_upto(cs, source, file, context, n).len() implies sensible_metrics(
            #[trigger] functions_in_upto(cs, source, file, context, n)[i],
        ) by {
            if i < prev.len() {
                assert(functions_in_upto(cs, source, file, context, n)[i] == prev[i]);
            } else {
                assert(functions_in_upto(cs, source, file, context, n)[i] == last[i - prev.len()]);
            }
        }
    }
}

/// The text held by an optional string.
pub open spec fn option_text(o: Option<String>) -> Option<Seq<char>> {
    match o {
        Some(s) => Some(s@),
        None => None,
    }
}

// ---------------------------------------------------------------------------
// Kinds
// ---------------------------------------------------------------------------

fn is_function_node_kind(k: &str) -> (r: bool)
    ensures
        r == is_function_kind(k@),
{
    str_eq(k, "function_declaration") || str_eq(k, "arrow_function") || str_eq(k, "method_definition")
        || str_eq(k, "function_expression")
}

fn is_branch_node_kind(k: &str) -> (r: bool)
    ensures
        r == is_branch_kind(k@),
{
    str_eq(k, "if_statement") || str_eq(k, "for_statement") || str_eq(k, "for_in_statement")
        || str_eq(k, "while_statement") || str_eq(k, "do_statement") || str_eq(k, "switch_case")
        || str_eq(k, "catch_clause") || str_eq(k, "ternary_expression")
}

fn is_nesting_node_kind(k: &str) -> (r: bool)
    ensures
        r == is_nesting_kind(k@),
{
    str_eq(k, "if_statement") || str_eq(k, "for_statement") || str_eq(k, "while_statement")
        || str_eq(k, "do_statement") || str_eq(k, "switch_statement") || str_eq(k, "try_statement")
}

// ---------------------------------------------------------------------------
// The visitor
// ---------------------------------------------------------------------------

/// Walks a syntax tree of `source` and collects the metrics of its functions.
pub struct ComplexityVisitor<'a> {
    pub source: &'a str,
    pub file_path: &'a str,
    pub functions: Vec<FunctionMetrics>,
}

impl<'a> ComplexityVisitor<'a> {
    /// The source text that the visited trees were parsed from.
    pub open spec fn source_text(&self) -> Seq<char> {
        self.source@
    }

    /// The path recorded as the file of every function found.
    pub open spec fn file_path_text(&self) -> Seq<char> {
        self.file_path@
    }

    /// The UTF-8 bytes of the source text, which node offsets index.
    pub open spec fn source_bytes(&self) -> Seq<u8> {
        encode_utf8(self.source_text())
    }

    /// A visitor for trees of `source` that records `file_path` as the file
    /// of the functions it finds, with none found yet.
    pub fn new(source: &'a str, file_path: &'a str) -> (v: Self)
        ensures
            v.source_text() == source@,
            v.file_path_text() == file_path@,
            v.functions@.len() == 0,
    {
        Self { source, file_path, functions: Vec::new() }
    }

    /// Appends the metrics of every function node of the tree rooted at
    /// `node`, in document order.
    pub fn visit(&mut self, node: Node<'a>)
        requires
            measurable(node_subtree(node), old(self).source_bytes().len()),
        ensures
            final(self).source_text() == old(self).source_text(),
            final(self).file_path_text() == old(self).file_path_text(),
            metrics_views(final(self).functions@) == metrics_views(old(self).functions@) + functions_in(
                node_subtree(node),
                old(self).source_bytes(),
                old(self).file_path_text(),
                None,
            ),
    {
        let context: Option<String> = None;
        self.visit_in_context(node, &context);
    }

    /// Appends the metrics of every function node of the tree rooted at
    /// `node`, whose parent offers the name `context`, in document order.
    fn visit_in_context(&mut self, node: Node<'a>, context: &Option<String>)
        requires
            measurable(node_subtree(node), old(self).source_bytes().len()),
        ensures
            final(self).source_text() == old(self).source_text(),
            final(self).file_path_text() == old(self).file_path_text(),
            metrics_views(final(self).functions@) == metrics_views(old(self).functions@) + functions_in(
                node_subtree(node),
                old(self).source_bytes(),
                old(self).file_path_text(),
                option_text(*context),
            ),
        decreases node_subtree(node),
    {
        let ghost t = node_subtree(node);
        let ghost src = self.source_bytes();
        let ghost file = self.file_path_text();
        let ghost text = self.source_text();
        let ghost before = metrics_views(self.functions@);
        let kind = node_kind(node);
        if is_function_node_kind(kind) {
            if let Some(metrics) = self.extract_function_metrics(node, context) {
                let ghost prev = self.functions@;
                self.functions.push(metrics);
                assert(metrics_views(self.functions@) =~= metrics_views(prev).push(metrics@));
            }
        }
        let ghost own: Seq<FunctionMetricsView> = if is_function_kind(t.kind) {
            seq![function_metrics(t, src, file, option_text(*context))]
        } else {
            seq![]
        };
        assert(metrics_views(self.functions@) =~= before + own);
        let inner = self.context_name(node);
        let ghost inner_name = option_text(inner);
        let count = node_child_count(node);
        let mut i: usize = 0;
        while i < count
            invariant
                t == node_subtree(node),
                count == t.children.len(),
                i <= count,
                measurable(t, src.len()),
                src == self.source_bytes(),
                text == self.source_text(),
                file == self.file_path_text(),
                inner_name == option_text(inner),
                inner_name == context_name(t, src),
                metrics_views(self.functions@) == before + own + functions_in_upto(
                    t.children,
                    src,
                    file,
                    inner_name,
                    i as nat,
                ),
            decreases count - i,
        {
            let child = node_child(node, i).unwrap();
            proof {
                lemma_well_formed_child(t.children, src.len(), t.children.len(), i as int);
                lemma_size_upto_grows(t.children, i as nat, t.children.len());
                assert(decreases_to!(t => t.children[i as int]));
            }
            self.visit_in_context(child, &inner);
            assert(metrics_views(self.functions@) =~= before + own + functions_in_upto(
                t.children,
                src,
                file,
                inner_name,
                (i + 1) as nat,
            ));
            i = i + 1;
        }
    }

    fn extract_function_metrics(&self, node: Node<'a>, context: &Option<String>) -> (r: Option<FunctionMetrics>)
        requires
            measurable(node_subtree(node), self.source_bytes().len()),
        ensures
            r is Some,
            r->Some_0@ == function_metrics(
                node_subtree(node),
                self.source_bytes(),
                self.file_path_text(),
                option_text(*context),
            ),
    {
        let name = match self.extract_function_name(node, context) {
            Some(n) => n,
            None => return None,
        };
        let line = node_start_row(node) as u32 + 1;
        let cyclomatic_complexity = self.calculate_complexity(node);
        let nesting_depth = self.calculate_nesting_depth(node);
        let lines_of_code = self.calculate_loc(node);
        Some(FunctionMetrics {
            name,
            file: self.file_path.to_owned(),
            line,
            cyclomatic_complexity,
            nesting_depth,
            lines_of_code,
            times_modified: 0,
            bug_fix_commits: 0,
            authors_count: 0,
        })
    }

    fn extract_function_name(&self, node: Node<'a>, context: &Option<String>) -> (r: Option<String>)
        requires
            well_formed(node_subtree(node), self.source_bytes().len()),
        ensures
            r is Some,
            r->Some_0@ == function_name(node_subtree(node), self.source_bytes(), option_text(*context)),
    {
        if !str_eq(node_kind(node), "arrow_function") {
            if let Some(child) = self.first_child_of(node, "identifier", "property_identifier") {
                return Some(self.get_node_text(child));
            }
        }
        match context {
            Some(name) => Some(name.as_str().to_owned()),
            None => Some("<anonymous>".to_owned()),
        }
    }

    /// The name that `node` gives to a function among its children.
    fn context_name(&self, node: Node<'a>) -> (r: Option<String>)
        requires
            well_formed(node_subtree(node), self.source_bytes().len()),
        ensures
            option_text(r) == context_name(node_subtree(node), self.source_bytes()),
    {
        let ghost t = node_subtree(node);
        let kind = node_kind(node);
        if str_eq(kind, "variable_declarator") {
            self.child_text(node, "identifier", "identifier")
        } else if str_eq(kind, "assignment_expression") {
            if node_child_count(node) == 0 {
                return None;
            }
            let left = node_child(node, 0).unwrap();
            proof {
                lemma_well_formed_child(t.children, self.source_bytes().len(), t.children.len(), 0);
            }
            let left_kind = node_kind(left);
            if str_eq(left_kind, "identifier") {
                Some(self.get_node_text(left))
            } else if str_eq(left_kind, "member_expression") {
                self.child_text(left, "property_identifier", "property_identifier")
            } else {
                None
            }
        } else if str_eq(kind, "pair") || str_eq(kind, "public_field_definition") {
            self.child_text(node, "property_identifier", "property_identifier")
        } else {
            None
        }
    }

    /// The first child of `node` whose kind is `k1` or `k2`.
    fn first_child_of(&self, node: Node<'a>, k1: &str, k2: &str) -> (r: Option<Node<'a>>)
        requires
            well_formed(node_subtree(node), self.source_bytes().len()),
        ensures
            r is Some <==> first_child_of_kind(node_subtree(node).children, 0, k1@, k2@) is Some,
            r is Some ==> node_subtree(r->Some_0) == first_child_of_kind(
                node_subtree(node).children,
                0,
                k1@,
                k2@,
            )->Some_0,
            r is Some ==> well_formed(node_subtree(r->Some_0), self.source_bytes().len()),
    {
        let ghost t = node_subtree(node);
        let count = node_child_count(node);
        let mut i: usize = 0;
        while i < count
            invariant
                t == node_subtree(node),
                count == t.children.len(),
                i <= count,
                well_formed(t, self.source_bytes().len()),
                first_child_of_kind(t.children, 0, k1@, k2@) == first_child_of_kind(t.children, i as int, k1@, k2@),
            decreases count - i,
        {
            let child = node_child(node, i).unwrap();
            let kind = node_kind(child);
            if str_eq(kind, k1) || str_eq(kind, k2) {
                proof {
                    lemma_well_formed_child(t.children, self.source_bytes().len(), t.children.len(), i as int);
                }
                return Some(child);
            }
            i = i + 1;
        }
        None
    }

    /// The text of the first child of `node` whose kind is `k1` or `k2`.
    fn child_text(&self, node: Node<'a>, k1: &str, k2: &str) -> (r: Option<String>)
        requires
            well_formed(node_subtree(node), self.source_bytes().len()),
        ensures
            option_text(r) == text_of(
                first_child_of_kind(node_subtree(node).children, 0, k1@, k2@),
                self.source_bytes(),
            ),
    {
        match self.first_child_of(node, k1, k2) {
            Some(child) => Some(self.get_node_text(child)),
            None => None,
        }
    }

    fn calculate_complexity(&self, node: Node<'a>) -> (c: u32)
        requires
            measurable(node_subtree(node), self.source_bytes().len()),
        ensures
            c == 1 + branch_count(node_subtree(node)),
    {
        proof {
            lemma_branch_count_bounded(node_subtree(node));
        }
        let mut complexity: u32 = 1;
        self.count_complexity_nodes(node, &mut complexity);
        complexity
    }

    fn count_complexity_nodes(&self, node: Node<'a>, count: &mut u32)
        requires
            well_formed(node_subtree(node), self.source_bytes().len()),
            *old(count) + branch_count(node_subtree(node)) <= u32::MAX,
        ensures
            *final(count) == *old(count) + branch_count(node_subtree(node)),
        decreases node_subtree(node),
    {
        let ghost t = node_subtree(node);
        let ghost src = self.source_bytes();
        let kind = node_kind(node);
        if is_branch_node_kind(kind) {
            *count += 1;
        } else if str_eq(kind, "binary_expression") {
            if let Some(_) = self.get_operator(node) {
                *count += 1;
            }
        }
        let ghost start = *count;
        assert(start == *old(count) + (if adds_branch(t) { 1nat } else { 0nat }));
        let child_count = node_child_count(node);
        let mut i: usize = 0;
        while i < child_count
            invariant
                t == node_subtree(node),
                src == self.source_bytes(),
                child_count == t.children.len(),
                i <= child_count,
                well_formed(t, src.len()),
                start + branch_count_upto(t.children, t.children.len()) <= u32::MAX,
                *count == start + branch_count_upto(t.children, i as nat),
            decreases child_count - i,
        {
            let child = node_child(node, i).unwrap();
            proof {
                lemma_well_formed_child(t.children, src.len(), t.children.len(), i as int);
                lemma_branch_upto_grows(t.children, i as nat, t.children.len());
                assert(decreases_to!(t => t.children[i as int]));
            }
            if !is_function_node_kind(node_kind(child)) {
                self.count_complexity_nodes(child, count);
            }
            i = i + 1;
        }
    }

    fn calculate_nesting_depth(&self, node: Node<'a>) -> (d: u32)
        requires
            measurable(node_subtree(node), self.source_bytes().len()),
        ensures
            d == nesting_max(node_subtree(node), 0),
    {
        let mut max_depth: u32 = 0;
        self.measure_nesting(node, 0, &mut max_depth);
        max_depth
    }

    fn measure_nesting(&self, node: Node<'a>, current_depth: u32, max_depth: &mut u32)
        requires
            current_depth + tree_size(node_subtree(node)) <= u32::MAX,
        ensures
            *final(max_depth) == max_nat(*old(max_depth) as nat, nesting_max(node_subtree(node), current_depth as nat)),
        decreases node_subtree(node),
    {
        let ghost t = node_subtree(node);
        let kind = node_kind(node);
        let nesting = is_nesting_node_kind(kind);
        let depth = if nesting {
            let new_depth = current_depth + 1;
            if new_depth > *max_depth {
                *max_depth = new_depth;
            }
            new_depth
        } else {
            current_depth
        };
        let ghost start = *max_depth;
        let child_count = node_child_count(node);
        let mut i: usize = 0;
        while i < child_count
            invariant
                t == node_subtree(node),
                child_count == t.children.len(),
                i <= child_count,
                depth + size_upto(t.children, t.children.len()) <= u32::MAX,
                *max_depth as nat == max_nat(start as nat, nesting_max_upto(t.children, depth as nat, i as nat)),
            decreases child_count - i,
        {
            let child = node_child(node, i).unwrap();
            proof {
                lemma_size_upto_grows(t.children, i as nat, t.children.len());
                assert(decreases_to!(t => t.children[i as int]));
            }
            if !is_function_node_kind(node_kind(child)) {
                self.measure_nesting(child, depth, max_depth);
            }
            i = i + 1;
        }
    }

    fn calculate_loc(&self, node: Node<'a>) -> (n: u32)
        requires
            well_formed(node_subtree(node), self.source_bytes().len()),
        ensures
            n == node_subtree(node).end_row - node_subtree(node).start_row + 1,
    {
        let start = node_start_row(node);
        let end = node_end_row(node);
        (end - start + 1) as u32
    }

    fn get_node_text(&self, node: Node<'a>) -> (s: String)
        requires
            well_formed(node_subtree(node), self.source_bytes().len()),
        ensures
            s@ == span_text(node_subtree(node), self.source_bytes()),
    {
        match node_utf8_text(node, self.source.as_bytes()) {
            Some(text) => text.to_owned(),
            None => "<unknown>".to_owned(),
        }
    }

    /// The logical operator (`&&` or `||`) of a binary expression, if it has
    /// one.
    fn get_operator(&self, node: Node<'a>) -> (op: Option<&'static str>)
        requires
            well_formed(node_subtree(node), self.source_bytes().len()),
        ensures
            op is Some <==> has_logical_operator(node_subtree(node)),
            op is Some ==> op->Some_0@ == first_child_of_kind(node_subtree(node).children, 0, "&&"@, "||"@)->Some_0.kind,
    {
        match self.first_child_of(node, "&&", "||") {
            Some(child) => Some(node_kind(child)),
            None => None,
        }
    }
}

} // verus!
