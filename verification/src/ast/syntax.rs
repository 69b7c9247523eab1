//! The tree-sitter side of the analysis: parsing TypeScript source into a
//! syntax tree and reading the nodes of that tree.
//!
//! The contents of a tree-sitter node are not plain values.  What the
//! analysis reads of a node is named [`node_subtree`]: the tree rooted at the
//! node, as plain values.  Every reader below says how its result relates to
//! that name.
use vstd::prelude::*;
use vstd::utf8::*;
use tree_sitter::{Node, Parser, Tree};

verus! {

#[verifier::external_type_specification]
#[verifier::external_body]
pub struct ExTree(Tree);

#[verifier::external_type_specification]
#[verifier::external_body]
pub struct ExNode<'a>(Node<'a>);

/// A syntax tree as plain values: the kind of its root node, the rows and
/// byte offsets at which the root node starts and ends, and the subtrees of
/// its children in order.
#[verifier::ext_equal]
pub struct NodeView {
    pub kind: Seq<char>,
    pub start_row: usize,
    pub end_row: usize,
    pub start_byte: usize,
    pub end_byte: usize,
    pub children: Seq<NodeView>,
}

/// The syntax tree that tree-sitter's TypeScript grammar gives for a source
/// text.
pub uninterp spec fn typescript_syntax(source: Seq<char>) -> Option<NodeView>;

/// What a tree-sitter tree holds: the subtree of its root node.
pub uninterp spec fn syntax_tree(tree: Tree) -> NodeView;

/// What a tree-sitter node holds: the subtree rooted at it.
pub uninterp spec fn node_subtree(node: Node) -> NodeView;

/// Parses `source` with a new `tree_sitter::Parser` whose language is set to
/// `tree_sitter_typescript::language_typescript()`, and hands back the result
/// of `Parser::parse(source, None)`.
///
/// `Parser::set_language` fails only for a grammar generated for a version of
/// tree-sitter that this build does not support, which the TypeScript grammar
/// is not; `Parser::parse` yields no tree only without a language, after a
/// timeout or on cancellation, and none of these is set here.  So the call
/// succeeds with a tree: the one that the grammar gives for `source`, a
/// function of `source` alone.
#[verifier::external_body]
pub(crate) fn parse_typescript(source: &str) -> (r: Result<Option<Tree>, String>)
    ensures
        r is Ok,
        r->Ok_0 is Some,
        typescript_syntax(source@) == Some(syntax_tree(r->Ok_0->Some_0)),
{
    let mut parser = Parser::new();
    match parser.set_language(tree_sitter_typescript::language_typescript()) {
        Ok(()) => Ok(parser.parse(source, None)),
        Err(e) => Err(e.to_string()),
    }
}

/// The root node of a tree: `Tree::root_node`.
#[verifier::external_body]
pub(crate) fn tree_root(tree: &Tree) -> (n: Node<'_>)
    ensures
        node_subtree(n) == syntax_tree(*tree),
{
    tree.root_node()
}

/// The kind of a node: `Node::kind`, the grammar's name for it (which
/// `Node::kind` reads as UTF-8; the TypeScript grammar's names are ASCII).
#[verifier::external_body]
pub(crate) fn node_kind(node: Node) -> (k: &'static str)
    ensures
        k@ == node_subtree(node).kind,
{
    node.kind()
}

/// The row at which a node starts: the `row` of `Node::start_position`.
#[verifier::external_body]
pub(crate) fn node_start_row(node: Node) -> (r: usize)
    ensures
        r == node_subtree(node).start_row,
{
    node.start_position().row
}

/// The row at which a node ends: the `row` of `Node::end_position`.
#[verifier::external_body]
pub(crate) fn node_end_row(node: Node) -> (r: usize)
    ensures
        r == node_subtree(node).end_row,
{
    node.end_position().row
}

/// The byte offset at which a node starts: `Node::start_byte`.
#[verifier::external_body]
pub(crate) fn node_start_byte(node: Node) -> (b: usize)
    ensures
        b == node_subtree(node).start_byte,
{
    node.start_byte()
}

/// The byte offset at which a node ends: `Node::end_byte`.
#[verifier::external_body]
pub(crate) fn node_end_byte(node: Node) -> (b: usize)
    ensures
        b == node_subtree(node).end_byte,
{
    node.end_byte()
}

/// The number of children of a node: `Node::child_count`.
#[verifier::external_body]
pub(crate) fn node_child_count(node: Node) -> (n: usize)
    ensures
        n == node_subtree(node).children.len(),
{
    node.child_count()
}

/// The `i`-th child of a node: `Node::child`, which yields a node for every
/// index below `child_count`, in the order in which `Node::children` walks
/// them.
#[verifier::external_body]
pub(crate) fn node_child<'a>(node: Node<'a>, i: usize) -> (c: Option<Node<'a>>)
    requires
        i < node_subtree(node).children.len(),
    ensures
        c is Some,
        node_subtree(c.unwrap()) == node_subtree(node).children[i as int],
{
    node.child(i)
}

/// The bytes of `source` that a node spans, taken by `Node::utf8_text`
/// (`std::str::from_utf8` of `source[start_byte..end_byte]`): the text they
/// encode where they are valid UTF-8, and nothing otherwise.
#[verifier::external_body]
pub(crate) fn node_utf8_text<'s>(node: Node, source: &'s [u8]) -> (t: Option<&'s str>)
    requires
        node_subtree(node).start_byte <= node_subtree(node).end_byte <= source@.len(),
    ensures
        t is Some <==> valid_utf8(
            source@.subrange(node_subtree(node).start_byte as int, node_subtree(node).end_byte as int),
        ),
        t is Some ==> t->Some_0@ == decode_utf8(
            source@.subrange(node_subtree(node).start_byte as int, node_subtree(node).end_byte as int),
        ),
{
    node.utf8_text(source).ok()
}

} // verus!
