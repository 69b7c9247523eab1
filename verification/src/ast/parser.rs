//! Parsing a TypeScript source text and measuring its functions.
use vstd::prelude::*;
use vstd::string::StringExecFns;
use vstd::utf8::*;
use tree_sitter::Node;
use crate::ast::syntax::{
    node_subtree, typescript_syntax, parse_typescript, tree_root, node_start_row,
    node_end_row, node_start_byte, node_end_byte, node_child_count, node_child,
};
use crate::ast::visitor::{
    ComplexityVisitor, functions_in, measurable, well_formed, well_formed_upto, tree_size, size_upto,
    lemma_well_formed_child, lemma_size_upto_grows,
};
use crate::error::ChurnLensError;
use crate::metrics::{FunctionMetrics, metrics_views};

verus! {

/// Analyses TypeScript and JavaScript source files.
pub struct TypeScriptAnalyzer;

/// Checks that the tree rooted at `node` is well formed against a source of
/// `source_len` bytes and holds at most `budget` nodes, and counts its nodes.
fn checked_size(node: Node, source_len: usize, budget: u64) -> (r: Option<u64>)
    ensures
        r is Some <==> (well_formed(node_subtree(node), source_len as nat) && tree_size(node_subtree(node)) <= budget),
        r is Some ==> r->Some_0 == tree_size(node_subtree(node)),
    decreases node_subtree(node),
{
    let ghost t = node_subtree(node);
    let start_byte = node_start_byte(node);
    let end_byte = node_end_byte(node);
    let start_row = node_start_row(node);
    let end_row = node_end_row(node);
    if !(start_byte <= end_byte && end_byte <= source_len && start_row <= end_row && end_row < u32::MAX as usize) {
        return None;
    }
    if budget == 0 {
        return None;
    }
    let mut used: u64 = 1;
    let count = node_child_count(node);
    let mut i: usize = 0;
    while i < count
        invariant
            t == node_subtree(node),
            count == t.children.len(),
            i <= count,
            used == 1 + size_upto(t.children, i as nat),
            used <= budget,
            well_formed_upto(t.children, source_len as nat, i as nat),
        decreases count - i,
    {
        let child = node_child(node, i).unwrap();
        proof {
            assert(decreases_to!(t => t.children[i as int]));
        }
        match checked_size(child, source_len, budget - used) {
            Some(s) => {
                used = used + s;
            },
            None => {
                proof {
                    if well_formed(t, source_len as nat) && tree_size(t) <= budget {
                        lemma_well_formed_child(t.children, source_len as nat, t.children.len(), i as int);
                        lemma_size_upto_grows(t.children, i as nat, t.children.len());
                    }
                }
                return None;
            },
        }
        i = i + 1;
    }
    Some(used)
}

impl TypeScriptAnalyzer {
    /// Parses `source` as TypeScript and returns the metrics of its
    /// functions, in document order, each recorded as standing in
    /// `file_path`.
    ///
    /// Parsing always yields a tree.  Fails with a parse error exactly where
    /// that tree does not fit the source (a byte range outside it, a node that
    /// ends on a row before the one it starts on, a row at `u32::MAX` or
    /// beyond, or `u32::MAX` nodes or more).
    pub fn parse_source(source: &str, file_path: &str) -> (r: Result<Vec<FunctionMetrics>, ChurnLensError>)
        ensures
            typescript_syntax(source@) is Some,
            r is Ok <==> measurable(typescript_syntax(source@)->Some_0, encode_utf8(source@).len()),
            r is Ok ==> metrics_views(r->Ok_0@) == functions_in(
                typescript_syntax(source@)->Some_0,
                encode_utf8(source@),
                file_path@,
                None,
            ),
            r is Err ==> r->Err_0 is ParseError,
    {
        let tree = match parse_typescript(source) {
            Ok(Some(tree)) => tree,
            Ok(None) => {
                return Err(ChurnLensError::ParseError(String::from_str("Failed to parse ").concat(file_path)));
            },
            Err(msg) => {
                return Err(ChurnLensError::ParseError(msg));
            },
        };
        let root = tree_root(&tree);
        let source_len = source.as_bytes().len();
        match checked_size(root, source_len, (u32::MAX - 1) as u64) {
            Some(_) => {},
            None => {
                return Err(
                    ChurnLensError::ParseError(
                        String::from_str("Syntax tree does not fit the source of ").concat(file_path),
                    ),
                );
            },
        }
        let mut visitor = ComplexityVisitor::new(source, file_path);
        visitor.visit(root);
        proof {
            assert(metrics_views(visitor.functions@) =~= seq![] + functions_in(
                node_subtree(root),
                encode_utf8(source@),
                file_path@,
                None,
            ));
        }
        Ok(visitor.functions)
    }
}

} // verus!
