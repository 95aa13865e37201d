//! The parse tree that the line-based parser produces: typed nodes holding
//! the tokens they were made from and their child nodes.

use crate::tokens::{pairs_value, Token, TokenValue};
use std::ops::Range;
use vstd::prelude::*;

verus! {

/// The kind of a parse node.
#[derive(Debug, Clone, Copy, PartialEq, Eq, Hash, Structural)]
pub enum NodeType {
    Document,
    Paragraph,
    Session,
    ListItem,
    List,
    Definition,
    Annotation,
    VerbatimBlock,
    ForeignBlockSubject,
    ForeignBlockContent,
    ForeignBlockClosing,
}

/// A node of the parse tree.
#[derive(Debug)]
pub struct ParseNode {
    pub node_type: NodeType,
    pub tokens: Vec<(Token, Range<usize>)>,
    pub children: Vec<ParseNode>,
}

/// The mathematical content of a parse node.
pub struct ParseNodeModel {
    pub node_type: NodeType,
    pub tokens: Seq<(Token, Range<usize>)>,
    pub children: Seq<ParseNodeModel>,
}

/// The model of a node.
pub open spec fn pnode_model(p: ParseNode) -> ParseNodeModel
    decreases p, 1nat,
{
    proof {
        assert(decreases_to!(p => p.children));
        assert(decreases_to!(p.children => p.children@));
    }
    ParseNodeModel {
        node_type: p.node_type,
        tokens: p.tokens@,
        children: pnodes_model(p.children@),
    }
}

/// The models of a list of nodes, one per node.
pub open spec fn pnodes_model(ps: Seq<ParseNode>) -> Seq<ParseNodeModel>
    decreases ps, 0nat,
{
    if ps.len() == 0 {
        Seq::empty()
    } else {
        pnodes_model(ps.drop_last()).push(pnode_model(ps.last()))
    }
}

/// Appending a node appends its model.
pub proof fn lemma_pnodes_model_push(ps: Seq<ParseNode>, p: ParseNode)
    ensures
        pnodes_model(ps.push(p)) == pnodes_model(ps).push(pnode_model(p)),
{
    assert(ps.push(p).drop_last() =~= ps);
}

/// The model of a list has one entry per node, in order.
pub proof fn lemma_pnodes_model_index(ps: Seq<ParseNode>)
    ensures
        pnodes_model(ps).len() == ps.len(),
        forall|i: int| 0 <= i < ps.len() ==> #[trigger] pnodes_model(ps)[i] == pnode_model(ps[i]),
    decreases ps.len(),
{
    if ps.len() > 0 {
        lemma_pnodes_model_index(ps.drop_last());
    }
}

/// The value of a parse node: its kind, the values of its tokens and the
/// values of its children.
pub struct NodeValue {
    pub node_type: NodeType,
    pub tokens: Seq<(TokenValue, Range<usize>)>,
    pub children: Seq<NodeValue>,
}

/// The value of a node.
pub open spec fn tree_value(p: ParseNode) -> NodeValue
    decreases p, 1nat,
{
    proof {
        assert(decreases_to!(p => p.children));
        assert(decreases_to!(p.children => p.children@));
    }
    NodeValue {
        node_type: p.node_type,
        tokens: pairs_value(p.tokens@),
        children: trees_value(p.children@),
    }
}

/// The values of a list of nodes, one per node.
pub open spec fn trees_value(ps: Seq<ParseNode>) -> Seq<NodeValue>
    decreases ps, 0nat,
{
    if ps.len() == 0 {
        Seq::empty()
    } else {
        trees_value(ps.drop_last()).push(tree_value(ps.last()))
    }
}

/// Appending a node appends its value.
pub proof fn lemma_trees_value_push(ps: Seq<ParseNode>, p: ParseNode)
    ensures
        trees_value(ps.push(p)) == trees_value(ps).push(tree_value(p)),
{
    assert(ps.push(p).drop_last() =~= ps);
}

/// There is one value per node, in order.
pub proof fn lemma_trees_value_index(ps: Seq<ParseNode>)
    ensures
        trees_value(ps).len() == ps.len(),
        forall|i: int| 0 <= i < ps.len() ==> #[trigger] trees_value(ps)[i] == tree_value(ps[i]),
    decreases ps.len(),
{
    if ps.len() > 0 {
        lemma_trees_value_index(ps.drop_last());
    }
}

/// There is one value per node.
pub proof fn lemma_trees_value_len(ps: Seq<ParseNode>)
    ensures
        trees_value(ps).len() == ps.len(),
    decreases ps.len(),
{
    if ps.len() > 0 {
        lemma_trees_value_len(ps.drop_last());
    }
}

/// The values of a concatenation are the concatenation of the values.
pub proof fn lemma_trees_value_concat(a: Seq<ParseNode>, b: Seq<ParseNode>)
    ensures
        trees_value(a + b) == trees_value(a) + trees_value(b),
    decreases b.len(),
{
    if b.len() == 0 {
        assert(a + b =~= a);
        assert(trees_value(a) + trees_value(b) =~= trees_value(a));
    } else {
        lemma_trees_value_concat(a, b.drop_last());
        assert((a + b).drop_last() =~= a + b.drop_last());
        assert((a + b).last() == b.last());
        assert(trees_value(a) + trees_value(b) =~= (trees_value(a) + trees_value(
            b.drop_last(),
        )).push(tree_value(b.last())));
    }
}

impl ParseNode {
    /// A node of the given kind with its tokens and children.
    pub fn new(
        node_type: NodeType,
        tokens: Vec<(Token, Range<usize>)>,
        children: Vec<ParseNode>,
    ) -> (r: ParseNode)
        ensures
            r.node_type == node_type,
            r.tokens == tokens,
            r.children == children,
    {
        ParseNode { node_type, tokens, children }
    }
}

} // verus!
