//! The token stream: a flat sequence of `(Token, range)` pairs or a tree of
//! nodes, each holding the tokens of its own level and, optionally, a nested
//! stream. Every stream can be unrolled back to the original pairs in
//! document order.

use crate::tokens::{LineType, Token};
use std::ops::Range;
use vstd::prelude::*;

verus! {

/// A flat sequence of token pairs, or a tree of nodes.
#[derive(Debug, PartialEq)]
pub enum TokenStream {
    Flat(Vec<(Token, Range<usize>)>),
    Tree(Vec<TokenStreamNode>),
}

/// A node of a `TokenStream::Tree`: the tokens of its own level, an optional
/// nested stream, and an optional line classification.
#[derive(Debug, PartialEq)]
pub struct TokenStreamNode {
    pub tokens: Vec<(Token, Range<usize>)>,
    pub children: Option<Box<TokenStream>>,
    pub line_type: Option<LineType>,
}

/// All original pairs of a stream, in document order.
pub open spec fn stream_tokens(s: TokenStream) -> Seq<(Token, Range<usize>)>
    decreases s, 2nat,
{
    match s {
        TokenStream::Flat(v) => v@,
        TokenStream::Tree(nodes) => {
            proof {
                assert(decreases_to!(nodes => nodes@));
            }
            nodes_tokens(nodes@)
        },
    }
}

/// A node's own pairs followed by those of its nested stream.
pub open spec fn node_tokens(n: TokenStreamNode) -> Seq<(Token, Range<usize>)>
    decreases n, 1nat,
{
    match n.children {
        Some(c) => n.tokens@ + stream_tokens(*c),
        None => n.tokens@,
    }
}

/// The pairs of a sequence of nodes, one node after the other.
pub open spec fn nodes_tokens(ns: Seq<TokenStreamNode>) -> Seq<(Token, Range<usize>)>
    decreases ns, 0nat,
{
    if ns.len() == 0 {
        Seq::empty()
    } else {
        proof {
            assert(decreases_to!(ns => ns[ns.len() - 1]));
            assert(decreases_to!(ns => ns.subrange(0, ns.len() - 1)));
        }
        nodes_tokens(ns.subrange(0, ns.len() - 1)) + node_tokens(ns[ns.len() - 1])
    }
}

/// Taking one more node appends that node's pairs.
pub proof fn lemma_nodes_tokens_take(ns: Seq<TokenStreamNode>, i: int)
    requires
        0 <= i < ns.len(),
    ensures
        nodes_tokens(ns.take(i + 1)) == nodes_tokens(ns.take(i)) + node_tokens(ns[i]),
{
    let t = ns.take(i + 1);
    assert(t.subrange(0, t.len() - 1) =~= ns.take(i));
}

/// The pairs of a concatenation of node lists are the concatenation of their pairs.
pub proof fn lemma_nodes_tokens_append(a: Seq<TokenStreamNode>, b: Seq<TokenStreamNode>)
    ensures
        nodes_tokens(a + b) == nodes_tokens(a) + nodes_tokens(b),
    decreases b.len(),
{
    if b.len() == 0 {
        assert(a + b =~= a);
        assert(nodes_tokens(a) + nodes_tokens(b) =~= nodes_tokens(a));
    } else {
        let ab = a + b;
        let b0 = b.subrange(0, b.len() - 1);
        assert(ab.subrange(0, ab.len() - 1) =~= a + b0);
        lemma_nodes_tokens_append(a, b0);
        assert(ab[ab.len() - 1] == b[b.len() - 1]);
        assert(nodes_tokens(ab) =~= nodes_tokens(a) + nodes_tokens(b));
    }
}

impl TokenStream {
    /// All original `(Token, range)` pairs of the stream, in document order:
    /// for a tree, each node's own pairs followed by those of its children.
    pub fn unroll(self) -> (r: Vec<(Token, Range<usize>)>)
        ensures
            r@ == stream_tokens(self),
        decreases self,
    {
        match self {
            TokenStream::Flat(tokens) => tokens,
            TokenStream::Tree(nodes) => {
                let ghost ns = nodes@;
                let n = nodes.len();
                let mut out: Vec<(Token, Range<usize>)> = Vec::new();
                let mut i: usize = 0;
                for node in it: nodes.into_iter()
                    invariant
                        i == it.index(),
                        it.seq() == ns,
                        n == ns.len(),
                        i <= n,
                        out@ == nodes_tokens(ns.take(i as int)),
                        forall|k: int| 0 <= k < ns.len() ==> decreases_to!(self => #[trigger] ns[k]),
                {
                    proof {
                        lemma_nodes_tokens_take(ns, i as int);
                    }
                    let mut part = node.unroll();
                    out.append(&mut part);
                    i = i + 1;
                }
                proof {
                    assert(ns.take(n as int) =~= ns);
                }
                out
            },
        }
    }
}

impl TokenStreamNode {
    /// This node's pairs followed by all pairs of its nested stream.
    pub fn unroll(self) -> (r: Vec<(Token, Range<usize>)>)
        ensures
            r@ == node_tokens(self),
        decreases self,
    {
        let ghost s = self;
        let mut all = self.tokens;
        match self.children {
            Some(children) => {
                let mut rest = (*children).unroll();
                all.append(&mut rest);
            },
            None => {},
        }
        all
    }
}

} // verus!

verus! {

/// The mathematical content of a stream: its pairs, or the models of its nodes.
pub enum StreamModel {
    Flat(Seq<(Token, Range<usize>)>),
    Tree(Seq<NodeModel>),
}

/// The mathematical content of a node.
pub struct NodeModel {
    pub tokens: Seq<(Token, Range<usize>)>,
    pub children: Option<StreamModel>,
    pub line_type: Option<LineType>,
}

/// The model of a stream.
pub open spec fn stream_model(s: TokenStream) -> StreamModel
    decreases s, 2nat,
{
    match s {
        TokenStream::Flat(v) => StreamModel::Flat(v@),
        TokenStream::Tree(nodes) => {
            proof {
                assert(decreases_to!(nodes => nodes@));
            }
            StreamModel::Tree(nodes_model(nodes@))
        },
    }
}

/// The model of a node.
pub open spec fn node_model(n: TokenStreamNode) -> NodeModel
    decreases n, 1nat,
{
    NodeModel {
        tokens: n.tokens@,
        children: match n.children {
            Some(c) => Some(stream_model(*c)),
            None => None,
        },
        line_type: n.line_type,
    }
}

/// The models of a sequence of nodes, position by position.
pub open spec fn nodes_model(ns: Seq<TokenStreamNode>) -> Seq<NodeModel>
    decreases ns, 0nat,
{
    if ns.len() == 0 {
        Seq::empty()
    } else {
        nodes_model(ns.drop_last()).push(node_model(ns.last()))
    }
}

/// The model of a node list has one model per node, in order.
pub proof fn lemma_nodes_model_index(ns: Seq<TokenStreamNode>)
    ensures
        nodes_model(ns).len() == ns.len(),
        forall|i: int| 0 <= i < ns.len() ==> #[trigger] nodes_model(ns)[i] == node_model(ns[i]),
    decreases ns.len(),
{
    if ns.len() > 0 {
        lemma_nodes_model_index(ns.drop_last());
    }
}

/// Pushing a node pushes its model.
pub proof fn lemma_nodes_model_push(ns: Seq<TokenStreamNode>, n: TokenStreamNode)
    ensures
        nodes_model(ns.push(n)) == nodes_model(ns).push(node_model(n)),
{
    assert(ns.push(n).drop_last() =~= ns);
}

} // verus!

verus! {

/// The source pairs behind a pair: the pairs that a synthetic `Indent` or
/// `BlankLine` token carries, or the pair itself.
pub open spec fn source_pairs(p: (Token, Range<usize>)) -> Seq<(Token, Range<usize>)> {
    match p.0 {
        Token::Indent(v) => v@,
        Token::BlankLine(v) => v@,
        _ => seq![p],
    }
}

/// The source pairs behind a sequence of pairs, in order.
pub open spec fn ground_pairs(s: Seq<(Token, Range<usize>)>) -> Seq<(Token, Range<usize>)>
    decreases s.len(),
{
    if s.len() == 0 {
        Seq::empty()
    } else {
        ground_pairs(s.drop_last()) + source_pairs(s.last())
    }
}

/// The source pairs of two sequences joined are those of each, joined.
pub proof fn lemma_ground_pairs_concat(a: Seq<(Token, Range<usize>)>, b: Seq<(Token, Range<usize>)>)
    ensures
        ground_pairs(a + b) == ground_pairs(a) + ground_pairs(b),
    decreases b.len(),
{
    if b.len() == 0 {
        assert(a + b =~= a);
        assert(ground_pairs(a) + ground_pairs(b) =~= ground_pairs(a));
    } else {
        lemma_ground_pairs_concat(a, b.drop_last());
        assert((a + b).drop_last() =~= a + b.drop_last());
        assert((a + b).last() == b.last());
        assert(ground_pairs(a) + ground_pairs(b) =~= ground_pairs(a) + ground_pairs(b.drop_last())
            + source_pairs(b.last()));
    }
}

/// The source pairs of a sequence start with those of its first pair.
pub proof fn lemma_ground_pairs_first(s: Seq<(Token, Range<usize>)>)
    requires
        s.len() > 0,
    ensures
        ground_pairs(s) == source_pairs(s[0]) + ground_pairs(s.skip(1)),
{
    let h = seq![s[0]];
    assert(h + s.skip(1) =~= s);
    lemma_ground_pairs_concat(h, s.skip(1));
    assert(h.drop_last() =~= Seq::<(Token, Range<usize>)>::empty());
    assert(ground_pairs(Seq::<(Token, Range<usize>)>::empty()) =~= Seq::<(Token, Range<usize>)>::empty());
    assert(h.last() == s[0]);
    assert(ground_pairs(h) =~= source_pairs(s[0]));
}

} // verus!
