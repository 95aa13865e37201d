//! Conversions between `LineContainer` trees and `TokenStream` trees.
//!
//! A line becomes a node holding its pairs and its line type; a container
//! becomes a node with no tokens whose children are the converted lines.

use crate::adapters::AdapterError;
use crate::stream::{TokenStream, TokenStreamNode};
use crate::tokens::{zip_spec, LineContainer, LineToken, LineType, Token};
use std::ops::Range;
use crate::ast::Document;
use crate::declarative_grammar::parse_from;
use crate::engine::{container_ok, level_ok, parse_experimental_v2};
use crate::ir_to_ast::{all_built, pairs_ok};
use vstd::prelude::*;

verus! {

/// `n` is the node that `lc` converts to.
pub open spec fn node_of_container(n: TokenStreamNode, lc: LineContainer) -> bool
    decreases lc, 0nat,
{
    match lc {
        LineContainer::Token(lt) => {
            &&& n.tokens@ == zip_spec(lt.source_tokens@, lt.token_spans@)
            &&& n.children is None
            &&& n.line_type == Some(lt.line_type)
        },
        LineContainer::Container { children } => {
            &&& n.tokens@.len() == 0
            &&& n.line_type is None
            &&& match n.children {
                Some(c) => match *c {
                    TokenStream::Tree(v) => {
                        proof {
                            assert(decreases_to!(children => children@));
                        }
                        nodes_of_containers(v@, children@)
                    },
                    TokenStream::Flat(_) => false,
                },
                None => false,
            }
        },
    }
}

/// `ns` are the nodes that `lcs` convert to, one by one.
pub open spec fn nodes_of_containers(ns: Seq<TokenStreamNode>, lcs: Seq<LineContainer>) -> bool
    decreases lcs, 1nat,
{
    if lcs.len() == 0 {
        ns.len() == 0
    } else {
        &&& ns.len() == lcs.len()
        &&& nodes_of_containers(ns.drop_last(), lcs.drop_last())
        &&& node_of_container(ns.last(), lcs.last())
    }
}

/// Extending both lists by one matching pair keeps them matching.
pub proof fn lemma_nodes_of_containers_push(
    ns: Seq<TokenStreamNode>,
    lcs: Seq<LineContainer>,
    n: TokenStreamNode,
    lc: LineContainer,
)
    requires
        nodes_of_containers(ns, lcs),
        node_of_container(n, lc),
    ensures
        nodes_of_containers(ns.push(n), lcs.push(lc)),
{
    assert(ns.push(n).drop_last() =~= ns);
    assert(lcs.push(lc).drop_last() =~= lcs);
    lemma_nodes_of_containers_len(ns, lcs);
}

/// Matching lists have the same length.
pub proof fn lemma_nodes_of_containers_len(ns: Seq<TokenStreamNode>, lcs: Seq<LineContainer>)
    requires
        nodes_of_containers(ns, lcs),
    ensures
        ns.len() == lcs.len(),
{
}

/// The children of the root after normalization: a lone line counts as a
/// container holding that line.
pub open spec fn root_children(c: LineContainer) -> Seq<LineContainer> {
    match c {
        LineContainer::Token(_) => seq![c],
        LineContainer::Container { children } => children@,
    }
}

/// Convert one container to its node.
fn convert_container(lc: LineContainer) -> (n: TokenStreamNode)
    ensures
        node_of_container(n, lc),
    decreases lc, 1nat,
{
    match lc {
        LineContainer::Token(line_token) => {
            let line_type = line_token.line_type;
            let tokens = line_token.source_token_pairs();
            TokenStreamNode { tokens, children: None, line_type: Some(line_type) }
        },
        LineContainer::Container { children } => {
            let ghost cs = children@;
            proof {
                assert(decreases_to!(lc => children));
                assert(decreases_to!(children => children@));
                assert forall|k: int| 0 <= k < cs.len() implies decreases_to!(lc => #[trigger] cs[k]) by {
                    assert(decreases_to!(children@ => cs[k]));
                }
            }
            let child_nodes = convert_containers(children, Ghost(lc));
            TokenStreamNode {
                tokens: Vec::new(),
                children: Some(Box::new(TokenStream::Tree(child_nodes))),
                line_type: None,
            }
        },
    }
}

/// Convert each container of a list to its node.
fn convert_containers(children: Vec<LineContainer>, Ghost(parent): Ghost<LineContainer>) -> (r: Vec<
    TokenStreamNode,
>)
    requires
        forall|k: int| 0 <= k < children@.len() ==> decreases_to!(parent => #[trigger] children@[k]),
    ensures
        nodes_of_containers(r@, children@),
    decreases parent, 0nat,
{
    let ghost cs = children@;
    let n = children.len();
    let mut out: Vec<TokenStreamNode> = Vec::new();
    let mut i: usize = 0;
    for c in it: children.into_iter()
        invariant
            i == it.index(),
            it.seq() == cs,
            n == cs.len(),
            i <= n,
            nodes_of_containers(out@, cs.take(i as int)),
            forall|k: int| 0 <= k < cs.len() ==> decreases_to!(parent => #[trigger] cs[k]),
    {
        let node = convert_container(c);
        proof {
            lemma_nodes_of_containers_push(out@, cs.take(i as int), node, c);
            assert(cs.take(i as int).push(c) =~= cs.take(i + 1));
        }
        out.push(node);
        i = i + 1;
    }
    assert(cs.take(n as int) =~= cs);
    out
}

/// Convert a `LineContainer` to a `TokenStream::Tree`. A lone line at the
/// root is treated as a container holding that line, so the root's children
/// become the tree's nodes.
pub fn line_container_to_token_stream(container: LineContainer) -> (r: TokenStream)
    ensures
        r is Tree,
        nodes_of_containers(r->Tree_0@, root_children(container)),
{
    let ghost root = container;
    let children = match container {
        LineContainer::Token(line_token) => {
            let mut v: Vec<LineContainer> = Vec::new();
            v.push(LineContainer::Token(line_token));
            v
        },
        LineContainer::Container { children } => children,
    };
    let ghost cs = children@;
    assert(cs == root_children(root));
    let nodes = convert_containers_root(children);
    TokenStream::Tree(nodes)
}

/// Convert each container of a list to its node (entry point without a parent).
fn convert_containers_root(children: Vec<LineContainer>) -> (r: Vec<TokenStreamNode>)
    ensures
        nodes_of_containers(r@, children@),
{
    let ghost cs = children@;
    let n = children.len();
    let mut out: Vec<TokenStreamNode> = Vec::new();
    let mut i: usize = 0;
    for c in it: children.into_iter()
        invariant
            i == it.index(),
            it.seq() == cs,
            n == cs.len(),
            i <= n,
            nodes_of_containers(out@, cs.take(i as int)),
    {
        let node = convert_container(c);
        proof {
            lemma_nodes_of_containers_push(out@, cs.take(i as int), node, c);
            assert(cs.take(i as int).push(c) =~= cs.take(i + 1));
        }
        out.push(node);
        i = i + 1;
    }
    assert(cs.take(n as int) =~= cs);
    out
}

} // verus!

verus! {

/// The line type a node converts back to: its own, or a paragraph line.
pub open spec fn line_type_or_paragraph(t: Option<LineType>) -> LineType {
    match t {
        Some(x) => x,
        None => LineType::ParagraphLine,
    }
}

/// `lt` is the line made from node `n`: its tokens and spans unzipped, its
/// line type kept (a paragraph line where the node has none).
pub open spec fn line_token_of_node(lt: LineToken, n: TokenStreamNode) -> bool {
    &&& lt.source_tokens@ == n.tokens@.map_values(|p: (Token, Range<usize>)| p.0)
    &&& lt.token_spans@ == n.tokens@.map_values(|p: (Token, Range<usize>)| p.1)
    &&& lt.line_type == line_type_or_paragraph(n.line_type)
}

/// `lc` is a line made from node `n`.
pub open spec fn line_of_node(lc: LineContainer, n: TokenStreamNode) -> bool {
    match lc {
        LineContainer::Token(lt) => line_token_of_node(lt, n),
        LineContainer::Container { .. } => false,
    }
}

/// How many containers a node converts back to: a node with both tokens and
/// children yields its line and then its children's container.
pub open spec fn containers_per_node(n: TokenStreamNode) -> int {
    if n.children is Some && n.tokens@.len() > 0 {
        2
    } else {
        1
    }
}

/// `lc` is the container made from a nested stream: a tree's nodes converted,
/// or nothing for a flat stream.
pub open spec fn container_of_stream(lc: LineContainer, s: TokenStream) -> bool
    decreases s, 0nat,
{
    match lc {
        LineContainer::Token(_) => false,
        LineContainer::Container { children } => match s {
            TokenStream::Tree(v) => {
                proof {
                    assert(decreases_to!(v => v@));
                }
                containers_of_nodes(children@, v@)
            },
            TokenStream::Flat(_) => children@.len() == 0,
        },
    }
}

/// `o` are the containers made from node `n`.
pub open spec fn containers_of_node(o: Seq<LineContainer>, n: TokenStreamNode) -> bool
    decreases n, 1nat,
{
    match n.children {
        Some(c) => if n.tokens@.len() == 0 {
            o.len() == 1 && container_of_stream(o[0], *c)
        } else {
            o.len() == 2 && line_of_node(o[0], n) && container_of_stream(o[1], *c)
        },
        None => o.len() == 1 && line_of_node(o[0], n),
    }
}

/// `o` are the containers made from the nodes `ns`, one node after the other.
pub open spec fn containers_of_nodes(o: Seq<LineContainer>, ns: Seq<TokenStreamNode>) -> bool
    decreases ns, 2nat,
{
    if ns.len() == 0 {
        o.len() == 0
    } else {
        let k = containers_per_node(ns.last());
        &&& o.len() >= k
        &&& containers_of_nodes(o.subrange(0, o.len() - k), ns.drop_last())
        &&& containers_of_node(o.subrange(o.len() - k, o.len() as int), ns.last())
    }
}

/// Split a node's pairs into its tokens and its spans.
pub fn unzip_pairs(pairs: Vec<(Token, Range<usize>)>) -> (r: (Vec<Token>, Vec<Range<usize>>))
    ensures
        r.0@ == pairs@.map_values(|p: (Token, Range<usize>)| p.0),
        r.1@ == pairs@.map_values(|p: (Token, Range<usize>)| p.1),
{
    let ghost ps = pairs@;
    let n = pairs.len();
    let mut toks: Vec<Token> = Vec::new();
    let mut spans: Vec<Range<usize>> = Vec::new();
    let mut i: usize = 0;
    for p in it: pairs.into_iter()
        invariant
            i == it.index(),
            it.seq() == ps,
            n == ps.len(),
            i <= n,
            toks@ == ps.take(i as int).map_values(|p: (Token, Range<usize>)| p.0),
            spans@ == ps.take(i as int).map_values(|p: (Token, Range<usize>)| p.1),
    {
        proof {
            assert(ps.take(i + 1) =~= ps.take(i as int).push(p));
            assert(ps.take(i as int).push(p).map_values(|p: (Token, Range<usize>)| p.0)
                =~= ps.take(i as int).map_values(|p: (Token, Range<usize>)| p.0).push(p.0));
            assert(ps.take(i as int).push(p).map_values(|p: (Token, Range<usize>)| p.1)
                =~= ps.take(i as int).map_values(|p: (Token, Range<usize>)| p.1).push(p.1));
        }
        let (t, s) = p;
        toks.push(t);
        spans.push(s);
        i = i + 1;
    }
    proof {
        assert(ps.take(n as int) =~= ps);
    }
    (toks, spans)
}

/// The line made from a node.
fn node_to_line_token(
    tokens: Vec<(Token, Range<usize>)>,
    line_type: Option<LineType>,
) -> (r: LineToken)
    ensures
        r.source_tokens@ == tokens@.map_values(|p: (Token, Range<usize>)| p.0),
        r.token_spans@ == tokens@.map_values(|p: (Token, Range<usize>)| p.1),
        r.line_type == line_type_or_paragraph(line_type),
{
    let (source_tokens, token_spans) = unzip_pairs(tokens);
    let lt = match line_type {
        Some(t) => t,
        None => LineType::ParagraphLine,
    };
    LineToken { source_tokens, token_spans, line_type: lt }
}

/// Some node of the sequence has a nested stream.
pub open spec fn has_nested(ns: Seq<TokenStreamNode>) -> bool {
    exists|i: int| 0 <= i < ns.len() && (#[trigger] ns[i]).children is Some
}

/// The message for a tree whose nodes are not all lines.
pub open spec fn nested_tree_message() -> Seq<char> {
    "Expected a shallow TokenStream::Tree, but a node has nested children"@
}

/// Convert a shallow `TokenStream::Tree` to its lines, one per node. A flat
/// stream is refused with `ExpectedTree`; a tree in which some node has a
/// nested stream is refused with an error.
pub fn token_stream_to_line_tokens(stream: TokenStream) -> (r: Result<Vec<LineToken>, AdapterError>)
    ensures
        stream is Flat ==> r == Err::<Vec<LineToken>, AdapterError>(AdapterError::ExpectedTree),
        stream is Tree && has_nested(stream->Tree_0@) ==> r is Err && r->Err_0 is Error
            && r->Err_0->Error_0@ == nested_tree_message(),
        stream is Tree && !has_nested(stream->Tree_0@) ==> r is Ok && r->Ok_0@.len()
            == stream->Tree_0@.len() && forall|i: int|
            0 <= i < stream->Tree_0@.len() ==> #[trigger] line_token_of_node(
                r->Ok_0@[i],
                stream->Tree_0@[i],
            ),
{
    match stream {
        TokenStream::Flat(_) => Err(AdapterError::ExpectedTree),
        TokenStream::Tree(nodes) => {
            let ghost ns = nodes@;
            let n = nodes.len();
            let mut out: Vec<LineToken> = Vec::new();
            let mut i: usize = 0;
            for node in it: nodes.into_iter()
                invariant
                    i == it.index(),
                    it.seq() == ns,
                    n == ns.len(),
                    i <= n,
                    out@.len() == i,
                    forall|k: int| 0 <= k < i ==> #[trigger] line_token_of_node(out@[k], ns[k]),
                    forall|k: int| 0 <= k < i ==> (#[trigger] ns[k]).children is None,
                    stream is Tree,
                    stream->Tree_0@ == ns,
            {
                let TokenStreamNode { tokens, children, line_type } = node;
                if children.is_some() {
                    proof {
                        assert(ns[i as int].children is Some);
                        assert(has_nested(ns));
                    }
                    return Err(
                        AdapterError::Error(
                            "Expected a shallow TokenStream::Tree, but a node has nested children".to_owned(),
                        ),
                    );
                }
                let lt = node_to_line_token(tokens, line_type);
                out.push(lt);
                i = i + 1;
            }
            Ok(out)
        },
    }
}

/// Appending the containers of one more node keeps the relation.
proof fn lemma_containers_of_nodes_push(
    o: Seq<LineContainer>,
    ns: Seq<TokenStreamNode>,
    extra: Seq<LineContainer>,
    n: TokenStreamNode,
)
    requires
        containers_of_nodes(o, ns),
        containers_of_node(extra, n),
        extra.len() == containers_per_node(n),
    ensures
        containers_of_nodes(o + extra, ns.push(n)),
{
    let all = o + extra;
    let k = containers_per_node(n);
    assert(ns.push(n).drop_last() =~= ns);
    assert(ns.push(n).last() == n);
    assert(all.subrange(0, all.len() - k) =~= o);
    assert(all.subrange(all.len() - k, all.len() as int) =~= extra);
}

/// The container holding the conversion of a nested stream.
fn stream_to_container(s: TokenStream, Ghost(parent): Ghost<TokenStream>) -> (r: LineContainer)
    requires
        decreases_to!(parent => s),
    ensures
        container_of_stream(r, s),
    decreases parent, 0nat,
{
    match s {
        TokenStream::Tree(child_nodes) => {
            let ghost cs = s;
            proof {
                assert(decreases_to!(s => child_nodes));
                assert(decreases_to!(child_nodes => child_nodes@));
            }
            nodes_to_container(child_nodes, Ghost(cs))
        },
        TokenStream::Flat(_) => LineContainer::Container { children: Vec::new() },
    }
}

/// The container holding the conversion of each node of a tree.
fn nodes_to_container(nodes: Vec<TokenStreamNode>, Ghost(parent): Ghost<TokenStream>) -> (r:
    LineContainer)
    requires
        parent is Tree,
        parent->Tree_0@ == nodes@,
    ensures
        r is Container,
        containers_of_nodes(r->children@, nodes@),
    decreases parent, 1nat,
{
    let ghost ns = nodes@;
    proof {
        assert(decreases_to!(parent => parent->Tree_0));
        assert(decreases_to!(parent->Tree_0 => parent->Tree_0@));
    }
    let n = nodes.len();
    let mut out: Vec<LineContainer> = Vec::new();
    let mut i: usize = 0;
    for node in it: nodes.into_iter()
        invariant
            i == it.index(),
            it.seq() == ns,
            n == ns.len(),
            i <= n,
            containers_of_nodes(out@, ns.take(i as int)),
            forall|k: int| 0 <= k < ns.len() ==> decreases_to!(parent => #[trigger] ns[k]),
    {
        let ghost node0 = node;
        let ghost before = out@;
        let TokenStreamNode { tokens, children, line_type } = node;
        match children {
            Some(children_stream) => {
                proof {
                    assert(decreases_to!(node0 => node0.children));
                    assert(decreases_to!(parent => *children_stream));
                }
                if tokens.len() == 0 {
                    let c = stream_to_container(*children_stream, Ghost(parent));
                    out.push(c);
                } else {
                    let lt = node_to_line_token(tokens, line_type);
                    out.push(LineContainer::Token(lt));
                    let c = stream_to_container(*children_stream, Ghost(parent));
                    out.push(c);
                }
            },
            None => {
                let lt = node_to_line_token(tokens, line_type);
                out.push(LineContainer::Token(lt));
            },
        }
        proof {
            let extra = out@.subrange(before.len() as int, out@.len() as int);
            assert(out@ =~= before + extra);
            lemma_containers_of_nodes_push(before, ns.take(i as int), extra, node0);
            assert(ns.take(i as int).push(node0) =~= ns.take(i + 1));
        }
        i = i + 1;
    }
    proof {
        assert(ns.take(n as int) =~= ns);
    }
    LineContainer::Container { children: out }
}

/// Convert a `TokenStream::Tree` back to a `LineContainer`, always wrapped in
/// a container at the root; a flat stream is refused with `ExpectedTree`.
pub fn token_stream_to_line_container(stream: TokenStream) -> (r: Result<
    LineContainer,
    AdapterError,
>)
    ensures
        stream is Flat ==> r == Err::<LineContainer, AdapterError>(AdapterError::ExpectedTree),
        stream is Tree ==> r is Ok && r->Ok_0 is Container && containers_of_nodes(
            r->Ok_0->children@,
            stream->Tree_0@,
        ),
{
    match stream {
        TokenStream::Flat(_) => Err(AdapterError::ExpectedTree),
        TokenStream::Tree(nodes) => {
            let ghost s = stream;
            Ok(nodes_to_container(nodes, Ghost(s)))
        },
    }
}

} // verus!

verus! {

/// Every line in the container has as many spans as tokens.
pub open spec fn container_paired(lc: LineContainer) -> bool
    decreases lc, 0nat,
{
    match lc {
        LineContainer::Token(lt) => lt.source_tokens@.len() == lt.token_spans@.len(),
        LineContainer::Container { children } => {
            proof {
                assert(decreases_to!(children => children@));
            }
            containers_paired(children@)
        },
    }
}

/// Every line in each container has as many spans as tokens.
pub open spec fn containers_paired(lcs: Seq<LineContainer>) -> bool
    decreases lcs, 1nat,
{
    if lcs.len() == 0 {
        true
    } else {
        containers_paired(lcs.drop_last()) && container_paired(lcs.last())
    }
}

/// The two containers hold the same lines (tokens, spans, line types) in the
/// same nesting.
pub open spec fn same_container(a: LineContainer, b: LineContainer) -> bool
    decreases a, 0nat,
{
    match a {
        LineContainer::Token(x) => match b {
            LineContainer::Token(y) => {
                &&& x.source_tokens@ == y.source_tokens@
                &&& x.token_spans@ == y.token_spans@
                &&& x.line_type == y.line_type
            },
            LineContainer::Container { .. } => false,
        },
        LineContainer::Container { children: ca } => match b {
            LineContainer::Token(_) => false,
            LineContainer::Container { children: cb } => {
                proof {
                    assert(decreases_to!(ca => ca@));
                }
                same_containers(ca@, cb@)
            },
        },
    }
}

/// The two lists hold the same containers, position by position.
pub open spec fn same_containers(a: Seq<LineContainer>, b: Seq<LineContainer>) -> bool
    decreases a, 1nat,
{
    if a.len() == 0 {
        b.len() == 0
    } else {
        &&& b.len() == a.len()
        &&& same_containers(a.drop_last(), b.drop_last())
        &&& same_container(a.last(), b.last())
    }
}

proof fn lemma_zip_unzip(tokens: Seq<Token>, spans: Seq<Range<usize>>)
    requires
        tokens.len() == spans.len(),
    ensures
        zip_spec(tokens, spans).map_values(|p: (Token, Range<usize>)| p.0) == tokens,
        zip_spec(tokens, spans).map_values(|p: (Token, Range<usize>)| p.1) == spans,
{
    assert(zip_spec(tokens, spans).map_values(|p: (Token, Range<usize>)| p.0) =~= tokens);
    assert(zip_spec(tokens, spans).map_values(|p: (Token, Range<usize>)| p.1) =~= spans);
}

proof fn lemma_round_trip_one(n: TokenStreamNode, lc: LineContainer, o: Seq<LineContainer>)
    requires
        node_of_container(n, lc),
        containers_of_node(o, n),
        container_paired(lc),
    ensures
        containers_per_node(n) == 1,
        o.len() == 1,
        same_container(o[0], lc),
    decreases lc, 0nat,
{
    match lc {
        LineContainer::Token(lt) => {
            lemma_zip_unzip(lt.source_tokens@, lt.token_spans@);
            match o[0] {
                LineContainer::Token(x) => {},
                LineContainer::Container { .. } => {},
            }
        },
        LineContainer::Container { children } => {
            let c = n.children->0;
            match *c {
                TokenStream::Tree(v) => {
                    match o[0] {
                        LineContainer::Token(_) => {},
                        LineContainer::Container { children: oc } => {
                            assert(decreases_to!(lc => children));
                            assert(decreases_to!(children => children@));
                            lemma_round_trip_many(v@, children@, oc@);
                        },
                    }
                },
                TokenStream::Flat(_) => {},
            }
        },
    }
}

proof fn lemma_round_trip_many(
    ns: Seq<TokenStreamNode>,
    lcs: Seq<LineContainer>,
    o: Seq<LineContainer>,
)
    requires
        nodes_of_containers(ns, lcs),
        containers_of_nodes(o, ns),
        containers_paired(lcs),
    ensures
        same_containers(o, lcs),
    decreases lcs, 1nat,
{
    if lcs.len() == 0 {
    } else {
        let k = containers_per_node(ns.last());
        let front = o.subrange(0, o.len() - k);
        let back = o.subrange(o.len() - k, o.len() as int);
        lemma_round_trip_one(ns.last(), lcs.last(), back);
        lemma_round_trip_many(ns.drop_last(), lcs.drop_last(), front);
        assert(o.drop_last() =~= front);
        assert(o.last() == back[0]);
        lemma_same_containers_sym(o, lcs);
    }
}

proof fn lemma_same_containers_sym(o: Seq<LineContainer>, lcs: Seq<LineContainer>)
    requires
        o.len() == lcs.len(),
        o.len() > 0,
        same_containers(o.drop_last(), lcs.drop_last()),
        same_container(o.last(), lcs.last()),
    ensures
        same_containers(o, lcs),
{
}

/// Converting a container whose lines each have as many spans as tokens to a
/// token stream and back gives a container with the same lines, spans, line
/// types and nesting.
pub proof fn lemma_line_container_round_trip(c: LineContainer, s: TokenStream, back: LineContainer)
    requires
        c is Container,
        container_paired(c),
        s is Tree,
        nodes_of_containers(s->Tree_0@, root_children(c)),
        back is Container,
        containers_of_nodes(back->children@, s->Tree_0@),
    ensures
        same_container(back, c),
{
    let cs = c->children;
    lemma_round_trip_many(s->Tree_0@, cs@, back->children@);
}

/// A single line at the root goes through a token stream and comes back as
/// a container holding that one line, with the same tokens, spans and line
/// type.
pub proof fn lemma_single_line_round_trip(lt: LineToken, s: TokenStream, back: LineContainer)
    requires
        lt.source_tokens@.len() == lt.token_spans@.len(),
        s is Tree,
        nodes_of_containers(s->Tree_0@, root_children(LineContainer::Token(lt))),
        back is Container,
        containers_of_nodes(back->children@, s->Tree_0@),
    ensures
        back->children@.len() == 1,
        same_container(back->children@[0], LineContainer::Token(lt)),
{
    let lcs = seq![LineContainer::Token(lt)];
    assert(lcs.drop_last() =~= Seq::<LineContainer>::empty());
    assert(containers_paired(lcs.drop_last()));
    assert(lcs.last() == LineContainer::Token(lt));
    assert(container_paired(lcs.last()));
    assert(containers_paired(lcs));
    lemma_round_trip_many(s->Tree_0@, lcs, back->children@);
    let o = back->children@;
    assert(same_containers(o, lcs));
    assert(o.len() == 1);
    assert(o.last() == o[0]);
}

} // verus!

verus! {

/// Every token of the stream lies in the source, on character boundaries,
/// down through nested streams.
pub open spec fn stream_ok(s: TokenStream, source: Seq<char>) -> bool
    decreases s, 1nat,
{
    match s {
        TokenStream::Flat(v) => pairs_ok(source, v@),
        TokenStream::Tree(v) => {
            proof {
                assert(decreases_to!(v => v@));
            }
            stream_nodes_ok(v@, source)
        },
    }
}

/// Every node's tokens, and its nested stream, lie in the source.
pub open spec fn stream_nodes_ok(ns: Seq<TokenStreamNode>, source: Seq<char>) -> bool
    decreases ns, 0nat,
{
    ns.len() == 0 || (stream_nodes_ok(ns.drop_last(), source) && stream_node_ok(ns.last(), source))
}

/// The node's tokens, and its nested stream, lie in the source.
pub open spec fn stream_node_ok(n: TokenStreamNode, source: Seq<char>) -> bool
    decreases n, 2nat,
{
    &&& pairs_ok(source, n.tokens@)
    &&& match n.children {
        Some(c) => stream_ok(*c, source),
        None => true,
    }
}

/// Joining two well-placed levels gives a well-placed level.
proof fn lemma_level_ok_concat(a: Seq<LineContainer>, b: Seq<LineContainer>, source: Seq<char>)
    requires
        level_ok(a, source),
        level_ok(b, source),
    ensures
        level_ok(a + b, source),
    decreases b.len(),
{
    if b.len() == 0 {
        assert(a + b =~= a);
    } else {
        lemma_level_ok_concat(a, b.drop_last(), source);
        assert((a + b).drop_last() =~= a + b.drop_last());
        assert((a + b).last() == b.last());
    }
}

/// The line made from a well-placed node is well placed.
proof fn lemma_line_of_node_ok(lc: LineContainer, n: TokenStreamNode, source: Seq<char>)
    requires
        line_of_node(lc, n),
        pairs_ok(source, n.tokens@),
    ensures
        container_ok(lc, source),
{
    let lt = lc->Token_0;
    let z = zip_spec(lt.source_tokens@, lt.token_spans@);
    assert(z =~= n.tokens@);
}

/// The containers made from well-placed nodes are well placed.
proof fn lemma_containers_of_nodes_ok(o: Seq<LineContainer>, ns: Seq<TokenStreamNode>, source: Seq<char>)
    requires
        containers_of_nodes(o, ns),
        stream_nodes_ok(ns, source),
    ensures
        level_ok(o, source),
    decreases ns, 2nat,
{
    if ns.len() == 0 {
    } else {
        let k = containers_per_node(ns.last());
        let a = o.subrange(0, o.len() - k);
        let b = o.subrange(o.len() - k, o.len() as int);
        lemma_containers_of_nodes_ok(a, ns.drop_last(), source);
        lemma_containers_of_node_ok(b, ns.last(), source);
        lemma_level_ok_concat(a, b, source);
        assert(a + b =~= o);
    }
}

/// The containers made from a well-placed node are well placed.
proof fn lemma_containers_of_node_ok(o: Seq<LineContainer>, n: TokenStreamNode, source: Seq<char>)
    requires
        containers_of_node(o, n),
        stream_node_ok(n, source),
    ensures
        level_ok(o, source),
    decreases n, 1nat,
{
    match n.children {
        Some(c) => {
            assert(decreases_to!(n => n.children));
            lemma_container_of_stream_ok(o[o.len() - 1], *c, source);
            assert(level_ok(Seq::<LineContainer>::empty(), source));
            assert(o.last() == o[o.len() - 1]);
            if n.tokens@.len() == 0 {
                assert(o.len() == 1);
                assert(container_ok(o[0], source));
                assert(o.drop_last() =~= Seq::<LineContainer>::empty());
                assert(level_ok(o.drop_last(), source));
                assert(container_ok(o.last(), source));
                assert(level_ok(o, source));
            } else {
                lemma_line_of_node_ok(o[0], n, source);
                assert(o.drop_last().drop_last() =~= Seq::<LineContainer>::empty());
                assert(o.drop_last().last() == o[0]);
                assert(level_ok(o.drop_last(), source));
                assert(o.len() == 2);
                assert(container_ok(o.last(), source));
                assert(level_ok(o, source));
            }
        },
        None => {
            lemma_line_of_node_ok(o[0], n, source);
            assert(o.drop_last() =~= Seq::<LineContainer>::empty());
            assert(level_ok(Seq::<LineContainer>::empty(), source));
            assert(o.last() == o[0]);
        },
    }
}

/// The container made from a well-placed nested stream is well placed.
proof fn lemma_container_of_stream_ok(lc: LineContainer, s: TokenStream, source: Seq<char>)
    requires
        container_of_stream(lc, s),
        stream_ok(s, source),
    ensures
        container_ok(lc, source),
    decreases s, 3nat,
{
    match s {
        TokenStream::Tree(v) => {
            assert(decreases_to!(v => v@));
            lemma_containers_of_nodes_ok(lc->children@, v@, source);
        },
        TokenStream::Flat(_) => {
            assert(lc->children@ =~= Seq::<LineContainer>::empty());
        },
    }
}

/// Parse a nested token stream with the line-based parser: the stream is
/// converted back to its container tree and parsed. A flat stream is
/// refused with `ExpectedTree`.
pub fn adapt_linebased_parser(stream: TokenStream, source: &str) -> (r: Result<Document, AdapterError>)
    requires
        stream_ok(stream, source@),
    ensures
        stream is Flat ==> r == Err::<Document, AdapterError>(AdapterError::ExpectedTree),
        stream is Tree ==> r is Ok && r->Ok_0.metadata@.len() == 0 && r->Ok_0.root.title.text@
            == "root"@ && exists|lc: LineContainer|
            #![trigger containers_of_nodes(lc->children@, stream->Tree_0@)]
            lc is Container && containers_of_nodes(lc->children@, stream->Tree_0@) && all_built(
                r->Ok_0.root.children@,
                parse_from(lc->children@, 0),
                source@,
            ),
{
    let ghost s0 = stream;
    let container = match token_stream_to_line_container(stream) {
        Ok(c) => c,
        Err(e) => {
            return Err(e);
        },
    };
    proof {
        let v = s0->Tree_0;
        assert(decreases_to!(v => v@));
        lemma_containers_of_nodes_ok(container->children@, s0->Tree_0@, source@);
    }
    match parse_experimental_v2(container, source) {
        Ok(doc) => Ok(doc),
        Err(e) => {
            let mut m = "LineBased parsing failed: ".to_owned();
            m.append(e.as_str());
            Err(AdapterError::Error(m))
        },
    }
}

} // verus!
