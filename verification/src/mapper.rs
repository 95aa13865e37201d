//! The stream mapper interface and the walker that drives it over a stream.
//!
//! A mapper transforms flat token sequences (`map_flat`) and tree nodes, before
//! (`enter_node`) and after (`exit_node`) their children are walked. The
//! walker handles the traversal.

use crate::stream::{TokenStream, TokenStreamNode};
use crate::tokens::Token;
use std::ops::Range;
use vstd::prelude::*;

verus! {

/// A failed transformation, with its message.
#[derive(Debug, Clone, PartialEq)]
pub enum TransformationError {
    Error(String),
}

impl TransformationError {
    /// The human-readable description of the error.
    pub fn message(&self) -> (r: String)
        ensures
            r@ == "Transformation error: "@ + self->Error_0@,
    {
        match self {
            TransformationError::Error(msg) => {
                let mut s = "Transformation error: ".to_owned();
                s.append(msg.as_str());
                s
            },
        }
    }
}

/// A transformation of token streams. Every method passes its input through
/// unchanged unless the implementation overrides it.
pub trait StreamMapper {
    /// Transform a flat token sequence.
    fn map_flat(&mut self, tokens: Vec<(Token, Range<usize>)>) -> (r: Result<
        TokenStream,
        TransformationError,
    >)
        default_ensures
            r == Ok::<TokenStream, TransformationError>(TokenStream::Flat(tokens)),
    {
        Ok(TokenStream::Flat(tokens))
    }

    /// Transform a node before its children are walked. The node's tokens and
    /// line type may change; its children are the ones walked next and stay
    /// as they were.
    fn enter_node(&mut self, node: TokenStreamNode) -> (r: Result<
        TokenStreamNode,
        TransformationError,
    >)
        ensures
            r is Ok ==> r->Ok_0.children == node.children,
        default_ensures
            r == Ok::<TokenStreamNode, TransformationError>(node),
    {
        Ok(node)
    }

    /// Transform a node after its children have been walked.
    fn exit_node(&mut self, node: TokenStreamNode) -> (r: Result<
        TokenStreamNode,
        TransformationError,
    >)
        default_ensures
            r == Ok::<TokenStreamNode, TransformationError>(node),
    {
        Ok(node)
    }
}

/// `r` is what `map_flat` returns for the tokens when the mapper is in state `m`.
pub open spec fn flat_result<M: StreamMapper + ?Sized>(
    m: &M,
    tokens: Vec<(Token, Range<usize>)>,
    r: Result<TokenStream, TransformationError>,
) -> bool {
    exists|mr: &mut M| &*mr == m && #[trigger] call_ensures(M::map_flat, (mr, tokens), r)
}

/// `r` is what `enter_node` returns for the node when the mapper is in state `m`.
pub open spec fn enter_result<M: StreamMapper + ?Sized>(
    m: &M,
    node: TokenStreamNode,
    r: Result<TokenStreamNode, TransformationError>,
) -> bool {
    exists|mr: &mut M| &*mr == m && #[trigger] call_ensures(M::enter_node, (mr, node), r)
}

/// `r` is what `exit_node` returns for the node when the mapper is in state `m`.
pub open spec fn exit_result<M: StreamMapper + ?Sized>(
    m: &M,
    node: TokenStreamNode,
    r: Result<TokenStreamNode, TransformationError>,
) -> bool {
    exists|mr: &mut M| &*mr == m && #[trigger] call_ensures(M::exit_node, (mr, node), r)
}

/// Names an intermediate result of a walk (and the mapper state it was
/// obtained in); it holds of every value and serves as the trigger under
/// which the walk relations below are unfolded.
pub open spec fn walk_stage<T>(x: T) -> bool {
    true
}

/// A node with its nested stream replaced.
pub open spec fn with_children(n: TokenStreamNode, c: TokenStream) -> TokenStreamNode {
    TokenStreamNode { tokens: n.tokens, children: Some(Box::new(c)), line_type: n.line_type }
}

/// `r` is a result of walking the stream with a mapper that is in state `m`
/// at the first call: a flat stream gives what `map_flat` gives; a tree gives
/// the walked nodes, or the first error.
pub open spec fn walked<M: StreamMapper + ?Sized>(
    m: &M,
    s: TokenStream,
    r: Result<TokenStream, TransformationError>,
) -> bool
    decreases s, 2nat,
{
    match s {
        TokenStream::Flat(t) => flat_result(m, t, r),
        TokenStream::Tree(ns) => {
            proof {
                assert(decreases_to!(ns => ns@));
            }
            exists|rs: Result<Seq<TokenStreamNode>, TransformationError>|
                #[trigger] walk_stage(rs) && nodes_walked(m, ns@, rs) && match rs {
                    Ok(v) => r is Ok && r->Ok_0 is Tree && r->Ok_0->Tree_0@ == v,
                    Err(e) => r == Err::<TokenStream, TransformationError>(e),
                }
        },
    }
}

/// `r` is a result of walking one node with a mapper in state `m` at the
/// first call: `enter_node`, then the nested stream (if any), then
/// `exit_node` on the entered node with its walked stream; the first error
/// stops the walk.
pub open spec fn node_walked<M: StreamMapper + ?Sized>(
    m: &M,
    n: TokenStreamNode,
    r: Result<TokenStreamNode, TransformationError>,
) -> bool
    decreases n, 1nat,
{
    exists|e: Result<TokenStreamNode, TransformationError>|
        #[trigger] enter_result(m, n, e) && match e {
            Err(x) => r == Err::<TokenStreamNode, TransformationError>(x),
            Ok(en) => match n.children {
                None => exists|m2: &M| #[trigger] exit_result(m2, en, r),
                Some(c) => {
                    proof {
                        assert(decreases_to!(n => n.children));
                    }
                    exists|m2: &M, w: Result<TokenStream, TransformationError>|
                        #[trigger] walk_stage((m2, w)) && walked(m2, *c, w) && match w {
                            Err(x) => r == Err::<TokenStreamNode, TransformationError>(x),
                            Ok(ws) => exists|m3: &M| #[trigger] exit_result(m3, with_children(en, ws), r),
                        }
                },
            },
        }
}

/// `r` is a result of walking the nodes in order, the first with a mapper in
/// state `m`: all walked nodes, or the first error.
pub open spec fn nodes_walked<M: StreamMapper + ?Sized>(
    m: &M,
    ns: Seq<TokenStreamNode>,
    r: Result<Seq<TokenStreamNode>, TransformationError>,
) -> bool
    decreases ns, 0nat,
{
    if ns.len() == 0 {
        r == Ok::<Seq<TokenStreamNode>, TransformationError>(Seq::empty())
    } else {
        proof {
            assert(decreases_to!(ns => ns[ns.len() - 1]));
            assert(decreases_to!(ns => ns.subrange(0, ns.len() - 1)));
        }
        exists|rp: Result<Seq<TokenStreamNode>, TransformationError>|
            #[trigger] walk_stage(rp) && nodes_walked(m, ns.subrange(0, ns.len() - 1), rp) && match rp {
                Err(e) => r == Err::<Seq<TokenStreamNode>, TransformationError>(e),
                Ok(v) => exists|m2: &M, rl: Result<TokenStreamNode, TransformationError>|
                    #[trigger] walk_stage((m2, rl)) && (ns.len() == 1 ==> m2 == m) && node_walked(
                        m2,
                        ns[ns.len() - 1],
                        rl,
                    )
                        && match rl {
                        Err(e) => r == Err::<Seq<TokenStreamNode>, TransformationError>(e),
                        Ok(x) => r == Ok::<Seq<TokenStreamNode>, TransformationError>(v.push(x)),
                    },
            }
    }
}

/// Once a walk of some nodes has failed, walking more nodes gives the same error.
proof fn lemma_nodes_walked_err<M: StreamMapper + ?Sized>(
    m: &M,
    ns: Seq<TokenStreamNode>,
    i: int,
    e: TransformationError,
)
    requires
        0 < i <= ns.len(),
        nodes_walked(m, ns.take(i), Err(e)),
    ensures
        nodes_walked(m, ns, Err(e)),
    decreases ns.len() - i,
{
    if i < ns.len() {
        let t = ns.take(i + 1);
        assert(t.subrange(0, t.len() - 1) =~= ns.take(i));
        assert(walk_stage(Err::<Seq<TokenStreamNode>, TransformationError>(e)));
        lemma_nodes_walked_err(m, ns, i + 1, e);
    } else {
        assert(ns.take(i) =~= ns);
    }
}

/// Walk a stream with a mapper: a flat stream goes to `map_flat`; in a tree
/// each node goes through `enter_node`, then its children are walked, then it
/// goes through `exit_node`. The first error stops the walk and is returned.
/// A tree stays a tree with one node per input node.
pub fn walk_stream<M: StreamMapper + ?Sized>(stream: TokenStream, mapper: &mut M) -> (r: Result<
    TokenStream,
    TransformationError,
>)
    ensures
        walked(&*old(mapper), stream, r),
        stream is Flat ==> exists|mr: &mut M|
            &*mr == &*old(mapper) && &*final(mr) == &*final(mapper) && #[trigger] call_ensures(
                M::map_flat,
                (mr, stream->Flat_0),
                r,
            ),
        stream is Tree && r is Ok ==> r->Ok_0 is Tree && r->Ok_0->Tree_0@.len()
            == stream->Tree_0@.len(),
        stream is Tree && stream->Tree_0@.len() == 0 ==> r is Ok,
    decreases stream, 1nat,
{
    match stream {
        TokenStream::Flat(tokens) => mapper.map_flat(tokens),
        TokenStream::Tree(nodes) => {
            let ghost ns = nodes@;
            let ghost s = stream;
            proof {
                assert(decreases_to!(s => nodes));
                assert(decreases_to!(nodes => nodes@));
                assert(ns.take(0) =~= Seq::<TokenStreamNode>::empty());
            }
            let n = nodes.len();
            let mut out: Vec<TokenStreamNode> = Vec::new();
            let mut i: usize = 0;
            for node in it: nodes.into_iter()
                invariant
                    i == it.index(),
                    it.seq() == ns,
                    n == ns.len(),
                    i <= n,
                    out@.len() == i,
                    forall|k: int| 0 <= k < ns.len() ==> decreases_to!(s => #[trigger] ns[k]),
                    s == stream,
                    s is Tree,
                    s->Tree_0@ == ns,
                    nodes_walked(&*old(mapper), ns.take(i as int), Ok(out@)),
                    i == 0 ==> &*mapper == &*old(mapper),
            {
                let ghost mi: &M = &*mapper;
                let ghost before = out@;
                let res = walk_node(node, mapper, Ghost(s));
                proof {
                    let tk = ns.take(i + 1);
                    assert(tk.subrange(0, tk.len() - 1) =~= ns.take(i as int));
                    assert(tk[tk.len() - 1] == ns[i as int]);
                    assert(walk_stage(Ok::<Seq<TokenStreamNode>, TransformationError>(before)));
                    assert(walk_stage((mi, res)));
                }
                match res {
                    Ok(w) => {
                        out.push(w);
                        proof {
                            assert(nodes_walked(&*old(mapper), ns.take(i + 1), Ok(out@)));
                        }
                    },
                    Err(e) => {
                        proof {
                            assert(nodes_walked(&*old(mapper), ns.take(i + 1), Err(e)));
                            lemma_nodes_walked_err(&*old(mapper), ns, i + 1, e);
                            assert(walk_stage(Err::<Seq<TokenStreamNode>, TransformationError>(e)));
                        }
                        return Err(e);
                    },
                }
                i = i + 1;
            }
            proof {
                assert(ns.take(i as int) =~= ns);
                assert(walk_stage(Ok::<Seq<TokenStreamNode>, TransformationError>(out@)));
            }
            Ok(TokenStream::Tree(out))
        },
    }
}

/// Walk one node: `enter_node`, then its children, then `exit_node`.
fn walk_node<M: StreamMapper + ?Sized>(
    node: TokenStreamNode,
    mapper: &mut M,
    Ghost(parent): Ghost<TokenStream>,
) -> (r: Result<TokenStreamNode, TransformationError>)
    requires
        decreases_to!(parent => node),
    ensures
        node_walked(&*old(mapper), node, r),
    decreases parent, 0nat,
{
    let ghost n0 = node;
    let entered_res = mapper.enter_node(node);
    proof {
        assert(enter_result(&*old(mapper), n0, entered_res));
    }
    let mut entered = match entered_res {
        Ok(n) => n,
        Err(e) => {
            return Err(e);
        },
    };
    let ghost en = entered;
    let children = entered.children.take();
    match children {
        Some(c) => {
            proof {
                assert(decreases_to!(n0 => n0.children));
                assert(decreases_to!(parent => *c));
            }
            let ghost m1: &M = &*mapper;
            let sub = walk_stream(*c, mapper);
            proof {
                assert(walked(m1, *c, sub));
                assert(walk_stage((m1, sub)));
            }
            match sub {
                Ok(w) => {
                    entered.children = Some(Box::new(w));
                    proof {
                        assert(entered == with_children(en, w));
                    }
                },
                Err(e) => {
                    return Err(e);
                },
            }
        },
        None => {},
    }
    let ghost m3: &M = &*mapper;
    let ghost last = entered;
    let r = mapper.exit_node(entered);
    proof {
        assert(exit_result(m3, last, r));
    }
    r
}

} // verus!
