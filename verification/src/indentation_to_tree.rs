//! Nesting of line nodes by their `Indent` and `Dedent` markers.
//!
//! A shallow tree of line nodes (one node per line) becomes a hierarchy: the
//! lines between an `Indent` and its `Dedent` become the children of the line
//! just before the `Indent`.

use crate::mapper::{StreamMapper, TransformationError};
use crate::stream::{
    lemma_nodes_model_index,
    lemma_nodes_model_push,
    node_tokens,
    nodes_tokens,
    stream_tokens,
    node_model,
    nodes_model,
    stream_model,
    NodeModel,
    StreamModel,
    TokenStream,
    TokenStreamNode,
};
use crate::tokens::{LineType, Token};
use std::ops::Range;
use vstd::prelude::*;

verus! {

/// The restructuring transformation; it works on whole trees.
pub struct IndentationToTreeMapper;

/// The node marks the start of a nested level.
pub open spec fn is_indent_node(n: NodeModel) -> bool {
    n.line_type == Some(LineType::Indent)
}

/// The node marks the end of a nested level.
pub open spec fn is_dedent_node(n: NodeModel) -> bool {
    n.line_type == Some(LineType::Dedent)
}

/// How many levels are open after the given nodes: one per `Indent`, minus
/// one per `Dedent`.
pub open spec fn indent_depth(ns: Seq<NodeModel>) -> int
    decreases ns.len(),
{
    if ns.len() == 0 {
        0
    } else {
        indent_depth(ns.drop_last()) + if is_indent_node(ns.last()) {
            1int
        } else if is_dedent_node(ns.last()) {
            -1int
        } else {
            0int
        }
    }
}

/// Every `Dedent` closes a level that an earlier `Indent` opened.
pub open spec fn dedents_matched(ns: Seq<NodeModel>) -> bool {
    forall|k: int| 0 <= k < ns.len() && is_dedent_node(#[trigger] ns[k]) ==> indent_depth(ns.take(k)) > 0
}

/// One step of the level stack: an `Indent` opens a new empty level; a
/// `Dedent` closes the innermost level and makes its nodes the children of
/// the last node of the enclosing level (or of a new token-less node when
/// that level is empty); any other node joins the innermost level.
pub open spec fn hierarchy_step(st: Seq<Seq<NodeModel>>, n: NodeModel) -> Seq<Seq<NodeModel>> {
    if is_indent_node(n) {
        st.push(Seq::empty())
    } else if is_dedent_node(n) {
        let children = st.last();
        let rest = st.drop_last();
        let parent = rest.last();
        let new_parent = if parent.len() > 0 {
            parent.update(
                parent.len() - 1,
                NodeModel { children: Some(StreamModel::Tree(children)), ..parent.last() },
            )
        } else {
            seq![
                NodeModel {
                    tokens: Seq::empty(),
                    children: Some(StreamModel::Tree(children)),
                    line_type: None,
                },
            ]
        };
        rest.update(rest.len() - 1, new_parent)
    } else {
        st.update(st.len() - 1, st.last().push(n))
    }
}

/// The level stack after the given nodes, starting from one empty level.
pub open spec fn hierarchy_run(ns: Seq<NodeModel>) -> Seq<Seq<NodeModel>>
    decreases ns.len(),
{
    if ns.len() == 0 {
        seq![Seq::empty()]
    } else {
        hierarchy_step(hierarchy_run(ns.drop_last()), ns.last())
    }
}

/// The nodes of the restructured tree: the innermost open level once all
/// nodes are processed (the root level when every `Indent` was closed).
pub open spec fn hierarchy_result(ns: Seq<NodeModel>) -> Seq<NodeModel> {
    hierarchy_run(ns).last()
}

/// The stack always has one level more than the number of open levels.
pub proof fn lemma_hierarchy_run_len(ns: Seq<NodeModel>)
    requires
        dedents_matched(ns),
    ensures
        hierarchy_run(ns).len() == 1 + indent_depth(ns),
        indent_depth(ns) >= 0,
    decreases ns.len(),
{
    if ns.len() > 0 {
        let p = ns.drop_last();
        assert forall|k: int| 0 <= k < p.len() && is_dedent_node(#[trigger] p[k]) implies indent_depth(
            p.take(k),
        ) > 0 by {
            assert(p.take(k) =~= ns.take(k));
            assert(ns[k] == p[k]);
        }
        lemma_hierarchy_run_len(p);
        if is_dedent_node(ns.last()) {
            assert(ns.take(ns.len() - 1) =~= p);
            assert(ns[ns.len() - 1] == ns.last());
        }
    }
}

/// The models of a stack of levels.
pub open spec fn stack_model(st: Seq<Vec<TokenStreamNode>>) -> Seq<Seq<NodeModel>> {
    Seq::new(st.len(), |i: int| nodes_model(st[i]@))
}

impl IndentationToTreeMapper {
    pub fn new() -> (r: IndentationToTreeMapper) {
        IndentationToTreeMapper
    }

    /// Restructure a shallow tree into a hierarchy by its `Indent` and `Dedent`
    /// nodes. A flat stream is refused.
    pub fn transform(&mut self, stream: TokenStream) -> (r: Result<TokenStream, TransformationError>)
        requires
            stream is Tree ==> dedents_matched(nodes_model(stream->Tree_0@)),
        ensures
            stream is Flat ==> r is Err && r->Err_0->Error_0@
                == "IndentationToTreeMapper requires Tree input, not Flat"@,
            stream is Tree ==> r is Ok && r->Ok_0 is Tree && nodes_model(r->Ok_0->Tree_0@)
                == hierarchy_result(nodes_model(stream->Tree_0@)),
    {
        match stream {
            TokenStream::Flat(_) => Err(
                TransformationError::Error(
                    "IndentationToTreeMapper requires Tree input, not Flat".to_owned(),
                ),
            ),
            TokenStream::Tree(nodes) => {
                let restructured = build_hierarchy(nodes);
                Ok(TokenStream::Tree(restructured))
            },
        }
    }
}

/// Build the hierarchy of a list of line nodes.
pub fn build_hierarchy(nodes: Vec<TokenStreamNode>) -> (r: Vec<TokenStreamNode>)
    requires
        dedents_matched(nodes_model(nodes@)),
    ensures
        nodes_model(r@) == hierarchy_result(nodes_model(nodes@)),
{
    let ghost ns = nodes@;
    let ghost ms = nodes_model(ns);
    proof {
        lemma_nodes_model_index(ns);
    }
    let n = nodes.len();
    let mut stack: Vec<Vec<TokenStreamNode>> = Vec::new();
    stack.push(Vec::new());
    proof {
        assert(stack_model(stack@) =~= hierarchy_run(ms.take(0)));
    }
    let mut i: usize = 0;
    for node in it: nodes.into_iter()
        invariant
            i == it.index(),
            it.seq() == ns,
            n == ns.len(),
            i <= n,
            ms == nodes_model(ns),
            ms.len() == ns.len(),
            forall|k: int| 0 <= k < ns.len() ==> #[trigger] ms[k] == node_model(ns[k]),
            dedents_matched(ms),
            stack_model(stack@) == hierarchy_run(ms.take(i as int)),
    {
        let ghost before = stack_model(stack@);
        let ghost m = node_model(node);
        proof {
            assert(ms[i as int] == m);
            assert(ms.take(i + 1).drop_last() =~= ms.take(i as int));
            assert(ms.take(i + 1).last() == m);
            assert(hierarchy_run(ms.take(i + 1)) == hierarchy_step(before, m));
            let p = ms.take(i as int);
            assert forall|k: int| 0 <= k < p.len() && is_dedent_node(#[trigger] p[k]) implies indent_depth(
                p.take(k),
            ) > 0 by {
                assert(p.take(k) =~= ms.take(k));
                assert(ms[k] == p[k]);
            }
            lemma_hierarchy_run_len(p);
            assert(stack@.len() == before.len());
        }
        let lt = node.line_type;
        let is_indent = match lt {
            Some(LineType::Indent) => true,
            _ => false,
        };
        let is_dedent = match lt {
            Some(LineType::Dedent) => true,
            _ => false,
        };
        if is_indent {
            stack.push(Vec::new());
            proof {
                assert(stack_model(stack@) =~= before.push(Seq::empty()));
            }
        } else if is_dedent {
            proof {
                assert(ms[i as int] == m);
                assert(indent_depth(ms.take(i as int)) > 0);
                assert(stack@.len() >= 2);
            }
            let children_nodes = stack.pop().unwrap();
            let mut parent_level = stack.pop().unwrap();
            let ghost rest = before.drop_last();
            proof {
                assert(nodes_model(children_nodes@) == before.last());
                assert(nodes_model(parent_level@) == rest.last());
                lemma_nodes_model_index(parent_level@);
            }
            let ghost children_model = nodes_model(children_nodes@);
            if parent_level.len() > 0 {
                let ghost whole = parent_level@;
                let mut last = parent_level.pop().unwrap();
                let ghost pl = parent_level@;
                let ghost last_old = last;
                last.children = Some(Box::new(TokenStream::Tree(children_nodes)));
                proof {
                    assert(whole =~= pl.push(last_old));
                    assert(stream_model(TokenStream::Tree(children_nodes)) == StreamModel::Tree(
                        children_model,
                    ));
                    assert(node_model(last) == NodeModel {
                        children: Some(StreamModel::Tree(children_model)),
                        ..node_model(last_old)
                    });
                    lemma_nodes_model_push(pl, last);
                    lemma_nodes_model_push(pl, last_old);
                    lemma_nodes_model_index(pl);
                    let old_parent = rest.last();
                    assert(old_parent == nodes_model(pl).push(node_model(last_old)));
                    assert(nodes_model(pl.push(last)) =~= old_parent.update(
                        old_parent.len() - 1,
                        NodeModel {
                            children: Some(StreamModel::Tree(children_model)),
                            ..old_parent.last()
                        },
                    ));
                }
                parent_level.push(last);
            } else {
                let container = TokenStreamNode {
                    tokens: Vec::new(),
                    children: Some(Box::new(TokenStream::Tree(children_nodes))),
                    line_type: None,
                };
                let ghost pl = parent_level@;
                parent_level.push(container);
                proof {
                    lemma_nodes_model_push(pl, container);
                    assert(pl =~= Seq::<TokenStreamNode>::empty());
                    assert(nodes_model(pl) =~= Seq::<NodeModel>::empty());
                    assert(node_model(container).tokens =~= Seq::<(Token, Range<usize>)>::empty());
                }
            }
            stack.push(parent_level);
            proof {
                assert(stack_model(stack@) =~= hierarchy_step(before, m));
            }
        } else {
            let mut top = stack.pop().unwrap();
            let ghost tl = top@;
            top.push(node);
            stack.push(top);
            proof {
                lemma_nodes_model_push(tl, node);
                assert(stack_model(stack@) =~= hierarchy_step(before, m));
            }
        }
        i = i + 1;
    }
    proof {
        assert(ms.take(n as int) =~= ms);
        lemma_hierarchy_run_len(ms);
    }
    let root = stack.pop().unwrap();
    root
}

impl StreamMapper for IndentationToTreeMapper {
    /// A flat stream cannot be restructured.
    fn map_flat(&mut self, tokens: Vec<(Token, Range<usize>)>) -> (r: Result<
        TokenStream,
        TransformationError,
    >)
        ensures
            r is Err && r->Err_0->Error_0@ == "IndentationToTreeMapper requires Tree input, not Flat"@,
    {
        Err(
            TransformationError::Error(
                "IndentationToTreeMapper requires Tree input, not Flat".to_owned(),
            ),
        )
    }
}

// ---------------------------------------------------------------------------
// What the restructuring keeps
// ---------------------------------------------------------------------------

/// The pairs of a node: its own, then those of its nested stream.
pub open spec fn model_node_pairs(n: NodeModel) -> Seq<(Token, Range<usize>)>
    decreases n, 1nat,
{
    match n.children {
        Some(StreamModel::Flat(t)) => n.tokens + t,
        Some(StreamModel::Tree(ns)) => {
            proof {
                assert(decreases_to!(n => n.children));
            }
            n.tokens + model_nodes_pairs(ns)
        },
        None => n.tokens,
    }
}

/// The pairs of a list of nodes, one node after the other.
pub open spec fn model_nodes_pairs(ns: Seq<NodeModel>) -> Seq<(Token, Range<usize>)>
    decreases ns, 0nat,
{
    if ns.len() == 0 {
        Seq::empty()
    } else {
        proof {
            assert(decreases_to!(ns => ns.last()));
        }
        model_nodes_pairs(ns.drop_last()) + model_node_pairs(ns.last())
    }
}

/// The pairs of the line nodes, leaving out the `Indent` and `Dedent`
/// markers.
pub open spec fn kept_pairs(ns: Seq<NodeModel>) -> Seq<(Token, Range<usize>)>
    decreases ns.len(),
{
    if ns.len() == 0 {
        Seq::empty()
    } else if is_indent_node(ns.last()) || is_dedent_node(ns.last()) {
        kept_pairs(ns.drop_last())
    } else {
        kept_pairs(ns.drop_last()) + model_node_pairs(ns.last())
    }
}

/// The pairs of all levels of a stack, bottom level first.
pub open spec fn stack_pairs(st: Seq<Seq<NodeModel>>) -> Seq<(Token, Range<usize>)>
    decreases st.len(),
{
    if st.len() == 0 {
        Seq::empty()
    } else {
        stack_pairs(st.drop_last()) + model_nodes_pairs(st.last())
    }
}

/// Below the top level, the last node of each level has no children.
pub open spec fn lower_levels_open(st: Seq<Seq<NodeModel>>) -> bool {
    forall|i: int|
        0 <= i < st.len() - 1 && (#[trigger] st[i]).len() > 0 ==> st[i].last().children is None
}

proof fn lemma_model_nodes_pairs_push(ns: Seq<NodeModel>, n: NodeModel)
    ensures
        model_nodes_pairs(ns.push(n)) == model_nodes_pairs(ns) + model_node_pairs(n),
{
    assert(ns.push(n).drop_last() =~= ns);
}

proof fn lemma_keeps_step(ns: Seq<NodeModel>, k: int)
    requires
        0 <= k < ns.len(),
        dedents_matched(ns),
        forall|j: int| 0 <= j < ns.len() ==> (#[trigger] ns[j]).children is None,
        forall|j: int|
            0 < j < ns.len() && is_indent_node(#[trigger] ns[j]) ==> !is_dedent_node(ns[j - 1]),
        stack_pairs(hierarchy_run(ns.take(k))) == kept_pairs(ns.take(k)),
        lower_levels_open(hierarchy_run(ns.take(k))),
        (k == 0 || !is_dedent_node(ns[k - 1])) ==> (hierarchy_run(ns.take(k)).last().len() == 0
            || hierarchy_run(ns.take(k)).last().last().children is None),
    ensures
        stack_pairs(hierarchy_run(ns.take(k + 1))) == kept_pairs(ns.take(k + 1)),
        lower_levels_open(hierarchy_run(ns.take(k + 1))),
        !is_dedent_node(ns[k]) ==> (hierarchy_run(ns.take(k + 1)).last().len() == 0
            || hierarchy_run(ns.take(k + 1)).last().last().children is None),
{
    let p = ns.take(k);
    let q = ns.take(k + 1);
    let n = ns[k];
    assert(q.drop_last() =~= p);
    assert(q.last() == n);
    let st = hierarchy_run(p);
    assert(hierarchy_run(q) == hierarchy_step(st, n));
    assert forall|j: int| 0 <= j < p.len() && is_dedent_node(#[trigger] p[j]) implies indent_depth(
        p.take(j),
    ) > 0 by {
        assert(p.take(j) =~= ns.take(j));
        assert(ns[j] == p[j]);
    }
    lemma_hierarchy_run_len(p);
    let st2 = hierarchy_step(st, n);
    if is_indent_node(n) {
        assert(st2 == st.push(Seq::empty()));
        assert(st2.drop_last() =~= st);
        assert(model_nodes_pairs(Seq::<NodeModel>::empty()) =~= Seq::<(Token, Range<usize>)>::empty());
        assert(stack_pairs(st2) =~= stack_pairs(st));
        if k > 0 {
            assert(!is_dedent_node(ns[k - 1]));
        }
        assert forall|i: int|
            0 <= i < st2.len() - 1 && (#[trigger] st2[i]).len() > 0 implies st2[i].last().children is None by {
            assert(st2[i] == st[i]);
        }
    } else if is_dedent_node(n) {
        assert(indent_depth(ns.take(k)) > 0);
        assert(st.len() >= 2);
        let children = st.last();
        let rest = st.drop_last();
        let parent = rest.last();
        assert(rest.len() >= 1);
        assert(parent == st[st.len() - 2]);
        let new_parent = if parent.len() > 0 {
            parent.update(
                parent.len() - 1,
                NodeModel { children: Some(StreamModel::Tree(children)), ..parent.last() },
            )
        } else {
            seq![
                NodeModel {
                    tokens: Seq::empty(),
                    children: Some(StreamModel::Tree(children)),
                    line_type: None,
                },
            ]
        };
        assert(st2 == rest.update(rest.len() - 1, new_parent));
        assert(st2.drop_last() =~= rest.drop_last());
        assert(st2.last() == new_parent);
        if parent.len() > 0 {
            let pl = parent.last();
            assert(pl.children is None);
            let np = NodeModel { children: Some(StreamModel::Tree(children)), ..pl };
            assert(new_parent.drop_last() =~= parent.drop_last());
            assert(new_parent.last() == np);
            assert(model_node_pairs(np) == pl.tokens + model_nodes_pairs(children));
            assert(model_node_pairs(pl) == pl.tokens);
            assert(model_nodes_pairs(parent) == model_nodes_pairs(parent.drop_last()) + pl.tokens);
            assert(model_nodes_pairs(new_parent) =~= model_nodes_pairs(parent) + model_nodes_pairs(
                children,
            ));
        } else {
            let np = new_parent[0];
            assert(new_parent.drop_last() =~= Seq::<NodeModel>::empty());
            assert(new_parent.last() == np);
            assert(model_nodes_pairs(Seq::<NodeModel>::empty()) =~= Seq::<(Token, Range<usize>)>::empty());
            assert(model_nodes_pairs(new_parent) == model_nodes_pairs(new_parent.drop_last())
                + model_node_pairs(new_parent.last()));
            assert(model_node_pairs(np) =~= model_nodes_pairs(children));
            assert(model_nodes_pairs(parent) =~= Seq::<(Token, Range<usize>)>::empty());
            assert(model_nodes_pairs(new_parent) =~= model_nodes_pairs(parent) + model_nodes_pairs(
                children,
            ));
        }
        assert(stack_pairs(st) == stack_pairs(rest) + model_nodes_pairs(children));
        assert(stack_pairs(rest) == stack_pairs(rest.drop_last()) + model_nodes_pairs(parent));
        assert(stack_pairs(st2) =~= stack_pairs(st));
        assert forall|i: int|
            0 <= i < st2.len() - 1 && (#[trigger] st2[i]).len() > 0 implies st2[i].last().children is None by {
            assert(st2[i] == st[i]);
        }
    } else {
        let top = st.last();
        assert(st2 == st.update(st.len() - 1, top.push(n)));
        assert(st2.drop_last() =~= st.drop_last());
        lemma_model_nodes_pairs_push(top, n);
        assert(stack_pairs(st2) =~= stack_pairs(st) + model_node_pairs(n));
        assert(n.children is None);
        assert forall|i: int|
            0 <= i < st2.len() - 1 && (#[trigger] st2[i]).len() > 0 implies st2[i].last().children is None by {
            assert(st2[i] == st[i]);
        }
        assert(st2.last() == top.push(n));
    }
}

proof fn lemma_keeps_prefix(ns: Seq<NodeModel>, k: int)
    requires
        0 <= k <= ns.len(),
        dedents_matched(ns),
        forall|j: int| 0 <= j < ns.len() ==> (#[trigger] ns[j]).children is None,
        forall|j: int|
            0 < j < ns.len() && is_indent_node(#[trigger] ns[j]) ==> !is_dedent_node(ns[j - 1]),
    ensures
        stack_pairs(hierarchy_run(ns.take(k))) == kept_pairs(ns.take(k)),
        lower_levels_open(hierarchy_run(ns.take(k))),
        (k == 0 || !is_dedent_node(ns[k - 1])) ==> (hierarchy_run(ns.take(k)).last().len() == 0
            || hierarchy_run(ns.take(k)).last().last().children is None),
    decreases k,
{
    if k == 0 {
        assert(ns.take(0) =~= Seq::<NodeModel>::empty());
        let st = seq![Seq::<NodeModel>::empty()];
        assert(st.drop_last() =~= Seq::<Seq<NodeModel>>::empty());
        assert(st.last() == Seq::<NodeModel>::empty());
        assert(stack_pairs(Seq::<Seq<NodeModel>>::empty()) =~= Seq::<(Token, Range<usize>)>::empty());
        assert(model_nodes_pairs(Seq::<NodeModel>::empty()) =~= Seq::<(Token, Range<usize>)>::empty());
        assert(stack_pairs(st) =~= Seq::<(Token, Range<usize>)>::empty());
        assert(hierarchy_run(ns.take(0)) == st);
        assert(kept_pairs(ns.take(0)) =~= Seq::<(Token, Range<usize>)>::empty());
    } else {
        lemma_keeps_prefix(ns, k - 1);
        lemma_keeps_step(ns, k - 1);
    }
}

/// Restructuring keeps every line: when every `Indent` is closed, the lines
/// come as shallow nodes, and no `Indent` directly follows a `Dedent` (so no
/// line gets two nested blocks), the pairs of the restructured tree are the
/// pairs of the lines, in order, without the `Indent` and `Dedent` markers.
pub proof fn lemma_hierarchy_keeps_lines(ns: Seq<NodeModel>)
    requires
        dedents_matched(ns),
        indent_depth(ns) == 0,
        forall|j: int| 0 <= j < ns.len() ==> (#[trigger] ns[j]).children is None,
        forall|j: int|
            0 < j < ns.len() && is_indent_node(#[trigger] ns[j]) ==> !is_dedent_node(ns[j - 1]),
    ensures
        model_nodes_pairs(hierarchy_result(ns)) == kept_pairs(ns),
{
    lemma_keeps_prefix(ns, ns.len() as int);
    assert(ns.take(ns.len() as int) =~= ns);
    lemma_hierarchy_run_len(ns);
    let st = hierarchy_run(ns);
    assert(st.len() == 1);
    assert(st.drop_last() =~= Seq::<Seq<NodeModel>>::empty());
    assert(stack_pairs(Seq::<Seq<NodeModel>>::empty()) =~= Seq::<(Token, Range<usize>)>::empty());
    assert(stack_pairs(st) =~= model_nodes_pairs(st.last()));
}

/// The pairs of a stream model, one node after the other.
pub open spec fn model_stream_pairs(m: StreamModel) -> Seq<(Token, Range<usize>)> {
    match m {
        StreamModel::Flat(t) => t,
        StreamModel::Tree(ns) => model_nodes_pairs(ns),
    }
}

/// Unrolling a stream gives the pairs of its model.
pub proof fn lemma_stream_tokens_model(s: TokenStream)
    ensures
        stream_tokens(s) == model_stream_pairs(stream_model(s)),
    decreases s, 2nat,
{
    match s {
        TokenStream::Flat(_) => {},
        TokenStream::Tree(nodes) => {
            assert(decreases_to!(nodes => nodes@));
            lemma_nodes_tokens_model(nodes@);
        },
    }
}

/// Unrolling a node gives the pairs of its model.
pub proof fn lemma_node_tokens_model(n: TokenStreamNode)
    ensures
        node_tokens(n) == model_node_pairs(node_model(n)),
    decreases n, 1nat,
{
    match n.children {
        Some(c) => {
            assert(decreases_to!(n => n.children));
            lemma_stream_tokens_model(*c);
            match *c {
                TokenStream::Flat(_) => {},
                TokenStream::Tree(_) => {},
            }
        },
        None => {},
    }
}

/// Unrolling nodes gives the pairs of their models.
pub proof fn lemma_nodes_tokens_model(ns: Seq<TokenStreamNode>)
    ensures
        nodes_tokens(ns) == model_nodes_pairs(nodes_model(ns)),
    decreases ns, 0nat,
{
    if ns.len() > 0 {
        assert(decreases_to!(ns => ns[ns.len() - 1]));
        assert(decreases_to!(ns => ns.subrange(0, ns.len() - 1)));
        assert(ns.subrange(0, ns.len() - 1) =~= ns.drop_last());
        lemma_nodes_tokens_model(ns.drop_last());
        lemma_node_tokens_model(ns.last());
        assert(nodes_model(ns).drop_last() =~= nodes_model(ns.drop_last()));
    }
}

/// Restructuring keeps every line, read off the streams: under the
/// conditions of `lemma_hierarchy_keeps_lines`, unrolling the restructured
/// tree gives the pairs of the input's lines, in order, without the `Indent`
/// and `Dedent` nodes.
pub proof fn lemma_transform_keeps_lines(input: TokenStream, output: TokenStream)
    requires
        input is Tree,
        dedents_matched(nodes_model(input->Tree_0@)),
        indent_depth(nodes_model(input->Tree_0@)) == 0,
        forall|j: int| 0 <= j < input->Tree_0@.len() ==> (#[trigger] input->Tree_0@[j]).children is None,
        forall|j: int|
            0 < j < input->Tree_0@.len() && is_indent_node(node_model(#[trigger] input->Tree_0@[j]))
                ==> !is_dedent_node(node_model(input->Tree_0@[j - 1])),
        output is Tree,
        nodes_model(output->Tree_0@) == hierarchy_result(nodes_model(input->Tree_0@)),
    ensures
        stream_tokens(output) == kept_pairs(nodes_model(input->Tree_0@)),
{
    let ns = input->Tree_0@;
    lemma_nodes_model_index(ns);
    let ms = nodes_model(ns);
    assert forall|j: int| 0 <= j < ms.len() implies (#[trigger] ms[j]).children is None by {
        assert(ms[j] == node_model(ns[j]));
    }
    assert forall|j: int| 0 < j < ms.len() && is_indent_node(#[trigger] ms[j]) implies !is_dedent_node(ms[j - 1]) by {
        assert(ms[j] == node_model(ns[j]));
        assert(ms[j - 1] == node_model(ns[j - 1]));
    }
    lemma_hierarchy_keeps_lines(ms);
    lemma_stream_tokens_model(output);
}

} // verus!
