//! Construction of the AST from the parse tree: each node becomes the
//! content element of its kind, built from its tokens and its children.

use crate::ast::{Annotation, ContentItem, Document, Label, ListItem, Parameter, Session, TextContent};
use crate::linebased_builders::{find_space, header_label, header_params, param_view, parse_params, trim, trim_spec};
use crate::ast_builder::{
    verbatim_content_location,
    build_annotation_from_tokens,
    build_definition_from_tokens,
    build_foreign_block_from_tokens,
    build_list,
    build_list_item_from_tokens,
    build_paragraph_from_tokens,
    build_session_from_tokens,
    item_locations,
    paragraph_lines_match,
    spec_aggregate,
};
use crate::data_extraction::{
    box_bytes,
    box_in_text,
    ends_of,
    flatten_lines,
    flatten_stripped,
    joined_content_bytes,
    lines_in_text,
    spec_bounding_box,
    starts_of,
    strip_wall,
    stripped_lines,
    vec_seqs,
};
use crate::ir::{lemma_pnodes_model_index, pnode_model, pnodes_model, NodeType, ParseNode, ParseNodeModel};
use crate::location::{
    compute_location_from_locations,
    max_or_zero,
    min_or_zero,
    spec_bounding_location,
    spec_range_of,
};
use crate::text::{is_text_span, utf8};
use crate::tokens::Token;
use std::ops::Range as ByteRange;
use vstd::prelude::*;

verus! {

// ---------------------------------------------------------------------------
// Tokens within the source
// ---------------------------------------------------------------------------

/// The token's range lies in the source, on character boundaries.
pub open spec fn pair_ok(source: Seq<char>, p: (Token, ByteRange<usize>)) -> bool {
    p.1.start <= p.1.end && is_text_span(source, p.1.start as int, p.1.end as int)
}

/// Every token's range lies in the source, on character boundaries.
pub open spec fn pairs_ok(source: Seq<char>, s: Seq<(Token, ByteRange<usize>)>) -> bool {
    forall|i: int| 0 <= i < s.len() ==> pair_ok(source, #[trigger] s[i])
}

/// The smallest value is one of the values and no larger than any.
proof fn lemma_min_index(s: Seq<usize>) -> (k: int)
    requires
        s.len() > 0,
    ensures
        0 <= k < s.len(),
        min_or_zero(s) == s[k],
        forall|i: int| 0 <= i < s.len() ==> min_or_zero(s) <= s[i],
    decreases s.len(),
{
    if s.len() == 1 {
        0
    } else {
        let k0 = lemma_min_index(s.drop_last());
        assert forall|i: int| 0 <= i < s.len() - 1 implies #[trigger] s[i] == s.drop_last()[i] by {}
        if s.last() < min_or_zero(s.drop_last()) {
            s.len() - 1
        } else {
            k0
        }
    }
}

/// The largest value is one of the values and no smaller than any.
proof fn lemma_max_index(s: Seq<usize>) -> (k: int)
    requires
        s.len() > 0,
    ensures
        0 <= k < s.len(),
        max_or_zero(s) == s[k],
        forall|i: int| 0 <= i < s.len() ==> max_or_zero(s) >= s[i],
    decreases s.len(),
{
    if s.len() == 1 {
        0
    } else {
        let k0 = lemma_max_index(s.drop_last());
        assert forall|i: int| 0 <= i < s.len() - 1 implies #[trigger] s[i] == s.drop_last()[i] by {}
        if s.last() > max_or_zero(s.drop_last()) {
            s.len() - 1
        } else {
            k0
        }
    }
}

/// Tokens that lie in the source have their bounding box in the source.
pub proof fn lemma_pairs_ok_box(source: Seq<char>, s: Seq<(Token, ByteRange<usize>)>)
    requires
        pairs_ok(source, s),
    ensures
        box_in_text(source, s),
{
    vstd::utf8::encode_utf8_valid_utf8(source);
    vstd::utf8::is_char_boundary_start_end_of_seq(utf8(source));
    if s.len() > 0 {
        let st = starts_of(s);
        let en = ends_of(s);
        let k = lemma_min_index(st);
        let m = lemma_max_index(en);
        assert(pair_ok(source, s[k]));
        assert(pair_ok(source, s[m]));
        assert(st[m] == s[m].1.start);
        assert(en[m] == s[m].1.end);
    }
}

/// A part of well-placed tokens is well placed.
pub proof fn lemma_pairs_ok_skip(source: Seq<char>, s: Seq<(Token, ByteRange<usize>)>, k: int)
    requires
        pairs_ok(source, s),
        0 <= k <= s.len(),
    ensures
        pairs_ok(source, s.skip(k)),
{
    assert forall|i: int| 0 <= i < s.skip(k).len() implies pair_ok(source, #[trigger] s.skip(k)[i]) by {
        assert(s.skip(k)[i] == s[i + k]);
    }
}

// ---------------------------------------------------------------------------
// Lines of a token run
// ---------------------------------------------------------------------------

/// The finished lines and the current line after the given tokens: a
/// newline token, or a blank-line token (which stands for newlines), ends the
/// current line.
pub open spec fn group_state(s: Seq<(Token, ByteRange<usize>)>) -> (
    Seq<Seq<(Token, ByteRange<usize>)>>,
    Seq<(Token, ByteRange<usize>)>,
)
    decreases s.len(),
{
    if s.len() == 0 {
        (Seq::empty(), Seq::empty())
    } else {
        let (ls, cur) = group_state(s.drop_last());
        if s.last().0 is BlankLine || s.last().0 is Newline {
            (ls.push(cur), Seq::empty())
        } else {
            (ls, cur.push(s.last()))
        }
    }
}

/// The lines of a token run, split at newline and blank-line tokens (which
/// are left out); a last line without tokens is dropped.
pub open spec fn group_lines(s: Seq<(Token, ByteRange<usize>)>) -> Seq<Seq<(Token, ByteRange<usize>)>> {
    let (ls, cur) = group_state(s);
    if cur.len() > 0 {
        ls.push(cur)
    } else {
        ls
    }
}

/// The lines of well-placed tokens are well placed.
pub proof fn lemma_group_lines_ok(source: Seq<char>, s: Seq<(Token, ByteRange<usize>)>)
    requires
        pairs_ok(source, s),
    ensures
        forall|i: int| 0 <= i < group_lines(s).len() ==> pairs_ok(source, #[trigger] group_lines(s)[i]),
{
    lemma_group_state_ok(source, s);
}

proof fn lemma_group_state_ok(source: Seq<char>, s: Seq<(Token, ByteRange<usize>)>)
    requires
        pairs_ok(source, s),
    ensures
        forall|i: int| 0 <= i < group_state(s).0.len() ==> pairs_ok(source, #[trigger] group_state(s).0[i]),
        pairs_ok(source, group_state(s).1),
    decreases s.len(),
{
    if s.len() > 0 {
        let p = s.drop_last();
        assert forall|i: int| 0 <= i < p.len() implies pair_ok(source, #[trigger] p[i]) by {
            assert(p[i] == s[i]);
        }
        lemma_group_state_ok(source, p);
        assert(pair_ok(source, s[s.len() - 1]));
    }
}

/// Split a token run into lines at its newline and blank-line tokens.
fn group_tokens_by_line(tokens: Vec<(Token, ByteRange<usize>)>) -> (r: Vec<Vec<(Token, ByteRange<usize>)>>)
    ensures
        vec_seqs(r@) == group_lines(tokens@),
{
    let ghost t0 = tokens@;
    let tl = tokens.len();
    let mut lines: Vec<Vec<(Token, ByteRange<usize>)>> = Vec::new();
    let mut current: Vec<(Token, ByteRange<usize>)> = Vec::new();
    let mut i: usize = 0;
    proof {
        assert(t0.take(0) =~= Seq::<(Token, ByteRange<usize>)>::empty());
        assert(vec_seqs(lines@) =~= Seq::<Seq<(Token, ByteRange<usize>)>>::empty());
    }
    for p in it: tokens.into_iter()
        invariant
            tl == t0.len(),
            i == it.index(),
            it.seq() == t0,
            i <= t0.len(),
            vec_seqs(lines@) == group_state(t0.take(i as int)).0,
            current@ == group_state(t0.take(i as int)).1,
    {
        proof {
            assert(t0.take(i + 1).drop_last() =~= t0.take(i as int));
            assert(t0.take(i + 1).last() == p);
        }
        if matches!(p.0, Token::BlankLine(_) | Token::Newline) {
            let done = current;
            let ghost before = lines@;
            lines.push(done);
            current = Vec::new();
            proof {
                assert(vec_seqs(lines@) =~= vec_seqs(before).push(done@));
            }
        } else {
            current.push(p);
        }
        i = i + 1;
    }
    proof {
        assert(t0.take(i as int) =~= t0);
    }
    if current.len() > 0 {
        let ghost before = lines@;
        lines.push(current);
        proof {
            assert(vec_seqs(lines@) =~= vec_seqs(before).push(current@));
        }
    }
    lines
}

/// The pairs of the lines, as vectors or as sequences, are the same.
proof fn lemma_flatten_vec_seqs(ls: Seq<Vec<(Token, ByteRange<usize>)>>)
    ensures
        flatten_lines(ls) == flatten_stripped(vec_seqs(ls)),
    decreases ls.len(),
{
    if ls.len() > 0 {
        lemma_flatten_vec_seqs(ls.drop_last());
        assert(vec_seqs(ls).drop_last() =~= vec_seqs(ls.drop_last()));
    }
}


// ---------------------------------------------------------------------------
// Well-formed parse trees
// ---------------------------------------------------------------------------

/// A content node the AST can be built from: its tokens lie in the source,
/// and it is a paragraph; a session, definition or annotation over content
/// nodes; a list of list items over content nodes; or a verbatim block with
/// a subject, a content and a closing node over content nodes.
pub open spec fn node_ok(p: ParseNodeModel, source: Seq<char>) -> bool
    decreases p, 2nat,
{
    proof {
        assert(decreases_to!(p => p.children));
    }
    &&& pairs_ok(source, p.tokens)
    &&& match p.node_type {
        NodeType::Paragraph => true,
        NodeType::Session => nodes_ok(p.children, source),
        NodeType::Definition => nodes_ok(p.children, source),
        NodeType::Annotation => nodes_ok(p.children, source),
        NodeType::List => items_ok(p.children, source),
        NodeType::VerbatimBlock => {
            &&& p.children.len() == 3
            &&& p.children[0].node_type == NodeType::ForeignBlockSubject
            &&& pairs_ok(source, p.children[0].tokens)
            &&& p.children[1].node_type == NodeType::ForeignBlockContent
            &&& pairs_ok(source, p.children[1].tokens)
            &&& p.children[2].node_type == NodeType::ForeignBlockClosing
            &&& pairs_ok(source, p.children[2].tokens)
            &&& {
                proof {
                    assert(decreases_to!(p.children => p.children[2]));
                }
                nodes_ok(p.children[2].children, source)
            }
        },
        _ => false,
    }
}

/// Every node is a content node the AST can be built from.
pub open spec fn nodes_ok(ps: Seq<ParseNodeModel>, source: Seq<char>) -> bool
    decreases ps, 1nat,
{
    ps.len() == 0 || (nodes_ok(ps.drop_last(), source) && node_ok(ps.last(), source))
}

/// Every node is a list item whose tokens lie in the source, over content
/// nodes.
pub open spec fn items_ok(ps: Seq<ParseNodeModel>, source: Seq<char>) -> bool
    decreases ps, 1nat,
{
    ps.len() == 0 || {
        &&& items_ok(ps.drop_last(), source)
        &&& ps.last().node_type == NodeType::ListItem
        &&& pairs_ok(source, ps.last().tokens)
        &&& nodes_ok(ps.last().children, source)
    }
}

// ---------------------------------------------------------------------------
// What the AST holds
// ---------------------------------------------------------------------------

/// The header text of an annotation node: the source text of its tokens,
/// trimmed.
pub open spec fn header_text(source: Seq<char>, tokens: Seq<(Token, ByteRange<usize>)>) -> Seq<char> {
    trim_spec(vstd::utf8::decode_utf8(box_bytes(source, tokens)))
}

/// The annotation is built from the node: in the trimmed text of the node's
/// tokens, the text up to the first white space is the label and the rest
/// holds the parameters (see `header_params`), each located at the label;
/// its content is built from the node's children, and its location spans
/// the label and the content.
pub open spec fn annotation_built(a: Annotation, p: ParseNodeModel, source: Seq<char>) -> bool
    decreases p, 1nat,
{
    &&& a.label.value@ == header_label(header_text(source, p.tokens))
    &&& a.label.location == spec_range_of(utf8(source), spec_bounding_box(p.tokens))
    &&& a.parameters@.map_values(|q: Parameter| param_view(q)) == header_params(header_text(source, p.tokens))
    &&& forall|k: int| 0 <= k < a.parameters@.len() ==> (#[trigger] a.parameters@[k]).location == a.label.location
    &&& {
        proof {
            assert(decreases_to!(p => p.children));
        }
        all_built(a.children@, p.children, source)
    }
    &&& a.location == spec_aggregate(
        spec_range_of(utf8(source), spec_bounding_box(p.tokens)),
        a.children@,
    )
}

/// The list item is built from the node as an annotation is, with its text
/// in place of a label.
pub open spec fn item_built(li: ListItem, p: ParseNodeModel, source: Seq<char>) -> bool
    decreases p, 1nat,
{
    &&& utf8(li.text.text@) == box_bytes(source, p.tokens)
    &&& {
        proof {
            assert(decreases_to!(p => p.children));
        }
        all_built(li.children@, p.children, source)
    }
    &&& li.location == spec_aggregate(
        spec_range_of(utf8(source), spec_bounding_box(p.tokens)),
        li.children@,
    )
}

/// The content element is built from the node.
pub open spec fn built(c: ContentItem, p: ParseNodeModel, source: Seq<char>) -> bool
    decreases p, 2nat,
{
    proof {
        assert(decreases_to!(p => p.children));
    }
    match p.node_type {
        NodeType::Paragraph => {
            &&& c is Paragraph
            &&& paragraph_lines_match(c->Paragraph_0.lines@, source, group_lines(p.tokens))
            &&& c->Paragraph_0.location == spec_range_of(
                utf8(source),
                spec_bounding_box(flatten_stripped(group_lines(p.tokens))),
            )
        },
        NodeType::Session => {
            &&& c is Session
            &&& utf8(c->Session_0.title.text@) == box_bytes(source, p.tokens)
            &&& all_built(c->Session_0.children@, p.children, source)
            &&& c->Session_0.location == spec_aggregate(
                spec_range_of(utf8(source), spec_bounding_box(p.tokens)),
                c->Session_0.children@,
            )
        },
        NodeType::Definition => {
            &&& c is Definition
            &&& utf8(c->Definition_0.subject.text@) == box_bytes(source, p.tokens)
            &&& all_built(c->Definition_0.children@, p.children, source)
            &&& c->Definition_0.location == spec_aggregate(
                spec_range_of(utf8(source), spec_bounding_box(p.tokens)),
                c->Definition_0.children@,
            )
        },
        NodeType::Annotation => c is Annotation && annotation_built(c->Annotation_0, p, source),
        NodeType::List => {
            &&& c is List
            &&& items_built(c->List_0.items@, p.children, source)
            &&& c->List_0.location == spec_bounding_location(item_locations(c->List_0.items@))
        },
        NodeType::VerbatimBlock => {
            &&& c is VerbatimBlock
            &&& p.children.len() == 3
            &&& utf8(c->VerbatimBlock_0.subject.text@) == box_bytes(source, p.children[0].tokens)
            &&& {
                proof {
                    assert(decreases_to!(p.children => p.children[2]));
                }
                annotation_built(c->VerbatimBlock_0.closing_annotation, p.children[2], source)
            }
            &&& {
                let content = joined_content_bytes(
                    source,
                    stripped_lines(group_lines(p.children[1].tokens)),
                );
                &&& c->VerbatimBlock_0.children@.len() <= 1
                &&& c->VerbatimBlock_0.children@.len() == 0 <==> content.len() == 0
                &&& c->VerbatimBlock_0.children@.len() == 1 ==> utf8(
                    c->VerbatimBlock_0.children@[0].content.text@,
                ) == content
            }
            &&& {
                let content_location = verbatim_content_location(
                    source,
                    group_lines(p.children[1].tokens),
                );
                &&& c->VerbatimBlock_0.children@.len() == 1 ==> c->VerbatimBlock_0.children@[0].location
                    == content_location
                &&& c->VerbatimBlock_0.location == spec_bounding_location(
                    seq![
                        spec_range_of(utf8(source), spec_bounding_box(p.children[0].tokens)),
                        content_location,
                    ],
                )
            }
        },
        _ => false,
    }
}

/// Each element is built from the node at its position.
pub open spec fn all_built(cs: Seq<ContentItem>, ps: Seq<ParseNodeModel>, source: Seq<char>) -> bool
    decreases ps, 1nat,
{
    &&& cs.len() == ps.len()
    &&& ps.len() > 0 ==> all_built(cs.drop_last(), ps.drop_last(), source) && built(
        cs.last(),
        ps.last(),
        source,
    )
}

/// Each element is a list item built from the node at its position.
pub open spec fn items_built(cs: Seq<ContentItem>, ps: Seq<ParseNodeModel>, source: Seq<char>) -> bool
    decreases ps, 1nat,
{
    &&& cs.len() == ps.len()
    &&& ps.len() > 0 ==> {
        &&& items_built(cs.drop_last(), ps.drop_last(), source)
        &&& cs.last() is ListItem
        &&& item_built(cs.last()->ListItem_0, ps.last(), source)
    }
}


/// Each list item is built from the node at its position.
pub open spec fn raw_items_built(items: Seq<ListItem>, ps: Seq<ParseNodeModel>, source: Seq<char>) -> bool {
    &&& items.len() == ps.len()
    &&& forall|i: int| 0 <= i < ps.len() ==> item_built(#[trigger] items[i], ps[i], source)
}

/// Wrapping built list items as content elements keeps them built.
proof fn lemma_items_built_wrap(
    cs: Seq<ContentItem>,
    items: Seq<ListItem>,
    ps: Seq<ParseNodeModel>,
    source: Seq<char>,
)
    requires
        raw_items_built(items, ps, source),
        cs.len() == items.len(),
        forall|i: int| 0 <= i < items.len() ==> #[trigger] cs[i] == ContentItem::ListItem(items[i]),
    ensures
        items_built(cs, ps, source),
    decreases ps.len(),
{
    if ps.len() > 0 {
        let n = ps.len() - 1;
        assert forall|i: int| 0 <= i < n implies item_built(
            #[trigger] items.drop_last()[i],
            ps.drop_last()[i],
            source,
        ) by {
            assert(item_built(items[i], ps[i], source));
        }
        assert forall|i: int| 0 <= i < n implies #[trigger] cs.drop_last()[i] == ContentItem::ListItem(
            items.drop_last()[i],
        ) by {
            assert(cs[i] == ContentItem::ListItem(items[i]));
        }
        lemma_items_built_wrap(cs.drop_last(), items.drop_last(), ps.drop_last(), source);
        assert(cs[n] == ContentItem::ListItem(items[n]));
        assert(item_built(items[n], ps[n], source));
    }
}

/// A node of a well-formed list is a well-formed content node.
pub proof fn lemma_nodes_ok_index(ps: Seq<ParseNodeModel>, source: Seq<char>, i: int)
    requires
        nodes_ok(ps, source),
        0 <= i < ps.len(),
    ensures
        node_ok(ps[i], source),
    decreases ps.len(),
{
    if i < ps.len() - 1 {
        lemma_nodes_ok_index(ps.drop_last(), source, i);
        assert(ps.drop_last()[i] == ps[i]);
    }
}

/// A node of a well-formed item list is a well-formed list item.
pub proof fn lemma_items_ok_index(ps: Seq<ParseNodeModel>, source: Seq<char>, i: int)
    requires
        items_ok(ps, source),
        0 <= i < ps.len(),
    ensures
        ps[i].node_type == NodeType::ListItem,
        pairs_ok(source, ps[i].tokens),
        nodes_ok(ps[i].children, source),
    decreases ps.len(),
{
    if i < ps.len() - 1 {
        lemma_items_ok_index(ps.drop_last(), source, i);
        assert(ps.drop_last()[i] == ps[i]);
    }
}

/// Builds the AST of a parse tree against the source text.
pub struct AstBuilder<'a> {
    source: &'a str,
}

impl<'a> AstBuilder<'a> {
    /// The source text the builder reads from.
    pub closed spec fn text(&self) -> Seq<char> {
        self.source@
    }

    /// A builder over the given source.
    pub fn new(source: &'a str) -> (r: AstBuilder<'a>)
        ensures
            r.text() == source@,
    {
        AstBuilder { source }
    }

    /// Build the document of a root node: its content is built from the
    /// root's children and its location spans their locations.
    pub fn build(&self, root_node: ParseNode) -> (r: Document)
        requires
            root_node.node_type == NodeType::Document,
            nodes_ok(pnodes_model(root_node.children@), self.text()),
        ensures
            r.metadata@.len() == 0,
            r.root.title.text@ == Seq::<char>::empty(),
            all_built(r.root.children@, pnodes_model(root_node.children@), self.text()),
            r.root.location == spec_bounding_location(item_locations(r.root.children@)),
    {
        let content = self.build_content_items(root_node.children);
        let mut locations: Vec<crate::ast::Range> = Vec::new();
        let mut i: usize = 0;
        while i < content.len()
            invariant
                i <= content@.len(),
                locations@ == item_locations(content@.take(i as int)),
            decreases content@.len() - i,
        {
            let l = content[i].range().clone();
            proof {
                assert(item_locations(content@.take(i + 1)) =~= item_locations(
                    content@.take(i as int),
                ).push(l));
            }
            locations.push(l);
            i = i + 1;
        }
        proof {
            assert(content@.take(content@.len() as int) =~= content@);
        }
        let root_location = compute_location_from_locations(locations.as_slice());
        let title = String::new();
        Document {
            metadata: Vec::new(),
            root: Session { title: TextContent { text: title }, children: content, location: root_location },
        }
    }

    /// Build the content elements of a list of nodes, one per node.
    pub fn build_content_items(&self, nodes: Vec<ParseNode>) -> (r: Vec<ContentItem>)
        requires
            nodes_ok(pnodes_model(nodes@), self.text()),
        ensures
            all_built(r@, pnodes_model(nodes@), self.text()),
        decreases nodes@, 0nat,
    {
        let ghost n0 = nodes@;
        let nl = nodes.len();
        let mut out: Vec<ContentItem> = Vec::new();
        let mut i: usize = 0;
        proof {
            lemma_pnodes_model_index(n0);
            assert(n0.take(0) =~= Seq::<ParseNode>::empty());
            assert(pnodes_model(n0.take(0)) =~= Seq::<ParseNodeModel>::empty());
        }
        for node in it: nodes.into_iter()
            invariant
                nl == n0.len(),
                i == it.index(),
                it.seq() == n0,
                i <= n0.len(),
                nodes_ok(pnodes_model(n0), self.text()),
                pnodes_model(n0).len() == n0.len(),
                forall|k: int| 0 <= k < n0.len() ==> #[trigger] pnodes_model(n0)[k] == pnode_model(n0[k]),
                all_built(out@, pnodes_model(n0.take(i as int)), self.text()),
        {
            proof {
                assert(n0[i as int] == node);
                lemma_nodes_ok_index(pnodes_model(n0), self.text(), i as int);
                assert(decreases_to!(n0 => n0[i as int]));
                assert(n0.take(i + 1) =~= n0.take(i as int).push(node));
                crate::ir::lemma_pnodes_model_push(n0.take(i as int), node);
            }
            let ghost before = out@;
            let ghost pm = pnode_model(node);
            let c = self.build_content_item(node);
            out.push(c);
            proof {
                let ps = pnodes_model(n0.take(i + 1));
                assert(ps.drop_last() =~= pnodes_model(n0.take(i as int)));
                assert(ps.last() == pm);
                assert(out@.drop_last() =~= before);
                assert(out@.last() == c);
            }
            i = i + 1;
        }
        proof {
            assert(n0.take(i as int) =~= n0);
        }
        out
    }

    /// Build the content element of one node.
    fn build_content_item(&self, node: ParseNode) -> (r: ContentItem)
        requires
            node_ok(pnode_model(node), self.text()),
        ensures
            built(r, pnode_model(node), self.text()),
        decreases node, 1nat,
    {
        let ghost pm = pnode_model(node);
        let ghost src = self.text();
        proof {
            assert(decreases_to!(node => node.children));
            assert(decreases_to!(node.children => node.children@));
        }
        match node.node_type {
            NodeType::Paragraph => {
                let ghost toks = node.tokens@;
                let lines = group_tokens_by_line(node.tokens);
                proof {
                    lemma_group_lines_ok(src, toks);
                    assert forall|i: int| 0 <= i < lines@.len() implies box_in_text(
                        src,
                        #[trigger] lines@[i]@,
                    ) by {
                        assert(vec_seqs(lines@)[i] == lines@[i]@);
                        lemma_pairs_ok_box(src, lines@[i]@);
                    }
                    assert(lines_in_text(src, lines@));
                    lemma_flatten_vec_seqs(lines@);
                }
                build_paragraph_from_tokens(lines, self.source)
            },
            NodeType::Session => {
                let ParseNode { node_type, tokens, children } = node;
                let content = self.build_content_items(children);
                proof {
                    lemma_pairs_ok_box(src, tokens@);
                }
                build_session_from_tokens(tokens, content, self.source)
            },
            NodeType::Definition => {
                let ParseNode { node_type, tokens, children } = node;
                let content = self.build_content_items(children);
                proof {
                    lemma_pairs_ok_box(src, tokens@);
                }
                build_definition_from_tokens(tokens, content, self.source)
            },
            NodeType::Annotation => ContentItem::Annotation(self.build_annotation_node(node)),
            NodeType::List => {
                let ParseNode { node_type, tokens, children } = node;
                let ghost c0 = children@;
                let cl = children.len();
                let mut items: Vec<ListItem> = Vec::new();
                let mut i: usize = 0;
                proof {
                    lemma_pnodes_model_index(c0);
                }
                for child in it: children.into_iter()
                    invariant
                        cl == c0.len(),
                        i == it.index(),
                        it.seq() == c0,
                        i <= c0.len(),
                        src == self.text(),
                        c0 == node.children@,
                        items_ok(pnodes_model(c0), src),
                        pnodes_model(c0).len() == c0.len(),
                        forall|k: int| 0 <= k < c0.len() ==> #[trigger] pnodes_model(c0)[k] == pnode_model(c0[k]),
                        items@.len() == i,
                        forall|k: int| 0 <= k < i ==> item_built(#[trigger] items@[k], pnode_model(c0[k]), src),
                {
                    proof {
                        assert(c0[i as int] == child);
                        lemma_items_ok_index(pnodes_model(c0), src, i as int);
                        assert(decreases_to!(node => node.children));
                        assert(decreases_to!(node.children => node.children@));
                        assert(decreases_to!(c0 => c0[i as int]));
                    }
                    let li = self.build_list_item(child);
                    items.push(li);
                    i = i + 1;
                }
                let ghost its = items@;
                let r = build_list(items);
                proof {
                    assert(raw_items_built(its, pnodes_model(c0), src));
                    lemma_items_built_wrap(r->List_0.items@, its, pnodes_model(c0), src);
                    assert(item_locations(r->List_0.items@) =~= its.map_values(|li: ListItem| li.location));
                }
                r
            },
            NodeType::VerbatimBlock => {
                let ParseNode { node_type, tokens, children } = node;
                let ghost c0 = children@;
                proof {
                    lemma_pnodes_model_index(c0);
                }
                let mut children = children;
                let closing = children.pop().unwrap();
                let content = children.pop().unwrap();
                let subject = children.pop().unwrap();
                proof {
                    assert(closing == c0[2]);
                    assert(content == c0[1]);
                    assert(subject == c0[0]);
                    assert(decreases_to!(c0 => c0[2]));
                }
                let annotation = self.build_annotation_node(closing);
                let ghost ct = content.tokens@;
                let lines = group_tokens_by_line(content.tokens);
                proof {
                    lemma_group_lines_ok(src, ct);
                    let ls = vec_seqs(lines@);
                    assert forall|i: int|
                        0 <= i < ls.len() && (#[trigger] stripped_lines(ls)[i]).len() > 0 implies box_in_text(
                        src,
                        stripped_lines(ls)[i],
                    ) by {
                        let w = crate::data_extraction::spec_indentation_wall(ls);
                        let k = if crate::data_extraction::leading_indents(ls[i]) < w {
                            crate::data_extraction::leading_indents(ls[i])
                        } else {
                            w
                        };
                        crate::data_extraction::lemma_leading_indents_bound(ls[i]);
                        lemma_pairs_ok_skip(src, ls[i], k as int);
                        assert(stripped_lines(ls)[i] == strip_wall(ls[i], w));
                        lemma_pairs_ok_box(src, stripped_lines(ls)[i]);
                    }
                    lemma_pairs_ok_box(src, subject.tokens@);
                }
                build_foreign_block_from_tokens(subject.tokens, lines, annotation, self.source)
            },
            _ => {
                proof {
                    assert(false);
                }
                vstd::pervasive::unreached()
            },
        }
    }

    /// Build an annotation from a node: its tokens give the label, its
    /// children the content.
    fn build_annotation_node(&self, node: ParseNode) -> (r: Annotation)
        requires
            pairs_ok(self.text(), node.tokens@),
            nodes_ok(pnodes_model(node.children@), self.text()),
        ensures
            annotation_built(r, pnode_model(node), self.text()),
        decreases node, 0nat,
    {
        let ParseNode { node_type, tokens, children } = node;
        proof {
            assert(decreases_to!(node => node.children));
            assert(decreases_to!(node.children => node.children@));
            lemma_pairs_ok_box(self.text(), tokens@);
        }
        let content = self.build_content_items(children);
        let c = build_annotation_from_tokens(tokens, Vec::new(), content, self.source);
        match c {
            ContentItem::Annotation(a) => {
                let Annotation { label, parameters: _, children, location } = a;
                proof {
                    vstd::utf8::encode_utf8_decode_utf8(label.value@);
                }
                let h = trim(label.value.as_str());
                let w = find_space(h, 0);
                let value = h.substring_char(0, w).to_owned();
                let parameters = parse_params(h, w, &label.location);
                Annotation {
                    label: Label { value, location: label.location },
                    parameters,
                    children,
                    location,
                }
            },
            _ => vstd::pervasive::unreached(),
        }
    }

    /// Build a list item from a node: its tokens give the text, its children
    /// the content.
    fn build_list_item(&self, node: ParseNode) -> (r: ListItem)
        requires
            pairs_ok(self.text(), node.tokens@),
            nodes_ok(pnodes_model(node.children@), self.text()),
        ensures
            item_built(r, pnode_model(node), self.text()),
        decreases node, 0nat,
    {
        let ParseNode { node_type, tokens, children } = node;
        proof {
            assert(decreases_to!(node => node.children));
            assert(decreases_to!(node.children => node.children@));
            lemma_pairs_ok_box(self.text(), tokens@);
        }
        let content = self.build_content_items(children);
        build_list_item_from_tokens(tokens, content, self.source)
    }
}

// ---------------------------------------------------------------------------
// Checking a parse tree
// ---------------------------------------------------------------------------

/// Whether the token's range lies in the source, on character boundaries.
pub fn check_pair(source: &str, p: &(Token, ByteRange<usize>)) -> (r: bool)
    ensures
        r == pair_ok(source@, *p),
{
    let n = source.as_bytes().len();
    p.1.start <= p.1.end && p.1.end <= n && source.is_char_boundary(p.1.start)
        && source.is_char_boundary(p.1.end)
}

/// Whether every token's range lies in the source, on character boundaries.
pub fn check_pairs(source: &str, v: &Vec<(Token, ByteRange<usize>)>) -> (r: bool)
    ensures
        r == pairs_ok(source@, v@),
{
    let mut i: usize = 0;
    while i < v.len()
        invariant
            i <= v@.len(),
            forall|j: int| 0 <= j < i ==> pair_ok(source@, #[trigger] v@[j]),
        decreases v@.len() - i,
    {
        if !check_pair(source, &v[i]) {
            return false;
        }
        i = i + 1;
    }
    true
}

proof fn lemma_nodes_ok_push(ms: Seq<ParseNodeModel>, m: ParseNodeModel, source: Seq<char>)
    ensures
        nodes_ok(ms.push(m), source) == (nodes_ok(ms, source) && node_ok(m, source)),
        items_ok(ms.push(m), source) == (items_ok(ms, source) && m.node_type == NodeType::ListItem
            && pairs_ok(source, m.tokens) && nodes_ok(m.children, source)),
{
    assert(ms.push(m).drop_last() =~= ms);
}

/// Whether the AST can be built from the node (see `node_ok`).
pub fn check_node(n: &ParseNode, source: &str) -> (r: bool)
    ensures
        r == node_ok(pnode_model(*n), source@),
    decreases *n, 1nat,
{
    proof {
        assert(decreases_to!(*n => n.children));
        lemma_pnodes_model_index(n.children@);
    }
    if !check_pairs(source, &n.tokens) {
        return false;
    }
    match n.node_type {
        NodeType::Paragraph => true,
        NodeType::Session | NodeType::Definition | NodeType::Annotation => check_nodes(&n.children, source),
        NodeType::List => check_items(&n.children, source),
        NodeType::VerbatimBlock => {
            if n.children.len() != 3 {
                return false;
            }
            let c0 = &n.children[0];
            let c1 = &n.children[1];
            let c2 = &n.children[2];
            proof {
                assert(decreases_to!(n.children => n.children@));
                assert(decreases_to!(n.children@ => n.children@[2]));
            }
            c0.node_type == NodeType::ForeignBlockSubject && check_pairs(source, &c0.tokens)
                && c1.node_type == NodeType::ForeignBlockContent && check_pairs(source, &c1.tokens)
                && c2.node_type == NodeType::ForeignBlockClosing && check_pairs(source, &c2.tokens)
                && check_nodes(&c2.children, source)
        },
        _ => false,
    }
}

/// Whether the AST can be built from every node (see `nodes_ok`).
pub fn check_nodes(ns: &Vec<ParseNode>, source: &str) -> (r: bool)
    ensures
        r == nodes_ok(pnodes_model(ns@), source@),
    decreases ns, 0nat,
{
    let mut i: usize = 0;
    proof {
        assert(ns@.take(0) =~= Seq::<ParseNode>::empty());
        assert(pnodes_model(Seq::<ParseNode>::empty()) =~= Seq::<ParseNodeModel>::empty());
    }
    while i < ns.len()
        invariant
            i <= ns@.len(),
            nodes_ok(pnodes_model(ns@.take(i as int)), source@),
        decreases ns@.len() - i,
    {
        proof {
            assert(decreases_to!(ns => ns@));
            assert(decreases_to!(ns@ => ns@[i as int]));
            assert(ns@.take(i + 1) =~= ns@.take(i as int).push(ns@[i as int]));
            crate::ir::lemma_pnodes_model_push(ns@.take(i as int), ns@[i as int]);
            lemma_nodes_ok_push(pnodes_model(ns@.take(i as int)), pnode_model(ns@[i as int]), source@);
        }
        if !check_node(&ns[i], source) {
            proof {
                lemma_pnodes_model_index(ns@);
                lemma_pnodes_model_take(ns@, i + 1);
                if nodes_ok(pnodes_model(ns@), source@) {
                    lemma_nodes_ok_prefix(pnodes_model(ns@), i + 1, source@);
                }
            }
            return false;
        }
        i = i + 1;
    }
    proof {
        assert(ns@.take(i as int) =~= ns@);
    }
    true
}

/// Whether every node is a list item the AST can be built from (see
/// `items_ok`).
pub fn check_items(ns: &Vec<ParseNode>, source: &str) -> (r: bool)
    ensures
        r == items_ok(pnodes_model(ns@), source@),
    decreases ns, 0nat,
{
    let mut i: usize = 0;
    proof {
        assert(ns@.take(0) =~= Seq::<ParseNode>::empty());
        assert(pnodes_model(Seq::<ParseNode>::empty()) =~= Seq::<ParseNodeModel>::empty());
    }
    while i < ns.len()
        invariant
            i <= ns@.len(),
            items_ok(pnodes_model(ns@.take(i as int)), source@),
        decreases ns@.len() - i,
    {
        proof {
            assert(decreases_to!(ns => ns@));
            assert(decreases_to!(ns@ => ns@[i as int]));
            assert(decreases_to!(ns@[i as int] => ns@[i as int].children));
            assert(ns@.take(i + 1) =~= ns@.take(i as int).push(ns@[i as int]));
            crate::ir::lemma_pnodes_model_push(ns@.take(i as int), ns@[i as int]);
            lemma_nodes_ok_push(pnodes_model(ns@.take(i as int)), pnode_model(ns@[i as int]), source@);
        }
        let item = &ns[i];
        let ok = item.node_type == NodeType::ListItem && check_pairs(source, &item.tokens)
            && check_nodes(&item.children, source);
        if !ok {
            proof {
                lemma_pnodes_model_index(ns@);
                lemma_pnodes_model_take(ns@, i + 1);
                if items_ok(pnodes_model(ns@), source@) {
                    lemma_items_ok_prefix(pnodes_model(ns@), i + 1, source@);
                }
            }
            return false;
        }
        i = i + 1;
    }
    proof {
        assert(ns@.take(i as int) =~= ns@);
    }
    true
}

/// The models of a prefix are the prefix of the models.
proof fn lemma_pnodes_model_take(ps: Seq<ParseNode>, k: int)
    requires
        0 <= k <= ps.len(),
    ensures
        pnodes_model(ps.take(k)) == pnodes_model(ps).take(k),
{
    lemma_pnodes_model_index(ps);
    lemma_pnodes_model_index(ps.take(k));
    assert(pnodes_model(ps.take(k)) =~= pnodes_model(ps).take(k));
}

/// A list whose nodes are all buildable has buildable prefixes.
proof fn lemma_nodes_ok_prefix(ms: Seq<ParseNodeModel>, k: int, source: Seq<char>)
    requires
        0 <= k <= ms.len(),
        nodes_ok(ms, source),
    ensures
        nodes_ok(ms.take(k), source),
    decreases ms.len(),
{
    if k < ms.len() {
        assert(ms.drop_last().take(k) =~= ms.take(k));
        lemma_nodes_ok_prefix(ms.drop_last(), k, source);
    } else {
        assert(ms.take(k) =~= ms);
    }
}

/// A list of buildable list items has buildable prefixes.
proof fn lemma_items_ok_prefix(ms: Seq<ParseNodeModel>, k: int, source: Seq<char>)
    requires
        0 <= k <= ms.len(),
        items_ok(ms, source),
    ensures
        items_ok(ms.take(k), source),
    decreases ms.len(),
{
    if k < ms.len() {
        assert(ms.drop_last().take(k) =~= ms.take(k));
        lemma_items_ok_prefix(ms.drop_last(), k, source);
    } else {
        assert(ms.take(k) =~= ms);
    }
}

} // verus!
