//! The line-based parser from end to end: the container tree of classified
//! lines is parsed by the declarative grammar and the parse tree is built
//! into a document.

use crate::ast::{default_range, Document, Session, TextContent};
use crate::declarative_grammar::{
    block_parse, concat_pairs, convert_spec, filter_out, item_nodes, lemma_match_shape,
    lemma_runs_bounded, leaf, pairs_of, parse_from, parse_with_declarative_grammar, single_children,
    single_content, single_header, marker_header, spec_try_match, syms_of, PatternView,
};
use crate::ir::{NodeType, ParseNodeModel};
use crate::ir_to_ast::{all_built, items_ok, node_ok, nodes_ok, pair_ok, pairs_ok, AstBuilder};
use crate::tokens::{zip_spec, LineContainer, Token};
use std::ops::Range;
use vstd::prelude::*;

verus! {

/// Every token of the element's lines lies in the source, on character
/// boundaries, down through nested containers.
pub open spec fn container_ok(c: LineContainer, source: Seq<char>) -> bool
    decreases c, 1nat,
{
    match c {
        LineContainer::Token(t) => pairs_ok(source, zip_spec(t.source_tokens@, t.token_spans@)),
        LineContainer::Container { children } => {
            proof {
                assert(decreases_to!(children => children@));
            }
            level_ok(children@, source)
        },
    }
}

/// Every element of the level is well placed in the source.
pub open spec fn level_ok(cs: Seq<LineContainer>, source: Seq<char>) -> bool
    decreases cs, 0nat,
{
    cs.len() == 0 || (level_ok(cs.drop_last(), source) && container_ok(cs.last(), source))
}

/// Each element of a well-placed level is well placed.
pub proof fn lemma_level_ok_index(cs: Seq<LineContainer>, source: Seq<char>, j: int)
    requires
        level_ok(cs, source),
        0 <= j < cs.len(),
    ensures
        container_ok(cs[j], source),
    decreases cs.len(),
{
    if j < cs.len() - 1 {
        lemma_level_ok_index(cs.drop_last(), source, j);
        assert(cs.drop_last()[j] == cs[j]);
    }
}

/// The tokens of a well-placed element are well placed.
proof fn lemma_pairs_of_ok(c: LineContainer, source: Seq<char>)
    requires
        container_ok(c, source),
    ensures
        pairs_ok(source, pairs_of(c)),
{
}

/// Dropping the last token keeps the rest well placed.
proof fn lemma_pairs_ok_drop_last(s: Seq<(Token, Range<usize>)>, source: Seq<char>)
    requires
        pairs_ok(source, s),
        s.len() > 0,
    ensures
        pairs_ok(source, s.drop_last()),
        pair_ok(source, s.last()),
{
    assert forall|i: int| 0 <= i < s.drop_last().len() implies pair_ok(source, #[trigger] s.drop_last()[i]) by {
        assert(s.drop_last()[i] == s[i]);
    }
    assert(pair_ok(source, s[s.len() - 1]));
}

/// Appending a well-placed token keeps the tokens well placed.
proof fn lemma_pairs_ok_push(s: Seq<(Token, Range<usize>)>, p: (Token, Range<usize>), source: Seq<char>)
    requires
        pairs_ok(source, s),
        pair_ok(source, p),
    ensures
        pairs_ok(source, s.push(p)),
{
    assert forall|i: int| 0 <= i < s.push(p).len() implies pair_ok(source, #[trigger] s.push(p)[i]) by {
        if i < s.len() {
            assert(s.push(p)[i] == s[i]);
        }
    }
}

/// Filtering, and splitting a single-line annotation, keep tokens well
/// placed.
proof fn lemma_selections_ok(
    s: Seq<(Token, Range<usize>)>,
    source: Seq<char>,
    colon: bool,
    ws: bool,
    blank: bool,
    marker: bool,
)
    requires
        pairs_ok(source, s),
    ensures
        pairs_ok(source, filter_out(s, colon, ws, blank, marker)),
        pairs_ok(source, single_header(s)),
        pairs_ok(source, single_content(s)),
        pairs_ok(source, marker_header(s)),
    decreases s.len(),
{
    if s.len() > 0 {
        lemma_pairs_ok_drop_last(s, source);
        lemma_selections_ok(s.drop_last(), source, colon, ws, blank, marker);
        lemma_pairs_ok_push(filter_out(s.drop_last(), colon, ws, blank, marker), s.last(), source);
        lemma_pairs_ok_push(single_header(s.drop_last()), s.last(), source);
        lemma_pairs_ok_push(single_content(s.drop_last()), s.last(), source);
        lemma_pairs_ok_push(marker_header(s.drop_last()), s.last(), source);
    }
}

/// The lines of well-placed elements give well-placed tokens.
proof fn lemma_concat_ok(cs: Seq<LineContainer>, source: Seq<char>)
    requires
        forall|k: int| 0 <= k < cs.len() ==> container_ok(#[trigger] cs[k], source),
    ensures
        pairs_ok(source, concat_pairs(cs)),
    decreases cs.len(),
{
    if cs.len() > 0 {
        let p = cs.drop_last();
        assert forall|k: int| 0 <= k < p.len() implies container_ok(#[trigger] p[k], source) by {
            assert(p[k] == cs[k]);
        }
        lemma_concat_ok(p, source);
        assert(container_ok(cs[cs.len() - 1], source));
        let a = concat_pairs(p);
        let b = pairs_of(cs.last());
        assert forall|i: int| 0 <= i < (a + b).len() implies pair_ok(source, #[trigger] (a + b)[i]) by {
            if i < a.len() {
                assert((a + b)[i] == a[i]);
            } else {
                assert((a + b)[i] == b[i - a.len()]);
            }
        }
    }
}

/// Joining two lists of well-formed nodes gives a list of well-formed nodes.
proof fn lemma_nodes_ok_concat(a: Seq<ParseNodeModel>, b: Seq<ParseNodeModel>, source: Seq<char>)
    requires
        nodes_ok(a, source),
        nodes_ok(b, source),
    ensures
        nodes_ok(a + b, source),
    decreases b.len(),
{
    if b.len() == 0 {
        assert(a + b =~= a);
    } else {
        lemma_nodes_ok_concat(a, b.drop_last(), source);
        assert((a + b).drop_last() =~= a + b.drop_last());
        assert((a + b).last() == b.last());
    }
}

/// A single node list is well formed when its node is.
proof fn lemma_nodes_ok_single(x: ParseNodeModel, source: Seq<char>)
    requires
        node_ok(x, source),
    ensures
        nodes_ok(seq![x], source),
{
    assert(seq![x].drop_last() =~= Seq::<ParseNodeModel>::empty());
    assert(nodes_ok(Seq::<ParseNodeModel>::empty(), source));
    assert(seq![x].last() == x);
}

/// The inline content of an annotation gives well-formed children.
proof fn lemma_single_children_ok(content: Seq<(Token, Range<usize>)>, source: Seq<char>)
    requires
        pairs_ok(source, content),
    ensures
        nodes_ok(single_children(content), source),
{
    if content.len() > 0 {
        let x = leaf(NodeType::Paragraph, content);
        assert(node_ok(x, source));
        lemma_nodes_ok_single(x, source);
    }
}

/// The parse of a well-placed level is a list of well-formed content nodes.
pub proof fn lemma_parse_ok(cs: Seq<LineContainer>, idx: int, source: Seq<char>)
    requires
        level_ok(cs, source),
    ensures
        nodes_ok(parse_from(cs, idx), source),
    decreases cs, 2nat, cs.len() - idx,
{
    if 0 <= idx < cs.len() {
        match spec_try_match(syms_of(cs), idx) {
            None => {
                lemma_parse_ok(cs, idx + 1, source);
            },
            Some((p, l)) => {
                let head = if p is BlankLineGroup {
                    Seq::<ParseNodeModel>::empty()
                } else {
                    seq![convert_spec(cs, p, idx)]
                };
                if !(p is BlankLineGroup) {
                    lemma_convert_ok(cs, p, idx, l, source);
                    lemma_nodes_ok_single(convert_spec(cs, p, idx), source);
                }
                if l >= 1 && idx + l <= cs.len() {
                    lemma_parse_ok(cs, idx + l, source);
                    lemma_nodes_ok_concat(head, parse_from(cs, idx + l), source);
                }
            },
        }
    }
}

/// The parse of a well-placed container is well formed.
pub proof fn lemma_block_ok(cs: Seq<LineContainer>, j: int, source: Seq<char>)
    requires
        level_ok(cs, source),
    ensures
        nodes_ok(block_parse(cs, j), source),
    decreases cs, 0nat, 0int,
{
    if 0 <= j < cs.len() {
        lemma_level_ok_index(cs, source, j);
        match cs[j] {
            LineContainer::Container { children } => {
                assert(decreases_to!(cs => cs[j]));
                assert(decreases_to!(children => children@));
                lemma_parse_ok(children@, 0, source);
            },
            LineContainer::Token(_) => {},
        }
    }
}

/// The items of a well-placed list give well-formed list item nodes.
pub proof fn lemma_item_nodes_ok(
    cs: Seq<LineContainer>,
    items: Seq<(usize, Option<usize>)>,
    off: int,
    source: Seq<char>,
)
    requires
        level_ok(cs, source),
    ensures
        items_ok(item_nodes(cs, items, off), source),
    decreases cs, 0nat, items.len(),
{
    if items.len() > 0 {
        let it = items.last();
        lemma_item_nodes_ok(cs, items.drop_last(), off, source);
        if 0 <= off + it.0 < cs.len() {
            lemma_level_ok_index(cs, source, off + it.0);
            lemma_pairs_of_ok(cs[off + it.0], source);
        }
        assert(pairs_ok(source, Seq::<(Token, Range<usize>)>::empty()));
        assert(nodes_ok(Seq::<ParseNodeModel>::empty(), source));
        match it.1 {
            Some(c) => {
                lemma_block_ok(cs, off + c, source);
            },
            None => {},
        }
        let ns = item_nodes(cs, items, off);
        assert(ns.drop_last() == item_nodes(cs, items.drop_last(), off));
    }
}

/// The node of a matched verbatim block over a well-placed level is well
/// formed.
proof fn lemma_verbatim_ok(cs: Seq<LineContainer>, p: PatternView, off: int, source: Seq<char>)
    requires
        level_ok(cs, source),
        0 <= off < cs.len(),
        p is VerbatimBlock,
        p->VerbatimBlock_subject_idx == 0,
        0 <= off + p->VerbatimBlock_closing_idx < cs.len(),
    ensures
        node_ok(convert_spec(cs, p, off), source),
{
    lemma_level_ok_index(cs, source, off);
    lemma_selections_ok(pairs_of(cs[off]), source, true, false, true, false);
    let k = off + p->VerbatimBlock_closing_idx;
    lemma_level_ok_index(cs, source, k);
    lemma_selections_ok(pairs_of(cs[k]), source, false, false, false, false);
    lemma_single_children_ok(single_content(pairs_of(cs[k])), source);
    match p->VerbatimBlock_content_idx {
        Some(ci) => {
            if 0 <= off + ci < cs.len() {
                lemma_level_ok_index(cs, source, off + ci);
                match cs[off + ci] {
                    LineContainer::Container { children } => {
                        assert forall|q: int| 0 <= q < children@.len() implies container_ok(
                            #[trigger] children@[q],
                            source,
                        ) by {
                            lemma_level_ok_index(children@, source, q);
                        }
                        lemma_concat_ok(children@, source);
                    },
                    LineContainer::Token(_) => {},
                }
            }
        },
        None => {},
    }
    assert(pairs_ok(source, Seq::<(Token, Range<usize>)>::empty()));
    let n = convert_spec(cs, p, off);
    assert(n.children.len() == 3);
    assert(pairs_ok(source, n.children[0].tokens));
    assert(pairs_ok(source, n.children[1].tokens));
    assert(pairs_ok(source, n.children[2].tokens));
    assert(nodes_ok(n.children[2].children, source));
}

/// The node of a matched paragraph over a well-placed level is well formed.
proof fn lemma_paragraph_ok(cs: Seq<LineContainer>, p: PatternView, off: int, source: Seq<char>)
    requires
        level_ok(cs, source),
        p is Paragraph,
        0 <= off + p->Paragraph_start_idx <= off + p->Paragraph_end_idx + 1 <= cs.len(),
    ensures
        node_ok(convert_spec(cs, p, off), source),
{
    let sub = cs.subrange(off + p->Paragraph_start_idx, off + p->Paragraph_end_idx + 1);
    assert forall|q: int| 0 <= q < sub.len() implies container_ok(#[trigger] sub[q], source) by {
        lemma_level_ok_index(cs, source, off + p->Paragraph_start_idx + q);
    }
    lemma_concat_ok(sub, source);
}

/// The node of a matched list over a well-placed level is well formed.
proof fn lemma_list_ok(cs: Seq<LineContainer>, p: PatternView, off: int, source: Seq<char>)
    requires
        level_ok(cs, source),
        p is List,
    ensures
        node_ok(convert_spec(cs, p, off), source),
    decreases cs, 0nat, p->List_items.len() + 1,
{
    lemma_item_nodes_ok(cs, p->List_items, off, source);
    assert(pairs_ok(source, Seq::<(Token, Range<usize>)>::empty()));
}

/// The node of a matched rule over a well-placed level is well formed.
pub proof fn lemma_convert_ok(cs: Seq<LineContainer>, p: PatternView, off: int, l: int, source: Seq<char>)
    requires
        level_ok(cs, source),
        0 <= off < cs.len(),
        spec_try_match(syms_of(cs), off) == Some((p, l)),
        !(p is BlankLineGroup),
    ensures
        node_ok(convert_spec(cs, p, off), source),
    decreases cs, 1nat, 0int,
{
    let s = syms_of(cs);
    lemma_match_shape(s, off);
    lemma_runs_bounded(s, off);
    lemma_runs_bounded(s, off + 1);
    lemma_level_ok_index(cs, source, off);
    match p {
        PatternView::VerbatimBlock { .. } => {
            lemma_verbatim_ok(cs, p, off, source);
        },
        PatternView::AnnotationBlock { start_idx, content_idx, end_idx } => {
            lemma_selections_ok(pairs_of(cs[off]), source, false, false, false, true);
            lemma_block_ok(cs, off + content_idx, source);
        },
        PatternView::AnnotationSingle { start_idx } => {
            lemma_selections_ok(pairs_of(cs[off]), source, false, false, false, false);
            lemma_single_children_ok(single_content(pairs_of(cs[off])), source);
        },
        PatternView::List { .. } => {
            lemma_list_ok(cs, p, off, source);
        },
        PatternView::Definition { subject_idx, content_idx } => {
            lemma_selections_ok(pairs_of(cs[off]), source, true, true, true, false);
            lemma_block_ok(cs, off + content_idx, source);
        },
        PatternView::Session { subject_idx, blank_idx, content_idx } => {
            lemma_selections_ok(pairs_of(cs[off]), source, false, true, true, false);
            lemma_block_ok(cs, off + content_idx, source);
        },
        PatternView::Paragraph { .. } => {
            lemma_paragraph_ok(cs, p, off, source);
        },
        PatternView::BlankLineGroup { .. } => {},
    }
}

/// Parse the container tree of a document: the root's children are parsed
/// by the declarative grammar and built into the content of a root session
/// titled `root` with the default location. A tree that is a single line is
/// refused.
pub fn parse_experimental_v2(tree: LineContainer, source: &str) -> (r: Result<Document, String>)
    requires
        tree is Container ==> container_ok(tree, source@),
    ensures
        tree is Token ==> r is Err && r->Err_0@ == "Expected root container, found single token"@,
        tree is Container ==> r is Ok && r->Ok_0.metadata@.len() == 0 && r->Ok_0.root.title.text@
            == "root"@ && r->Ok_0.root.location == crate::ast::spec_default_location() && all_built(
            r->Ok_0.root.children@,
            parse_from(tree->children@, 0),
            source@,
        ),
{
    let children = match tree {
        LineContainer::Container { children } => children,
        LineContainer::Token(_) => {
            return Err("Expected root container, found single token".to_owned());
        },
    };
    let ghost cs = children@;
    let nodes = match parse_with_declarative_grammar(children, source) {
        Ok(v) => v,
        Err(e) => {
            return Err(e);
        },
    };
    proof {
        lemma_parse_ok(cs, 0, source@);
    }
    let builder = AstBuilder::new(source);
    let content = builder.build_content_items(nodes);
    let root = Session {
        title: TextContent { text: "root".to_owned() },
        children: content,
        location: default_range(),
    };
    Ok(Document { metadata: Vec::new(), root })
}

} // verus!
