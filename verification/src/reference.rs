//! The reference parser: a recursive-descent parser from the flat token
//! stream (with `Indent`, `Dedent` and `BlankLine` tokens) to a parse tree.
//!
//! Every rule is an ordered choice over the rules below it: the first
//! alternative that matches wins, and a failed alternative consumes nothing.
//! Repetitions are greedy. The grammar is stated as spec functions over the
//! token sequence and a position; each parsing function returns exactly the
//! value the matching spec function describes.

use crate::ir::{
    lemma_trees_value_concat, lemma_trees_value_len, lemma_trees_value_push, tree_value, trees_value,
    NodeType, NodeValue, ParseNode,
};
use crate::ir::{lemma_pnodes_model_index, lemma_trees_value_index, pnode_model, pnodes_model,
    ParseNodeModel};
use crate::ir_to_ast::{items_ok, node_ok, nodes_ok, pair_ok, pairs_ok};
use crate::text::is_text_span;
use crate::tokens::{
    clone_range, lemma_pairs_value_concat, lemma_pairs_value_index, lemma_pairs_value_push,
    pairs_value, Token, TokenValue,
};
use std::ops::Range;
use vstd::prelude::*;

verus! {

/// A token with the byte range it covers.
pub type Pair = (Token, Range<usize>);

// ---------------------------------------------------------------------------
// Token classes
// ---------------------------------------------------------------------------

/// Tokens that can make up the text of a line: words, numbers, whitespace
/// and punctuation.
pub open spec fn is_text_kind(t: Token) -> bool {
    ||| t is Text
    ||| t is Whitespace
    ||| t is Number
    ||| t is Dash
    ||| t is Period
    ||| t is OpenParen
    ||| t is CloseParen
    ||| t is Colon
    ||| t is Comma
    ||| t is Quote
    ||| t is Equals
    ||| t is ExclamationMark
    ||| t is QuestionMark
    ||| t is Semicolon
}

/// Whether a token can be part of the text of a line.
pub fn is_text_token(token: &Token) -> (r: bool)
    ensures
        r == is_text_kind(*token),
{
    matches!(
        token,
        Token::Text(_) | Token::Whitespace | Token::Number(_) | Token::Dash | Token::Period
            | Token::OpenParen | Token::CloseParen | Token::Colon | Token::Comma | Token::Quote
            | Token::Equals | Token::ExclamationMark | Token::QuestionMark | Token::Semicolon
    )
}

/// The classes of tokens the grammar looks for.
#[derive(Clone, Copy, PartialEq, Eq, Structural)]
pub enum Kind {
    /// Text of a line (see `is_text_kind`).
    TextLike,
    /// Anything but a `::` marker or a blank line: an annotation header.
    NotMarkerOrBlank,
    /// Anything but a colon or a blank line: a subject.
    NotColonOrBlank,
    Blank,
    Space,
    /// `Indent` or `Indentation`: the leading indentation of a subject.
    IndentLike,
    Indent,
    Dedent,
    Marker,
    Colon,
    Dash,
    /// A number or a word: the label of an ordered list marker.
    Ordinal,
    /// `.` or `)` after the label of an ordered list marker.
    OrdinalEnd,
    OpenParen,
    Number,
    CloseParen,
}

/// Whether a token is of the class.
pub open spec fn in_kind(k: Kind, t: Token) -> bool {
    match k {
        Kind::TextLike => is_text_kind(t),
        Kind::NotMarkerOrBlank => !(t is LexMarker) && !(t is BlankLine),
        Kind::NotColonOrBlank => !(t is Colon) && !(t is BlankLine),
        Kind::Blank => t is BlankLine,
        Kind::Space => t is Whitespace,
        Kind::IndentLike => t is Indent || t is Indentation,
        Kind::Indent => t is Indent,
        Kind::Dedent => t is Dedent,
        Kind::Marker => t is LexMarker,
        Kind::Colon => t is Colon,
        Kind::Dash => t is Dash,
        Kind::Ordinal => t is Number || t is Text,
        Kind::OrdinalEnd => t is Period || t is CloseParen,
        Kind::OpenParen => t is OpenParen,
        Kind::Number => t is Number,
        Kind::CloseParen => t is CloseParen,
    }
}

/// Whether a token is of the class.
fn kind_of(k: Kind, t: &Token) -> (r: bool)
    ensures
        r == in_kind(k, *t),
{
    match k {
        Kind::TextLike => is_text_token(t),
        Kind::NotMarkerOrBlank => !matches!(t, Token::LexMarker | Token::BlankLine(_)),
        Kind::NotColonOrBlank => !matches!(t, Token::Colon | Token::BlankLine(_)),
        Kind::Blank => matches!(t, Token::BlankLine(_)),
        Kind::Space => matches!(t, Token::Whitespace),
        Kind::IndentLike => matches!(t, Token::Indent(_) | Token::Indentation),
        Kind::Indent => matches!(t, Token::Indent(_)),
        Kind::Dedent => matches!(t, Token::Dedent(_)),
        Kind::Marker => matches!(t, Token::LexMarker),
        Kind::Colon => matches!(t, Token::Colon),
        Kind::Dash => matches!(t, Token::Dash),
        Kind::Ordinal => matches!(t, Token::Number(_) | Token::Text(_)),
        Kind::OrdinalEnd => matches!(t, Token::Period | Token::CloseParen),
        Kind::OpenParen => matches!(t, Token::OpenParen),
        Kind::Number => matches!(t, Token::Number(_)),
        Kind::CloseParen => matches!(t, Token::CloseParen),
    }
}

/// There is a token of the class at position `p`.
pub open spec fn tok_at(s: Seq<Pair>, p: int, k: Kind) -> bool {
    0 <= p < s.len() && in_kind(k, s[p].0)
}

/// Whether there is a token of the class at position `p`.
fn tok_is(v: &Vec<Pair>, p: usize, k: Kind) -> (r: bool)
    ensures
        r == tok_at(v@, p as int, k),
        v@.len() <= usize::MAX,
{
    let n = v.len();
    p < n && kind_of(k, &v[p].0)
}

/// The end of the longest run of tokens of the class starting at `p`.
pub open spec fn run_end(s: Seq<Pair>, p: int, k: Kind) -> int
    decreases s.len() - p,
{
    if tok_at(s, p, k) {
        run_end(s, p + 1, k)
    } else {
        p
    }
}

/// The run lies within the sequence, holds tokens of the class only, and
/// stops before a token that is not of the class.
pub proof fn lemma_run_end(s: Seq<Pair>, p: int, k: Kind)
    requires
        0 <= p <= s.len(),
    ensures
        p <= run_end(s, p, k) <= s.len(),
        forall|i: int| p <= i < run_end(s, p, k) ==> #[trigger] in_kind(k, s[i].0),
        !tok_at(s, run_end(s, p, k), k),
    decreases s.len() - p,
{
    if tok_at(s, p, k) {
        lemma_run_end(s, p + 1, k);
    }
}

/// The run never ends before it starts, and it stays within the sequence
/// when it starts there; outside the sequence it is empty.
pub proof fn lemma_run_ge(s: Seq<Pair>, p: int, k: Kind)
    ensures
        p <= run_end(s, p, k),
        0 <= p <= s.len() ==> run_end(s, p, k) <= s.len(),
        !(0 <= p < s.len()) ==> run_end(s, p, k) == p,
    decreases s.len() - p,
{
    if tok_at(s, p, k) {
        lemma_run_ge(s, p + 1, k);
    }
}

/// The end of the longest run of tokens of the class starting at `p`.
fn scan(v: &Vec<Pair>, p: usize, k: Kind) -> (e: usize)
    requires
        p <= v@.len(),
    ensures
        e == run_end(v@, p as int, k),
        p <= e <= v@.len(),
        v@.len() <= usize::MAX,
{
    proof {
        lemma_run_end(v@, p as int, k);
    }
    let mut i = p;
    while i < v.len() && kind_of(k, &v[i].0)
        invariant
            p <= i <= v@.len(),
            run_end(v@, i as int, k) == run_end(v@, p as int, k),
        decreases v@.len() - i,
    {
        i = i + 1;
    }
    i
}

/// Copies of the tokens `lo..hi`.
fn copy_span(v: &Vec<Pair>, lo: usize, hi: usize) -> (r: Vec<Pair>)
    requires
        lo <= hi <= v@.len(),
    ensures
        pairs_value(r@) == pairs_value(v@.subrange(lo as int, hi as int)),
{
    let mut out: Vec<Pair> = Vec::new();
    let mut i = lo;
    while i < hi
        invariant
            lo <= i <= hi <= v@.len(),
            pairs_value(out@) == pairs_value(v@.subrange(lo as int, i as int)),
        decreases hi - i,
    {
        let t = v[i].0.deep_clone();
        let r = clone_range(&v[i].1);
        proof {
            lemma_pairs_value_push(out@, (t, r));
            lemma_pairs_value_push(v@.subrange(lo as int, i as int), v@[i as int]);
            assert(v@.subrange(lo as int, i + 1) =~= v@.subrange(lo as int, i as int).push(
                v@[i as int],
            ));
        }
        out.push((t, r));
        i = i + 1;
    }
    out
}

// ---------------------------------------------------------------------------
// Results
// ---------------------------------------------------------------------------

/// The value of a node of the kind with copies of the tokens and the
/// children.
pub open spec fn nv(t: NodeType, toks: Seq<Pair>, children: Seq<NodeValue>) -> NodeValue {
    NodeValue { node_type: t, tokens: pairs_value(toks), children }
}

/// The parsed node and end position hold the value the spec describes.
pub open spec fn node_result(r: Option<(ParseNode, usize)>, m: Option<(NodeValue, int)>) -> bool {
    m == match r {
        None => None,
        Some(x) => Some((tree_value(x.0), x.1 as int)),
    }
}

/// The parsed nodes and end position hold the values the spec describes.
pub open spec fn nodes_result(r: Option<(Vec<ParseNode>, usize)>, m: Option<(Seq<NodeValue>, int)>) -> bool {
    m == match r {
        None => None,
        Some(x) => Some((trees_value(x.0@), x.1 as int)),
    }
}

/// A node of the kind with copies of the tokens `lo..hi` and the children.
fn make_node(v: &Vec<Pair>, t: NodeType, lo: usize, hi: usize, children: Vec<ParseNode>) -> (r:
    ParseNode)
    requires
        lo <= hi <= v@.len(),
    ensures
        tree_value(r) == nv(t, v@.subrange(lo as int, hi as int), trees_value(children@)),
{
    let toks = copy_span(v, lo, hi);
    ParseNode::new(t, toks, children)
}

// ---------------------------------------------------------------------------
// Lines
// ---------------------------------------------------------------------------

/// The end of the greedy repetition of "a text line, then a blank line".
pub open spec fn para_end(s: Seq<Pair>, p: int) -> int
    decreases s.len() - p,
{
    let e = run_end(s, p, Kind::TextLike);
    if p < e && tok_at(s, e, Kind::Blank) {
        para_end(s, e + 1)
    } else {
        p
    }
}

/// A paragraph: one or more text lines, each ended by a blank line. The
/// node holds all of their tokens, blank lines included.
pub open spec fn spec_paragraph(s: Seq<Pair>, p: int) -> Option<(NodeValue, int)> {
    let q = para_end(s, p);
    if p < q {
        Some((nv(NodeType::Paragraph, s.subrange(p, q), Seq::empty()), q))
    } else {
        None
    }
}

proof fn lemma_para_end(s: Seq<Pair>, p: int)
    requires
        0 <= p <= s.len(),
    ensures
        p <= para_end(s, p) <= s.len(),
    decreases s.len() - p,
{
    lemma_run_end(s, p, Kind::TextLike);
    let e = run_end(s, p, Kind::TextLike);
    if p < e && tok_at(s, e, Kind::Blank) {
        lemma_para_end(s, e + 1);
    }
}

/// Parse a paragraph at `p`.
fn paragraph(v: &Vec<Pair>, p: usize) -> (r: Option<(ParseNode, usize)>)
    requires
        p <= v@.len(),
    ensures
        node_result(r, spec_paragraph(v@, p as int)),
        r is Some ==> p < (r->0).1 <= v@.len(),
{
    proof {
        lemma_para_end(v@, p as int);
    }
    let mut q = p;
    loop
        invariant
            p <= q <= v@.len(),
            para_end(v@, q as int) == para_end(v@, p as int),
        ensures
            para_end(v@, q as int) == q,
        decreases v@.len() - q,
    {
        let e = scan(v, q, Kind::TextLike);
        if q < e && tok_is(v, e, Kind::Blank) {
            q = e + 1;
        } else {
            break ;
        }
    }
    if p < q {
        let none: Vec<ParseNode> = Vec::new();
        proof {
            assert(trees_value(none@) =~= Seq::<NodeValue>::empty());
        }
        Some((make_node(v, NodeType::Paragraph, p, q, none), q))
    } else {
        None
    }
}

/// `:: header ::` at `p`: the header tokens between the markers and the
/// position after the closing marker.
pub open spec fn spec_header(s: Seq<Pair>, p: int) -> Option<(Seq<Pair>, int)> {
    let e = run_end(s, p + 1, Kind::NotMarkerOrBlank);
    if tok_at(s, p, Kind::Marker) && tok_at(s, e, Kind::Marker) {
        Some((s.subrange(p + 1, e), e + 1))
    } else {
        None
    }
}

/// The header at `p`, as the bounds of its tokens and the end position.
fn annotation_header(v: &Vec<Pair>, p: usize) -> (r: Option<(usize, usize)>)
    requires
        p <= v@.len(),
    ensures
        match r {
            None => spec_header(v@, p as int) is None,
            Some(x) => {
                &&& p < x.0 < x.1 <= v@.len()
                &&& spec_header(v@, p as int) == Some((v@.subrange(p + 1, x.0 as int), x.1 as int))
                &&& x.0 + 1 == x.1
            },
        },
{
    if !tok_is(v, p, Kind::Marker) {
        return None;
    }
    let e = scan(v, p + 1, Kind::NotMarkerOrBlank);
    if tok_is(v, e, Kind::Marker) {
        Some((e, e + 1))
    } else {
        None
    }
}

/// The optional text after an annotation header: a space, then a text
/// line, kept as a paragraph child. Without it, no children and no tokens
/// taken.
pub open spec fn spec_inline_content(s: Seq<Pair>, a: int) -> (Seq<NodeValue>, int) {
    let e = run_end(s, a + 1, Kind::TextLike);
    if tok_at(s, a, Kind::Space) && a + 1 < e {
        (seq![nv(NodeType::Paragraph, s.subrange(a + 1, e), Seq::empty())], e)
    } else {
        (Seq::empty(), a)
    }
}

/// The optional text after an annotation header.
fn inline_content(v: &Vec<Pair>, a: usize) -> (r: (Vec<ParseNode>, usize))
    requires
        a <= v@.len(),
    ensures
        (trees_value(r.0@), r.1 as int) == spec_inline_content(v@, a as int),
        a <= r.1 <= v@.len(),
{
    if tok_is(v, a, Kind::Space) {
        let e = scan(v, a + 1, Kind::TextLike);
        if a + 1 < e {
            let none: Vec<ParseNode> = Vec::new();
            proof {
                assert(trees_value(none@) =~= Seq::<NodeValue>::empty());
            }
            let para = make_node(v, NodeType::Paragraph, a + 1, e, none);
            let mut out: Vec<ParseNode> = Vec::new();
            proof {
                lemma_trees_value_push(out@, para);
                assert(trees_value(Seq::<ParseNode>::empty()) =~= Seq::<NodeValue>::empty());
                assert(Seq::<NodeValue>::empty().push(tree_value(para)) =~= seq![tree_value(para)]);
            }
            out.push(para);
            return (out, e);
        }
    }
    (Vec::new(), a)
}

// ---------------------------------------------------------------------------
// List item lines
// ---------------------------------------------------------------------------

/// The length of the list marker at `p`, with the space after it: `- `,
/// `1. ` or `a) `, `(1) `; 0 where there is none.
pub open spec fn marker_len(s: Seq<Pair>, p: int) -> int {
    if tok_at(s, p, Kind::Dash) && tok_at(s, p + 1, Kind::Space) {
        2
    } else if tok_at(s, p, Kind::Ordinal) && tok_at(s, p + 1, Kind::OrdinalEnd) && tok_at(
        s,
        p + 2,
        Kind::Space,
    ) {
        3
    } else if tok_at(s, p, Kind::OpenParen) && tok_at(s, p + 1, Kind::Number) && tok_at(
        s,
        p + 2,
        Kind::CloseParen,
    ) && tok_at(s, p + 3, Kind::Space) {
        4
    } else {
        0
    }
}

/// The tokens of a line that are not whitespace.
pub open spec fn nonspace(ts: Seq<Pair>) -> Seq<Token>
    decreases ts.len(),
{
    if ts.len() == 0 {
        Seq::empty()
    } else if ts.last().0 is Whitespace {
        nonspace(ts.drop_last())
    } else {
        nonspace(ts.drop_last()).push(ts.last().0)
    }
}

/// Sentence-ending punctuation.
pub open spec fn is_end_punct(t: Token) -> bool {
    t is Period || t is ExclamationMark || t is QuestionMark
}

/// A dialog line: its last two tokens that are not whitespace are both
/// sentence-ending punctuation, as in `- Hi mom!!.`.
pub open spec fn is_dialog(ts: Seq<Pair>) -> bool {
    let n = nonspace(ts);
    n.len() >= 2 && is_end_punct(n[n.len() - 1]) && is_end_punct(n[n.len() - 2])
}

/// A list item line at `p`: a list marker, then text tokens up to the end
/// of the line; a dialog line is not one. The end of its tokens.
pub open spec fn spec_list_line(s: Seq<Pair>, p: int) -> Option<int> {
    let m = marker_len(s, p);
    let e = run_end(s, p + m, Kind::TextLike);
    if m > 0 && !is_dialog(s.subrange(p, e)) {
        Some(e)
    } else {
        None
    }
}

/// Whether the tokens `lo..hi` form a dialog line.
fn check_dialog(v: &Vec<Pair>, lo: usize, hi: usize) -> (r: bool)
    requires
        lo <= hi <= v@.len(),
    ensures
        r == is_dialog(v@.subrange(lo as int, hi as int)),
{
    let mut n: usize = 0;
    let mut last = false;
    let mut second = false;
    let mut i = lo;
    while i < hi
        invariant
            lo <= i <= hi <= v@.len(),
            n == nonspace(v@.subrange(lo as int, i as int)).len(),
            n <= i - lo,
            n >= 1 ==> last == is_end_punct(nonspace(v@.subrange(lo as int, i as int))[n - 1]),
            n >= 2 ==> second == is_end_punct(nonspace(v@.subrange(lo as int, i as int))[n - 2]),
        decreases hi - i,
    {
        proof {
            let a = v@.subrange(lo as int, i as int);
            let b = v@.subrange(lo as int, i + 1);
            assert(b.drop_last() =~= a);
            assert(b.last() == v@[i as int]);
        }
        if !v[i].0.is_whitespace() {
            second = last;
            last = v[i].0.is_end_punctuation();
            n = n + 1;
        }
        i = i + 1;
    }
    n >= 2 && last && second
}

/// The list item line at `p`, dialog or not: the end of its tokens.
fn list_item_line(v: &Vec<Pair>, p: usize) -> (r: Option<usize>)
    requires
        p <= v@.len(),
    ensures
        match r {
            None => marker_len(v@, p as int) == 0,
            Some(e) => {
                &&& marker_len(v@, p as int) > 0
                &&& e == run_end(v@, p + marker_len(v@, p as int), Kind::TextLike)
                &&& p < e <= v@.len()
            },
        },
{
    let m: usize = if tok_is(v, p, Kind::Dash) && tok_is(v, p + 1, Kind::Space) {
        2
    } else if tok_is(v, p, Kind::Ordinal) && tok_is(v, p + 1, Kind::OrdinalEnd) && tok_is(
        v,
        p + 2,
        Kind::Space,
    ) {
        3
    } else if tok_is(v, p, Kind::OpenParen) && tok_is(v, p + 1, Kind::Number) && tok_is(
        v,
        p + 2,
        Kind::CloseParen,
    ) && tok_is(v, p + 3, Kind::Space) {
        4
    } else {
        0
    };
    if m == 0 {
        return None;
    }
    Some(scan(v, p + m, Kind::TextLike))
}

/// The list item line at `p` unless it is a dialog line: the end of its
/// tokens.
fn non_dialog_list_item_line(v: &Vec<Pair>, p: usize) -> (r: Option<usize>)
    requires
        p <= v@.len(),
    ensures
        match r {
            None => spec_list_line(v@, p as int) is None,
            Some(e) => spec_list_line(v@, p as int) == Some(e as int) && p < e <= v@.len(),
        },
{
    match list_item_line(v, p) {
        Some(e) => {
            if check_dialog(v, p, e) {
                None
            } else {
                Some(e)
            }
        },
        None => None,
    }
}

/// Whitespace at the end of a line adds nothing to its other tokens.
proof fn lemma_nonspace_trailing(ts: Seq<Pair>, a: int)
    requires
        0 <= a <= ts.len(),
        forall|k: int| a <= k < ts.len() ==> (#[trigger] ts[k]).0 is Whitespace,
    ensures
        nonspace(ts) == nonspace(ts.subrange(0, a)),
    decreases ts.len() - a,
{
    if a < ts.len() {
        let d = ts.drop_last();
        assert(ts[ts.len() - 1].0 is Whitespace);
        assert forall|k: int| a <= k < d.len() implies (#[trigger] d[k]).0 is Whitespace by {
            assert(d[k] == ts[k]);
        }
        lemma_nonspace_trailing(d, a);
        assert(d.subrange(0, a) =~= ts.subrange(0, a));
    } else {
        assert(ts.subrange(0, a) =~= ts);
    }
}

/// A list item line is refused as a dialog line exactly when the last two
/// of its tokens that are not whitespace are both sentence-ending
/// punctuation (`.`, `!` or `?`). Here `i` and `j` are the places of those
/// two tokens: everything after `i` in the line but `j` is whitespace. So a
/// line such as `- a.`, whose last token is a period after a word, is a list
/// item line, and `- Hi mom!!.` is not.
pub proof fn lemma_list_line_dialog(s: Seq<Pair>, p: int, i: int, j: int)
    requires
        0 <= p,
        marker_len(s, p) > 0,
        p <= i < j < run_end(s, p + marker_len(s, p), Kind::TextLike),
        !(s[i].0 is Whitespace),
        !(s[j].0 is Whitespace),
        forall|k: int|
            i < k < run_end(s, p + marker_len(s, p), Kind::TextLike) && k != j ==> (#[trigger] s[k]).0 is Whitespace,
    ensures
        spec_list_line(s, p) == if (s[i].0 is Period || s[i].0 is ExclamationMark || s[i].0 is QuestionMark)
            && (s[j].0 is Period || s[j].0 is ExclamationMark || s[j].0 is QuestionMark) {
            None
        } else {
            Some(run_end(s, p + marker_len(s, p), Kind::TextLike))
        },
{
    let m = marker_len(s, p);
    assert(p + m <= s.len());
    lemma_run_end(s, p + m, Kind::TextLike);
    let e = run_end(s, p + m, Kind::TextLike);
    let ts = s.subrange(p, e);
    let li = i - p;
    let lj = j - p;
    assert forall|k: int| lj + 1 <= k < ts.len() implies (#[trigger] ts[k]).0 is Whitespace by {
        assert(ts[k] == s[p + k]);
    }
    lemma_nonspace_trailing(ts, lj + 1);
    let tj = ts.subrange(0, lj + 1);
    assert(tj.drop_last() =~= ts.subrange(0, lj));
    assert(tj.last() == s[j]);
    let ti = ts.subrange(0, lj);
    assert forall|k: int| li + 1 <= k < ti.len() implies (#[trigger] ti[k]).0 is Whitespace by {
        assert(ti[k] == s[p + k]);
    }
    lemma_nonspace_trailing(ti, li + 1);
    let tii = ti.subrange(0, li + 1);
    assert(tii.drop_last() =~= ts.subrange(0, li));
    assert(tii.last() == s[i]);
    assert(ti.subrange(0, li + 1) =~= tii);
    let n = nonspace(ts);
    assert(n == nonspace(ts.subrange(0, li)).push(s[i].0).push(s[j].0));
    assert(n[n.len() - 1] == s[j].0);
    assert(n[n.len() - 2] == s[i].0);
}

// ---------------------------------------------------------------------------
// Verbatim blocks
// ---------------------------------------------------------------------------

/// A token of verbatim content is kept when its range is not empty.
pub open spec fn keep(x: Pair) -> Seq<Pair> {
    if x.1.start < x.1.end {
        seq![x]
    } else {
        Seq::empty()
    }
}

/// One step of verbatim content at `p`: a nested `Indent ... Dedent`
/// block, whose tokens are dropped, or else one token that is neither a
/// `::` marker nor a `Dedent`.
pub open spec fn vb_step(s: Seq<Pair>, p: int) -> Option<(Seq<Pair>, int)>
    decreases s.len() - p, 0nat,
{
    let nested = if tok_at(s, p, Kind::Indent) {
        vb_nested(s, p + 1)
    } else {
        None
    };
    if nested is Some && tok_at(s, (nested->0).1, Kind::Dedent) {
        Some((Seq::empty(), (nested->0).1 + 1))
    } else if 0 <= p < s.len() && !(s[p].0 is LexMarker) && !(s[p].0 is Dedent) {
        Some((keep(s[p]), p + 1))
    } else {
        None
    }
}

/// The greedy repetition of content steps at `p`: the kept tokens and the
/// end. (A step always takes at least one token; the bound on its end only
/// serves to show that the recursion ends.)
pub open spec fn vb_run(s: Seq<Pair>, p: int) -> (Seq<Pair>, int)
    decreases s.len() - p, 1nat,
{
    match vb_step(s, p) {
        Some(x) => if p < x.1 <= s.len() {
            let rest = vb_run(s, x.1);
            (x.0 + rest.0, rest.1)
        } else {
            (x.0, x.1)
        },
        None => (Seq::empty(), p),
    }
}

/// Verbatim content at `p`: one or more content steps.
pub open spec fn vb_nested(s: Seq<Pair>, p: int) -> Option<(Seq<Pair>, int)>
    decreases s.len() - p, 2nat,
{
    let r = vb_run(s, p);
    if p < r.1 {
        Some(r)
    } else {
        None
    }
}

/// The two kinds of value equal: the copies hold the values of the tokens.
pub open spec fn pairs_result(r: Option<(Vec<Pair>, usize)>, m: Option<(Seq<Pair>, int)>) -> bool {
    match m {
        None => r is None,
        Some(y) => r is Some && pairs_value((r->0).0@) == pairs_value(y.0) && (r->0).1 == y.1,
    }
}

proof fn lemma_vb_bounds(s: Seq<Pair>, p: int)
    requires
        0 <= p <= s.len(),
    ensures
        vb_step(s, p) is Some ==> p < (vb_step(s, p)->0).1 <= s.len(),
        p <= vb_run(s, p).1 <= s.len(),
        vb_nested(s, p) is Some ==> p < (vb_nested(s, p)->0).1 <= s.len(),
    decreases s.len() - p,
{
    if tok_at(s, p, Kind::Indent) {
        lemma_vb_bounds(s, p + 1);
    }
    match vb_step(s, p) {
        Some(x) => if p < x.1 <= s.len() {
            lemma_vb_bounds(s, x.1);
        },
        None => {},
    }
}

/// One step of verbatim content at `p`.
fn verbatim_step(v: &Vec<Pair>, p: usize) -> (r: Option<(Vec<Pair>, usize)>)
    requires
        p <= v@.len(),
    ensures
        pairs_result(r, vb_step(v@, p as int)),
        r is Some ==> p < (r->0).1 <= v@.len(),
    decreases v@.len() - p, 0nat,
{
    proof {
        lemma_vb_bounds(v@, p as int);
    }
    if tok_is(v, p, Kind::Indent) {
        let nested = verbatim_nested(v, p + 1);
        match nested {
            Some(x) => {
                if tok_is(v, x.1, Kind::Dedent) {
                    let none: Vec<Pair> = Vec::new();
                    proof {
                        assert(pairs_value(none@) =~= pairs_value(Seq::<Pair>::empty()));
                    }
                    return Some((none, x.1 + 1));
                }
            },
            None => {},
        }
    }
    if p < v.len() && !matches!(v[p].0, Token::LexMarker | Token::Dedent(_)) {
        let mut out: Vec<Pair> = Vec::new();
        if v[p].1.start < v[p].1.end {
            let t = v[p].0.deep_clone();
            let rg = clone_range(&v[p].1);
            proof {
                lemma_pairs_value_push(out@, (t, rg));
                lemma_pairs_value_push(Seq::<Pair>::empty(), v@[p as int]);
                assert(Seq::<Pair>::empty().push(v@[p as int]) =~= seq![v@[p as int]]);
            }
            out.push((t, rg));
        } else {
            proof {
                assert(pairs_value(out@) =~= pairs_value(Seq::<Pair>::empty()));
            }
        }
        Some((out, p + 1))
    } else {
        None
    }
}

/// The greedy repetition of content steps at `p`.
fn verbatim_run(v: &Vec<Pair>, p: usize) -> (r: (Vec<Pair>, usize))
    requires
        p <= v@.len(),
    ensures
        pairs_value(r.0@) == pairs_value(vb_run(v@, p as int).0),
        r.1 == vb_run(v@, p as int).1,
    decreases v@.len() - p, 1nat,
{
    let ghost acc: Seq<Pair> = Seq::empty();
    let mut out: Vec<Pair> = Vec::new();
    let mut cur = p;
    proof {
        assert(acc + vb_run(v@, p as int).0 =~= vb_run(v@, p as int).0);
    }
    loop
        invariant
            p <= cur <= v@.len(),
            pairs_value(out@) == pairs_value(acc),
            acc + vb_run(v@, cur as int).0 == vb_run(v@, p as int).0,
            vb_run(v@, cur as int).1 == vb_run(v@, p as int).1,
        ensures
            vb_run(v@, cur as int) == (Seq::<Pair>::empty(), cur as int),
        decreases v@.len() - cur,
    {
        let step = verbatim_step(v, cur);
        match step {
            Some(x) => {
                let (mut toks, next) = x;
                proof {
                    let sx = vb_step(v@, cur as int)->0;
                    let rest = vb_run(v@, next as int);
                    assert(vb_run(v@, cur as int) == (sx.0 + rest.0, rest.1));
                    lemma_pairs_value_concat(out@, toks@);
                    lemma_pairs_value_concat(acc, sx.0);
                    assert(acc + (sx.0 + rest.0) =~= (acc + sx.0) + rest.0);
                    acc = acc + sx.0;
                }
                out.append(&mut toks);
                cur = next;
            },
            None => {
                break ;
            },
        }
    }
    proof {
        assert(acc + Seq::<Pair>::empty() =~= acc);
    }
    (out, cur)
}

/// Verbatim content at `p`: one or more content steps.
fn verbatim_nested(v: &Vec<Pair>, p: usize) -> (r: Option<(Vec<Pair>, usize)>)
    requires
        p <= v@.len(),
    ensures
        pairs_result(r, vb_nested(v@, p as int)),
        r is Some ==> p < (r->0).1 <= v@.len(),
    decreases v@.len() - p, 2nat,
{
    proof {
        lemma_vb_bounds(v@, p as int);
    }
    let (toks, e) = verbatim_run(v, p);
    if p < e {
        Some((toks, e))
    } else {
        None
    }
}

/// Indented verbatim content at `q`: `Indent`, content, `Dedent`.
pub open spec fn spec_with_content(s: Seq<Pair>, q: int) -> Option<(Seq<Pair>, int)> {
    if tok_at(s, q, Kind::Indent) {
        match vb_nested(s, q + 1) {
            Some(x) => if tok_at(s, x.1, Kind::Dedent) {
                Some((x.0, x.1 + 1))
            } else {
                None
            },
            None => None,
        }
    } else {
        None
    }
}

/// A verbatim subject at `q`: one or more tokens up to a colon (no blank
/// line among them), the colon, any spaces and an optional blank line. Its
/// tokens, its depth (the number of leading indentation tokens), and its end.
pub open spec fn spec_vb_subject(s: Seq<Pair>, q: int) -> Option<(Seq<Pair>, int, int)> {
    let e = run_end(s, q, Kind::NotColonOrBlank);
    if q < e && tok_at(s, e, Kind::Colon) {
        let w = run_end(s, e + 1, Kind::Space);
        let w2 = if tok_at(s, w, Kind::Blank) {
            w + 1
        } else {
            w
        };
        let l = run_end(s, q, Kind::IndentLike);
        let d = if l < e {
            l - q
        } else {
            e - q
        };
        Some((s.subrange(q, e), d, w2))
    } else {
        None
    }
}

/// A subject/content pair at `q`: blank lines, a subject, blank lines, and
/// optionally indented content. The subject tokens, depth and content tokens,
/// and the end.
pub open spec fn spec_vb_pair(s: Seq<Pair>, q: int) -> Option<((Seq<Pair>, int, Seq<Pair>), int)> {
    let q1 = run_end(s, q, Kind::Blank);
    match spec_vb_subject(s, q1) {
        Some(x) => {
            let q3 = run_end(s, x.2, Kind::Blank);
            match spec_with_content(s, q3) {
                Some(c) => Some(((x.0, x.1, c.0), c.1)),
                None => Some(((x.0, x.1, Seq::empty()), q3)),
            }
        },
        None => None,
    }
}

/// The greedy repetition of subject/content pairs at `q`. (A pair always
/// takes at least two tokens, as `verbatim_pair` ensures; the bound on its
/// end only serves to show that the recursion ends.)
pub open spec fn spec_vb_pairs(s: Seq<Pair>, q: int) -> (Seq<(Seq<Pair>, int, Seq<Pair>)>, int)
    decreases s.len() - q,
{
    match spec_vb_pair(s, q) {
        Some(x) => if q < x.1 <= s.len() {
            let rest = spec_vb_pairs(s, x.1);
            (seq![x.0] + rest.0, rest.1)
        } else {
            (seq![x.0], x.1)
        },
        None => (Seq::empty(), q),
    }
}

/// The subject and content nodes of the pairs, in order.
pub open spec fn pair_nodes(prs: Seq<(Seq<Pair>, int, Seq<Pair>)>) -> Seq<NodeValue>
    decreases prs.len(),
{
    if prs.len() == 0 {
        Seq::empty()
    } else {
        pair_nodes(prs.drop_last()) + seq![
            nv(NodeType::ForeignBlockSubject, prs.last().0, Seq::empty()),
            nv(NodeType::ForeignBlockContent, prs.last().2, Seq::empty()),
        ]
    }
}

/// All subjects have the depth of the first.
pub open spec fn same_depth(prs: Seq<(Seq<Pair>, int, Seq<Pair>)>) -> bool {
    forall|i: int| 0 <= i < prs.len() ==> #[trigger] prs[i].1 == prs[0].1
}

/// A verbatim block at `p`: one or more subject/content pairs whose
/// subjects share one depth, blank lines, and a closing annotation (a
/// header with optional text after it). The block node holds a subject and a
/// content node per pair and the closing node, which holds the header tokens
/// and the closing text as a paragraph.
pub open spec fn spec_verbatim(s: Seq<Pair>, p: int) -> Option<(NodeValue, int)> {
    let prs = spec_vb_pairs(s, p);
    let z = run_end(s, prs.1, Kind::Blank);
    if prs.0.len() > 0 && same_depth(prs.0) {
        match spec_header(s, z) {
            Some(h) => {
                let c = spec_inline_content(s, h.1);
                Some(
                    (
                        nv(
                            NodeType::VerbatimBlock,
                            Seq::empty(),
                            pair_nodes(prs.0).push(nv(NodeType::ForeignBlockClosing, h.0, c.0)),
                        ),
                        c.1,
                    ),
                )
            },
            None => None,
        }
    } else {
        None
    }
}

/// Every pair covers a non-empty range.
pub open spec fn nonempty_spans(t: Seq<Pair>) -> bool {
    forall|j: int| 0 <= j < t.len() ==> (#[trigger] t[j]).1.start < t[j].1.end
}

proof fn lemma_nonempty_concat(a: Seq<Pair>, b: Seq<Pair>)
    requires
        nonempty_spans(a),
        nonempty_spans(b),
    ensures
        nonempty_spans(a + b),
{
    assert forall|j: int| 0 <= j < (a + b).len() implies (#[trigger] (a + b)[j]).1.start < (a
        + b)[j].1.end by {
        if j < a.len() {
            assert((a + b)[j] == a[j]);
        } else {
            assert((a + b)[j] == b[j - a.len()]);
        }
    }
}

/// The content tokens verbatim content keeps cover non-empty ranges.
proof fn lemma_vb_run_spans(s: Seq<Pair>, p: int)
    ensures
        nonempty_spans(vb_run(s, p).0),
    decreases s.len() - p,
{
    match vb_step(s, p) {
        Some(x) => {
            assert(nonempty_spans(x.0));
            if p < x.1 <= s.len() {
                lemma_vb_run_spans(s, x.1);
                lemma_nonempty_concat(x.0, vb_run(s, x.1).0);
            }
        },
        None => {},
    }
}

/// The content of every subject/content pair covers non-empty ranges.
proof fn lemma_vb_pairs_spans(s: Seq<Pair>, q: int)
    ensures
        forall|i: int| 0 <= i < spec_vb_pairs(s, q).0.len() ==> nonempty_spans(
            #[trigger] spec_vb_pairs(s, q).0[i].2,
        ),
    decreases s.len() - q,
{
    match spec_vb_pair(s, q) {
        Some(x) => {
            let q1 = run_end(s, q, Kind::Blank);
            let sx = spec_vb_subject(s, q1)->0;
            let q3 = run_end(s, sx.2, Kind::Blank);
            if spec_with_content(s, q3) is Some {
                lemma_vb_run_spans(s, q3 + 1);
            }
            assert(nonempty_spans(x.0.2));
            if q < x.1 <= s.len() {
                lemma_vb_pairs_spans(s, x.1);
                let rest = spec_vb_pairs(s, x.1);
                assert forall|i: int| 0 <= i < spec_vb_pairs(s, q).0.len() implies nonempty_spans(
                    #[trigger] spec_vb_pairs(s, q).0[i].2,
                ) by {
                    if i > 0 {
                        assert(spec_vb_pairs(s, q).0[i] == rest.0[i - 1]);
                    }
                }
            }
        },
        None => {},
    }
}

/// The nodes of the pairs: a subject node and a content node per pair.
proof fn lemma_pair_nodes(prs: Seq<(Seq<Pair>, int, Seq<Pair>)>)
    ensures
        pair_nodes(prs).len() == 2 * prs.len(),
        forall|i: int|
            0 <= i < prs.len() ==> pair_nodes(prs)[2 * i] == nv(
                NodeType::ForeignBlockSubject,
                #[trigger] prs[i].0,
                Seq::empty(),
            ) && pair_nodes(prs)[2 * i + 1] == nv(NodeType::ForeignBlockContent, prs[i].2, Seq::empty()),
    decreases prs.len(),
{
    if prs.len() > 0 {
        lemma_pair_nodes(prs.drop_last());
        let a = pair_nodes(prs.drop_last());
        assert forall|i: int| 0 <= i < prs.len() implies pair_nodes(prs)[2 * i] == nv(
            NodeType::ForeignBlockSubject,
            #[trigger] prs[i].0,
            Seq::empty(),
        ) && pair_nodes(prs)[2 * i + 1] == nv(NodeType::ForeignBlockContent, prs[i].2, Seq::empty()) by {
            if i < prs.len() - 1 {
                assert(prs.drop_last()[i] == prs[i]);
            }
        }
    }
}

/// The shape of a verbatim block: no tokens of its own; a subject node and
/// a content node for each of its one or more pairs, then the closing node;
/// the subjects all at one depth; and content tokens that each cover a
/// non-empty range.
pub proof fn lemma_verbatim_shape(s: Seq<Pair>, p: int)
    requires
        spec_verbatim(s, p) is Some,
    ensures
        ({
            let n = (spec_verbatim(s, p)->0).0;
            let k = spec_vb_pairs(s, p).0.len();
            &&& n.node_type == NodeType::VerbatimBlock
            &&& n.tokens.len() == 0
            &&& k >= 1
            &&& same_depth(spec_vb_pairs(s, p).0)
            &&& n.children.len() == 2 * k + 1
            &&& forall|i: int|
                0 <= i < k ==> (#[trigger] n.children[2 * i]).node_type == NodeType::ForeignBlockSubject
                    && n.children[2 * i + 1].node_type == NodeType::ForeignBlockContent && forall|j: int|
                    0 <= j < n.children[2 * i + 1].tokens.len() ==> (#[trigger] n.children[2 * i
                    + 1].tokens[j]).1.start < n.children[2 * i + 1].tokens[j].1.end
            &&& n.children[2 * k as int].node_type == NodeType::ForeignBlockClosing
        }),
{
    let prs = spec_vb_pairs(s, p).0;
    let n = (spec_verbatim(s, p)->0).0;
    let k = prs.len();
    lemma_pair_nodes(prs);
    lemma_vb_pairs_spans(s, p);
    assert(n.children == pair_nodes(prs).push(n.children[2 * k as int]));
    assert forall|i: int| 0 <= i < k implies (#[trigger] n.children[2 * i]).node_type
        == NodeType::ForeignBlockSubject && n.children[2 * i + 1].node_type
        == NodeType::ForeignBlockContent && forall|j: int|
        0 <= j < n.children[2 * i + 1].tokens.len() ==> (#[trigger] n.children[2 * i
        + 1].tokens[j]).1.start < n.children[2 * i + 1].tokens[j].1.end by {
        assert(n.children[2 * i] == pair_nodes(prs)[2 * i]);
        assert(n.children[2 * i + 1] == pair_nodes(prs)[2 * i + 1]);
        let c = prs[i].2;
        assert(pair_nodes(prs)[2 * i] == nv(NodeType::ForeignBlockSubject, prs[i].0, Seq::empty()));
        assert(pair_nodes(prs)[2 * i + 1] == nv(NodeType::ForeignBlockContent, c, Seq::empty()));
        assert(nonempty_spans(c));
        lemma_pairs_value_index(c);
        assert(n.children[2 * i + 1].tokens == pairs_value(c));
        assert forall|j: int| 0 <= j < pairs_value(c).len() implies (#[trigger] pairs_value(c)[j]).1.start
            < pairs_value(c)[j].1.end by {
            assert(pairs_value(c)[j].1 == c[j].1);
            assert(c[j].1.start < c[j].1.end);
        }
    }
}

/// Indented verbatim content at `q`.
fn verbatim_content(v: &Vec<Pair>, q: usize) -> (r: Option<(Vec<Pair>, usize)>)
    requires
        q <= v@.len(),
    ensures
        pairs_result(r, spec_with_content(v@, q as int)),
        r is Some ==> q < (r->0).1 <= v@.len(),
{
    if tok_is(v, q, Kind::Indent) {
        match verbatim_nested(v, q + 1) {
            Some(x) => {
                let (toks, r) = x;
                if tok_is(v, r, Kind::Dedent) {
                    return Some((toks, r + 1));
                }
            },
            None => {},
        }
    }
    None
}

/// The number of `Indent` or `Indentation` tokens that start the subject
/// tokens `q..e`.
fn subject_indent_depth(v: &Vec<Pair>, q: usize, e: usize) -> (d: usize)
    requires
        q <= e <= v@.len(),
    ensures
        d == (if run_end(v@, q as int, Kind::IndentLike) < e {
            run_end(v@, q as int, Kind::IndentLike) - q
        } else {
            e - q
        }),
{
    let l = scan(v, q, Kind::IndentLike);
    if l < e {
        l - q
    } else {
        e - q
    }
}

/// A verbatim subject at `q`: the end of its tokens, its depth and its end.
fn verbatim_subject(v: &Vec<Pair>, q: usize) -> (r: Option<(usize, usize, usize)>)
    requires
        q <= v@.len(),
    ensures
        match r {
            None => spec_vb_subject(v@, q as int) is None,
            Some(x) => {
                &&& spec_vb_subject(v@, q as int) == Some(
                    (v@.subrange(q as int, x.0 as int), x.1 as int, x.2 as int),
                )
                &&& q < x.0 < x.2 <= v@.len()
            },
        },
{
    let e = scan(v, q, Kind::NotColonOrBlank);
    if q < e && tok_is(v, e, Kind::Colon) {
        let w = scan(v, e + 1, Kind::Space);
        let w2 = if tok_is(v, w, Kind::Blank) {
            w + 1
        } else {
            w
        };
        let d = subject_indent_depth(v, q, e);
        Some((e, d, w2))
    } else {
        None
    }
}

/// A subject/content pair at `q`: where the subject starts and ends, its
/// depth, the content tokens, and the end.
fn verbatim_pair(v: &Vec<Pair>, q: usize) -> (r: Option<(usize, usize, usize, Vec<Pair>, usize)>)
    requires
        q <= v@.len(),
    ensures
        match r {
            None => spec_vb_pair(v@, q as int) is None,
            Some(x) => {
                &&& match spec_vb_pair(v@, q as int) {
                    Some(((t, d, c), end)) => {
                        &&& t == v@.subrange(x.0 as int, x.1 as int)
                        &&& d == x.2
                        &&& pairs_value(x.3@) == pairs_value(c)
                        &&& end == x.4
                    },
                    None => false,
                }
                &&& q <= x.0 < x.1 < x.4 <= v@.len()
            },
        },
{
    let q1 = scan(v, q, Kind::Blank);
    match verbatim_subject(v, q1) {
        Some(x) => {
            let (e, d, w2) = x;
            let q3 = scan(v, w2, Kind::Blank);
            match verbatim_content(v, q3) {
                Some(c) => {
                    let (toks, r) = c;
                    Some((q1, e, d, toks, r))
                },
                None => {
                    let none: Vec<Pair> = Vec::new();
                    proof {
                        assert(pairs_value(none@) =~= pairs_value(Seq::<Pair>::empty()));
                    }
                    Some((q1, e, d, none, q3))
                },
            }
        },
        None => None,
    }
}

/// Parse a verbatim block at `p`.
fn verbatim_block(v: &Vec<Pair>, p: usize) -> (r: Option<(ParseNode, usize)>)
    requires
        p <= v@.len(),
    ensures
        node_result(r, spec_verbatim(v@, p as int)),
        r is Some ==> p < (r->0).1 <= v@.len(),
{
    let ghost s = v@;
    let ghost acc: Seq<(Seq<Pair>, int, Seq<Pair>)> = Seq::empty();
    let mut out: Vec<ParseNode> = Vec::new();
    let mut cur = p;
    let mut count: usize = 0;
    let mut first: usize = 0;
    let mut same = true;
    proof {
        assert(acc + spec_vb_pairs(s, p as int).0 =~= spec_vb_pairs(s, p as int).0);
        assert(trees_value(out@) =~= pair_nodes(acc));
    }
    loop
        invariant
            s == v@,
            p <= cur <= v@.len(),
            count == acc.len(),
            count <= cur - p,
            count > 0 ==> first == acc[0].1,
            same == same_depth(acc),
            trees_value(out@) == pair_nodes(acc),
            acc + spec_vb_pairs(s, cur as int).0 == spec_vb_pairs(s, p as int).0,
            spec_vb_pairs(s, cur as int).1 == spec_vb_pairs(s, p as int).1,
        ensures
            spec_vb_pairs(s, cur as int) == (Seq::<(Seq<Pair>, int, Seq<Pair>)>::empty(), cur as int),
        decreases v@.len() - cur,
    {
        match verbatim_pair(v, cur) {
            Some(x) => {
                let (q1, e, d, toks, r) = x;
                let ghost pr = (spec_vb_pair(s, cur as int)->0).0;
                let none_a: Vec<ParseNode> = Vec::new();
                let none_b: Vec<ParseNode> = Vec::new();
                proof {
                    assert(trees_value(none_a@) =~= Seq::<NodeValue>::empty());
                    assert(trees_value(none_b@) =~= Seq::<NodeValue>::empty());
                }
                let subject = make_node(v, NodeType::ForeignBlockSubject, q1, e, none_a);
                let content = ParseNode::new(NodeType::ForeignBlockContent, toks, none_b);
                proof {
                    let rest = spec_vb_pairs(s, r as int);
                    assert(spec_vb_pairs(s, cur as int) == (seq![pr] + rest.0, rest.1));
                    assert(acc + (seq![pr] + rest.0) =~= acc.push(pr) + rest.0);
                    lemma_trees_value_push(out@, subject);
                    lemma_trees_value_push(out@.push(subject), content);
                    assert(acc.push(pr).drop_last() =~= acc);
                    assert(pair_nodes(acc.push(pr)) =~= trees_value(out@).push(tree_value(subject)).push(
                        tree_value(content),
                    ));
                    if count > 0 {
                        assert(acc.push(pr)[0] == acc[0]);
                    }
                    assert(same_depth(acc.push(pr)) == (same_depth(acc) && (count == 0 || d == first))) by {
                        if same_depth(acc) && (count == 0 || d == first) {
                            assert forall|i: int| 0 <= i < acc.push(pr).len() implies #[trigger] acc.push(
                                pr,
                            )[i].1 == acc.push(pr)[0].1 by {
                                if i < acc.len() {
                                    assert(acc.push(pr)[i] == acc[i]);
                                }
                            }
                        }
                        if same_depth(acc.push(pr)) {
                            assert forall|i: int| 0 <= i < acc.len() implies #[trigger] acc[i].1
                                == acc[0].1 by {
                                assert(acc.push(pr)[i] == acc[i]);
                            }
                            assert(acc.push(pr)[count as int] == pr);
                        }
                    }
                    acc = acc.push(pr);
                }
                if count == 0 {
                    first = d;
                } else if d != first {
                    same = false;
                }
                out.push(subject);
                out.push(content);
                count = count + 1;
                cur = r;
            },
            None => {
                break ;
            },
        }
    }
    proof {
        assert(acc + Seq::<(Seq<Pair>, int, Seq<Pair>)>::empty() =~= acc);
    }
    if count == 0 || !same {
        return None;
    }
    let z = scan(v, cur, Kind::Blank);
    match annotation_header(v, z) {
        Some(h) => {
            let (he, a) = h;
            let (children, end) = inline_content(v, a);
            let closing = make_node(v, NodeType::ForeignBlockClosing, z + 1, he, children);
            proof {
                lemma_trees_value_push(out@, closing);
            }
            out.push(closing);
            Some((ParseNode::new(NodeType::VerbatimBlock, Vec::new(), out), end))
        },
        None => None,
    }
}

/// Two list item lines in a row, each followed by a blank line and not by
/// an indented block, with no list item line after them, make a list of two
/// items, each holding the tokens of its line.
pub proof fn lemma_two_item_list(s: Seq<Pair>, p: int, e1: int, e2: int)
    requires
        0 <= p,
        spec_list_line(s, p) == Some(e1),
        tok_at(s, e1, Kind::Blank),
        !tok_at(s, e1 + 1, Kind::Indent),
        spec_list_line(s, e1 + 1) == Some(e2),
        tok_at(s, e2, Kind::Blank),
        !tok_at(s, e2 + 1, Kind::Indent),
        spec_list_line(s, e2 + 1) is None,
    ensures
        spec_list(s, p) == Some(
            (
                nv(
                    NodeType::List,
                    Seq::empty(),
                    seq![
                        nv(NodeType::ListItem, s.subrange(p, e1), Seq::empty()),
                        nv(NodeType::ListItem, s.subrange(e1 + 1, e2), Seq::empty()),
                    ],
                ),
                e2 + 1,
            ),
        ),
{
    lemma_run_ge(s, p + marker_len(s, p), Kind::TextLike);
    lemma_run_ge(s, e1 + 1 + marker_len(s, e1 + 1), Kind::TextLike);
    let i1 = nv(NodeType::ListItem, s.subrange(p, e1), Seq::empty());
    let i2 = nv(NodeType::ListItem, s.subrange(e1 + 1, e2), Seq::empty());
    assert(spec_block(s, e1 + 1) is None);
    assert(spec_block(s, e2 + 1) is None);
    assert(spec_list_item(s, p) == Some((i1, e1 + 1)));
    assert(spec_list_item(s, e1 + 1) == Some((i2, e2 + 1)));
    assert(spec_list_item(s, e2 + 1) is None);
    assert(spec_list_run(s, e2 + 1) == (Seq::<NodeValue>::empty(), e2 + 1));
    assert(spec_list_run(s, e1 + 1) == (seq![i2] + Seq::<NodeValue>::empty(), e2 + 1));
    assert(seq![i2] + Seq::<NodeValue>::empty() =~= seq![i2]);
    assert(spec_list_run(s, p) == (seq![i1] + seq![i2], e2 + 1));
    assert(seq![i1] + seq![i2] =~= seq![i1, i2]);
}

// ---------------------------------------------------------------------------
// Content items
// ---------------------------------------------------------------------------

/// An indented block at `p`: `Indent`, content items, `Dedent`.
pub open spec fn spec_block(s: Seq<Pair>, p: int) -> Option<(Seq<NodeValue>, int)>
    decreases s.len() - p, 0nat,
{
    if tok_at(s, p, Kind::Indent) {
        match spec_items(s, p + 1) {
            Some(x) => if tok_at(s, x.1, Kind::Dedent) {
                Some((x.0, x.1 + 1))
            } else {
                None
            },
            None => None,
        }
    } else {
        None
    }
}

/// An annotation at `p`: a `:: header ::`, then either a blank line, an
/// optional indented block and a closing `::` (block form), or optional text
/// after a space (single-line form); then an optional blank line.
pub open spec fn spec_annotation(s: Seq<Pair>, p: int) -> Option<(NodeValue, int)>
    decreases s.len() - p, 3nat,
{
    proof {
        lemma_run_ge(s, p + 1, Kind::NotMarkerOrBlank);
    }
    match spec_header(s, p) {
        Some(h) => {
            let q = h.1;
            let block_form = if tok_at(s, q, Kind::Blank) {
                let inner = match spec_block(s, q + 1) {
                    Some(x) => x,
                    None => (Seq::empty(), q + 1),
                };
                if tok_at(s, inner.1, Kind::Marker) {
                    let q3 = inner.1 + 1;
                    let q4 = if tok_at(s, q3, Kind::Blank) {
                        q3 + 1
                    } else {
                        q3
                    };
                    Some((nv(NodeType::Annotation, h.0, inner.0), q4))
                } else {
                    None
                }
            } else {
                None
            };
            if block_form is Some {
                block_form
            } else {
                let c = spec_inline_content(s, q);
                let q2 = if tok_at(s, c.1, Kind::Blank) {
                    c.1 + 1
                } else {
                    c.1
                };
                Some((nv(NodeType::Annotation, h.0, c.0), q2))
            }
        },
        None => None,
    }
}

/// A list item at `p`: a list item line, a blank line, and an optional
/// indented block. The item holds the line's tokens.
pub open spec fn spec_list_item(s: Seq<Pair>, p: int) -> Option<(NodeValue, int)>
    decreases s.len() - p, 1nat,
{
    proof {
        lemma_run_ge(s, p + marker_len(s, p), Kind::TextLike);
    }
    match spec_list_line(s, p) {
        Some(e) => if tok_at(s, e, Kind::Blank) {
            let inner = match spec_block(s, e + 1) {
                Some(x) => x,
                None => (Seq::empty(), e + 1),
            };
            Some((nv(NodeType::ListItem, s.subrange(p, e), inner.0), inner.1))
        } else {
            None
        },
        None => None,
    }
}

/// The greedy repetition of list items at `p`. (A list item always takes
/// at least one token, as `list_item` ensures; the bound on its end only
/// serves to show that the recursion ends.)
pub open spec fn spec_list_run(s: Seq<Pair>, p: int) -> (Seq<NodeValue>, int)
    decreases s.len() - p, 2nat,
{
    match spec_list_item(s, p) {
        Some(x) => if p < x.1 <= s.len() {
            let rest = spec_list_run(s, x.1);
            (seq![x.0] + rest.0, rest.1)
        } else {
            (seq![x.0], x.1)
        },
        None => (Seq::empty(), p),
    }
}

/// A list at `p`: two or more list items.
pub open spec fn spec_list(s: Seq<Pair>, p: int) -> Option<(NodeValue, int)>
    decreases s.len() - p, 3nat,
{
    let r = spec_list_run(s, p);
    if r.0.len() >= 2 {
        Some((nv(NodeType::List, Seq::empty(), r.0), r.1))
    } else {
        None
    }
}

/// A definition at `p`: subject tokens (no colon, no blank line), a colon,
/// a blank line, and an indented block.
pub open spec fn spec_definition(s: Seq<Pair>, p: int) -> Option<(NodeValue, int)>
    decreases s.len() - p, 3nat,
{
    let e = run_end(s, p, Kind::NotColonOrBlank);
    if p < e && tok_at(s, e, Kind::Colon) && tok_at(s, e + 1, Kind::Blank) {
        match spec_block(s, e + 2) {
            Some(x) => Some((nv(NodeType::Definition, s.subrange(p, e), x.0), x.1)),
            None => None,
        }
    } else {
        None
    }
}

/// A session at `p`: a text line, one or more blank lines, and an indented
/// block.
pub open spec fn spec_session(s: Seq<Pair>, p: int) -> Option<(NodeValue, int)>
    decreases s.len() - p, 3nat,
{
    let e = run_end(s, p, Kind::TextLike);
    let f = run_end(s, e, Kind::Blank);
    proof {
        lemma_run_ge(s, e, Kind::Blank);
    }
    if p < e && e < f {
        match spec_block(s, f) {
            Some(x) => Some((nv(NodeType::Session, s.subrange(p, e), x.0), x.1)),
            None => None,
        }
    } else {
        None
    }
}

/// One content item at `p`: the first of a verbatim block, an annotation,
/// a list, a definition, a session and a paragraph that matches.
pub open spec fn spec_single(s: Seq<Pair>, p: int) -> Option<(NodeValue, int)>
    decreases s.len() - p, 4nat,
{
    let vb = spec_verbatim(s, p);
    let an = spec_annotation(s, p);
    let li = spec_list(s, p);
    let de = spec_definition(s, p);
    let se = spec_session(s, p);
    if vb is Some {
        vb
    } else if an is Some {
        an
    } else if li is Some {
        li
    } else if de is Some {
        de
    } else if se is Some {
        se
    } else {
        spec_paragraph(s, p)
    }
}

/// Content items at `p`: blank lines followed by a `Dedent` (left in place,
/// no items) or by items; else an item followed by optional items; else
/// nothing in front of a `Dedent`. (An item always takes at least one token,
/// as `single_item` ensures, so the bound on its end only serves to show
/// that the recursion ends.)
pub open spec fn spec_items(s: Seq<Pair>, p: int) -> Option<(Seq<NodeValue>, int)>
    decreases s.len() - p, 5nat,
{
    let b = run_end(s, p, Kind::Blank);
    proof {
        lemma_run_ge(s, p, Kind::Blank);
    }
    let after_blanks = if p < b {
        if tok_at(s, b, Kind::Dedent) {
            Some((Seq::empty(), b))
        } else {
            spec_items(s, b)
        }
    } else {
        None
    };
    if after_blanks is Some {
        after_blanks
    } else {
        match spec_single(s, p) {
            Some(x) => {
                let rest = if p < x.1 <= s.len() {
                    spec_items(s, x.1)
                } else {
                    None
                };
                match rest {
                    Some(r) => Some((seq![x.0] + r.0, r.1)),
                    None => Some((seq![x.0], x.1)),
                }
            },
            None => if tok_at(s, p, Kind::Dedent) {
                Some((Seq::empty(), p))
            } else {
                None
            },
        }
    }
}

/// The document: the content items at the start, under a `Document` node.
pub open spec fn spec_document(s: Seq<Pair>) -> Option<NodeValue> {
    match spec_items(s, 0) {
        Some(x) => Some(nv(NodeType::Document, Seq::empty(), x.0)),
        None => None,
    }
}

/// The empty node list has no values.
proof fn lemma_no_trees(ps: Seq<ParseNode>)
    requires
        ps.len() == 0,
    ensures
        trees_value(ps) == Seq::<NodeValue>::empty(),
{
}

/// An indented block at `p`.
fn indented_block(v: &Vec<Pair>, p: usize) -> (r: Option<(Vec<ParseNode>, usize)>)
    requires
        p <= v@.len(),
    ensures
        nodes_result(r, spec_block(v@, p as int)),
        r is Some ==> p < (r->0).1 <= v@.len(),
    decreases v@.len() - p, 0nat,
{
    if tok_is(v, p, Kind::Indent) {
        match document_content(v, p + 1) {
            Some(x) => {
                let (items, e) = x;
                if tok_is(v, e, Kind::Dedent) {
                    return Some((items, e + 1));
                }
            },
            None => {},
        }
    }
    None
}

/// An annotation at `p`.
fn annotation(v: &Vec<Pair>, p: usize) -> (r: Option<(ParseNode, usize)>)
    requires
        p <= v@.len(),
    ensures
        node_result(r, spec_annotation(v@, p as int)),
        r is Some ==> p < (r->0).1 <= v@.len(),
    decreases v@.len() - p, 3nat,
{
    let h = match annotation_header(v, p) {
        Some(h) => h,
        None => {
            return None;
        },
    };
    let (he, q) = h;
    if tok_is(v, q, Kind::Blank) {
        let inner = match indented_block(v, q + 1) {
            Some(x) => x,
            None => {
                let none: Vec<ParseNode> = Vec::new();
                proof {
                    lemma_no_trees(none@);
                }
                (none, q + 1)
            },
        };
        let (children, q2) = inner;
        if tok_is(v, q2, Kind::Marker) {
            let q3 = q2 + 1;
            let q4 = if tok_is(v, q3, Kind::Blank) {
                q3 + 1
            } else {
                q3
            };
            return Some((make_node(v, NodeType::Annotation, p + 1, he, children), q4));
        }
    }
    let (children, c) = inline_content(v, q);
    let q2 = if tok_is(v, c, Kind::Blank) {
        c + 1
    } else {
        c
    };
    Some((make_node(v, NodeType::Annotation, p + 1, he, children), q2))
}

/// A list item at `p`.
fn list_item(v: &Vec<Pair>, p: usize) -> (r: Option<(ParseNode, usize)>)
    requires
        p <= v@.len(),
    ensures
        node_result(r, spec_list_item(v@, p as int)),
        r is Some ==> p < (r->0).1 <= v@.len(),
    decreases v@.len() - p, 1nat,
{
    match non_dialog_list_item_line(v, p) {
        Some(e) => {
            if tok_is(v, e, Kind::Blank) {
                let inner = match indented_block(v, e + 1) {
                    Some(x) => x,
                    None => {
                        let none: Vec<ParseNode> = Vec::new();
                        proof {
                            lemma_no_trees(none@);
                        }
                        (none, e + 1)
                    },
                };
                let (children, end) = inner;
                Some((make_node(v, NodeType::ListItem, p, e, children), end))
            } else {
                None
            }
        },
        None => None,
    }
}

/// A list at `p`.
fn list(v: &Vec<Pair>, p: usize) -> (r: Option<(ParseNode, usize)>)
    requires
        p <= v@.len(),
    ensures
        node_result(r, spec_list(v@, p as int)),
        r is Some ==> p < (r->0).1 <= v@.len(),
    decreases v@.len() - p, 3nat,
{
    let ghost s = v@;
    let ghost acc: Seq<NodeValue> = Seq::empty();
    let mut out: Vec<ParseNode> = Vec::new();
    let mut cur = p;
    proof {
        assert(acc + spec_list_run(s, p as int).0 =~= spec_list_run(s, p as int).0);
        lemma_no_trees(out@);
    }
    loop
        invariant
            s == v@,
            p <= cur <= v@.len(),
            out@.len() <= cur - p,
            trees_value(out@) == acc,
            acc + spec_list_run(s, cur as int).0 == spec_list_run(s, p as int).0,
            spec_list_run(s, cur as int).1 == spec_list_run(s, p as int).1,
        ensures
            spec_list_run(s, cur as int) == (Seq::<NodeValue>::empty(), cur as int),
        decreases v@.len() - cur,
    {
        match list_item(v, cur) {
            Some(x) => {
                let (item, next) = x;
                proof {
                    let rest = spec_list_run(s, next as int);
                    assert(acc + (seq![tree_value(item)] + rest.0) =~= acc.push(tree_value(item))
                        + rest.0);
                    lemma_trees_value_push(out@, item);
                    acc = acc.push(tree_value(item));
                }
                out.push(item);
                cur = next;
            },
            None => {
                break ;
            },
        }
    }
    proof {
        assert(acc + Seq::<NodeValue>::empty() =~= acc);
        lemma_trees_value_len(out@);
    }
    if out.len() >= 2 {
        Some((ParseNode::new(NodeType::List, Vec::new(), out), cur))
    } else {
        None
    }
}

/// A definition subject at `p`: subject tokens, a colon and a blank line.
/// The end of the subject tokens.
fn definition_subject(v: &Vec<Pair>, p: usize) -> (r: Option<usize>)
    requires
        p <= v@.len(),
    ensures
        match r {
            None => !(p < run_end(v@, p as int, Kind::NotColonOrBlank) && tok_at(
                v@,
                run_end(v@, p as int, Kind::NotColonOrBlank),
                Kind::Colon,
            ) && tok_at(v@, run_end(v@, p as int, Kind::NotColonOrBlank) + 1, Kind::Blank)),
            Some(e) => {
                &&& e == run_end(v@, p as int, Kind::NotColonOrBlank)
                &&& p < e
                &&& tok_at(v@, e as int, Kind::Colon)
                &&& tok_at(v@, e + 1, Kind::Blank)
                &&& v@.len() <= usize::MAX
            },
        },
{
    let e = scan(v, p, Kind::NotColonOrBlank);
    if p < e && tok_is(v, e, Kind::Colon) && tok_is(v, e + 1, Kind::Blank) {
        Some(e)
    } else {
        None
    }
}

/// A session title at `p`: a text line and one or more blank lines. The
/// end of the title tokens and the end of the blank lines.
fn session_title(v: &Vec<Pair>, p: usize) -> (r: Option<(usize, usize)>)
    requires
        p <= v@.len(),
    ensures
        match r {
            None => !(p < run_end(v@, p as int, Kind::TextLike) && run_end(v@, p as int, Kind::TextLike)
                < run_end(v@, run_end(v@, p as int, Kind::TextLike), Kind::Blank)),
            Some(x) => {
                &&& x.0 == run_end(v@, p as int, Kind::TextLike)
                &&& x.1 == run_end(v@, x.0 as int, Kind::Blank)
                &&& p < x.0 < x.1 <= v@.len()
            },
        },
{
    let e = scan(v, p, Kind::TextLike);
    let f = scan(v, e, Kind::Blank);
    if p < e && e < f {
        Some((e, f))
    } else {
        None
    }
}

/// A definition at `p`.
fn definition(v: &Vec<Pair>, p: usize) -> (r: Option<(ParseNode, usize)>)
    requires
        p <= v@.len(),
    ensures
        node_result(r, spec_definition(v@, p as int)),
        r is Some ==> p < (r->0).1 <= v@.len(),
    decreases v@.len() - p, 3nat,
{
    match definition_subject(v, p) {
        Some(e) => match indented_block(v, e + 2) {
            Some(x) => {
                let (children, end) = x;
                Some((make_node(v, NodeType::Definition, p, e, children), end))
            },
            None => None,
        },
        None => None,
    }
}

/// A session at `p`.
fn session(v: &Vec<Pair>, p: usize) -> (r: Option<(ParseNode, usize)>)
    requires
        p <= v@.len(),
    ensures
        node_result(r, spec_session(v@, p as int)),
        r is Some ==> p < (r->0).1 <= v@.len(),
    decreases v@.len() - p, 3nat,
{
    match session_title(v, p) {
        Some(t) => {
            let (e, f) = t;
            match indented_block(v, f) {
                Some(x) => {
                    let (children, end) = x;
                    Some((make_node(v, NodeType::Session, p, e, children), end))
                },
                None => None,
            }
        },
        None => None,
    }
}

/// One content item at `p`.
fn single_item(v: &Vec<Pair>, p: usize) -> (r: Option<(ParseNode, usize)>)
    requires
        p <= v@.len(),
    ensures
        node_result(r, spec_single(v@, p as int)),
        r is Some ==> p < (r->0).1 <= v@.len(),
    decreases v@.len() - p, 4nat,
{
    let vb = verbatim_block(v, p);
    if vb.is_some() {
        return vb;
    }
    let an = annotation(v, p);
    if an.is_some() {
        return an;
    }
    let li = list(v, p);
    if li.is_some() {
        return li;
    }
    let de = definition(v, p);
    if de.is_some() {
        return de;
    }
    let se = session(v, p);
    if se.is_some() {
        return se;
    }
    paragraph(v, p)
}

/// Content items at `p`.
fn document_content(v: &Vec<Pair>, p: usize) -> (r: Option<(Vec<ParseNode>, usize)>)
    requires
        p <= v@.len(),
    ensures
        nodes_result(r, spec_items(v@, p as int)),
        r is Some ==> p <= (r->0).1 <= v@.len(),
    decreases v@.len() - p, 5nat,
{
    let b = scan(v, p, Kind::Blank);
    if p < b {
        if tok_is(v, b, Kind::Dedent) {
            let none: Vec<ParseNode> = Vec::new();
            proof {
                lemma_no_trees(none@);
            }
            return Some((none, b));
        }
        let inner = document_content(v, b);
        if inner.is_some() {
            return inner;
        }
    }
    match single_item(v, p) {
        Some(x) => {
            let (node, q) = x;
            let mut out: Vec<ParseNode> = Vec::new();
            proof {
                lemma_no_trees(out@);
                lemma_trees_value_push(out@, node);
                assert(Seq::<NodeValue>::empty().push(tree_value(node)) =~= seq![tree_value(node)]);
            }
            out.push(node);
            match document_content(v, q) {
                Some(y) => {
                    let (mut rest, e) = y;
                    proof {
                        lemma_trees_value_concat(out@, rest@);
                    }
                    out.append(&mut rest);
                    Some((out, e))
                },
                None => Some((out, q)),
            }
        },
        None => {
            if tok_is(v, p, Kind::Dedent) {
                let none: Vec<ParseNode> = Vec::new();
                proof {
                    lemma_no_trees(none@);
                }
                Some((none, p))
            } else {
                None
            }
        },
    }
}

/// Parse a token stream into a document node holding its content items.
/// Trailing tokens that form no item are left unread. Fails where no
/// content item, blank-line run or `Dedent` starts the stream (an empty
/// stream included).
pub fn parse(tokens: Vec<Pair>, source: &str) -> (r: Result<ParseNode, ParseError>)
    ensures
        match spec_document(tokens@) {
            Some(d) => r is Ok && tree_value(r->Ok_0) == d,
            None => r is Err && r->Err_0.message@ == "no content item at the start of the token stream"@,
        },
{
    match document_content(&tokens, 0) {
        Some(x) => {
            let (children, _end) = x;
            Ok(ParseNode::new(NodeType::Document, Vec::new(), children))
        },
        None => Err(ParseError { message: "no content item at the start of the token stream".to_owned() }),
    }
}

/// The reference parser found no content at the start of the stream.
#[derive(Debug, PartialEq, Eq)]
pub struct ParseError {
    pub message: String,
}

} // verus!

verus! {

// ---------------------------------------------------------------------------
// Trees the AST builder accepts
// ---------------------------------------------------------------------------

/// The token ranges lie in the source, on character boundaries.
pub open spec fn value_pairs_ok(source: Seq<char>, ts: Seq<(TokenValue, Range<usize>)>) -> bool {
    forall|i: int|
        0 <= i < ts.len() ==> (#[trigger] ts[i]).1.start <= ts[i].1.end && is_text_span(
            source,
            ts[i].1.start as int,
            ts[i].1.end as int,
        )
}

/// A node the AST builder accepts (the value form of `node_ok`): its
/// tokens lie in the source; it is a paragraph; a session, definition or
/// annotation over such nodes; a list of list items over such nodes; or a
/// verbatim block with one subject, one content and a closing node over such
/// nodes.
pub open spec fn value_ok(n: NodeValue, source: Seq<char>) -> bool
    decreases n,
{
    &&& value_pairs_ok(source, n.tokens)
    &&& match n.node_type {
        NodeType::Paragraph => true,
        NodeType::Session | NodeType::Definition | NodeType::Annotation => forall|i: int|
            0 <= i < n.children.len() ==> value_ok(#[trigger] n.children[i], source),
        NodeType::List => forall|i: int|
            0 <= i < n.children.len() ==> {
                &&& (#[trigger] n.children[i]).node_type == NodeType::ListItem
                &&& value_pairs_ok(source, n.children[i].tokens)
                &&& forall|j: int|
                    0 <= j < n.children[i].children.len() ==> value_ok(
                        #[trigger] n.children[i].children[j],
                        source,
                    )
            },
        NodeType::VerbatimBlock => {
            &&& n.children.len() == 3
            &&& n.children[0].node_type == NodeType::ForeignBlockSubject
            &&& value_pairs_ok(source, n.children[0].tokens)
            &&& n.children[1].node_type == NodeType::ForeignBlockContent
            &&& value_pairs_ok(source, n.children[1].tokens)
            &&& n.children[2].node_type == NodeType::ForeignBlockClosing
            &&& value_pairs_ok(source, n.children[2].tokens)
            &&& forall|j: int|
                0 <= j < n.children[2].children.len() ==> value_ok(
                    #[trigger] n.children[2].children[j],
                    source,
                )
        },
        _ => false,
    }
}

/// Every verbatim block in the tree has one subject: three children.
pub open spec fn one_subject(n: NodeValue) -> bool
    decreases n,
{
    &&& (n.node_type == NodeType::VerbatimBlock ==> n.children.len() == 3)
    &&& forall|i: int| 0 <= i < n.children.len() ==> one_subject(#[trigger] n.children[i])
}

proof fn lemma_pairs_ok_value(source: Seq<char>, toks: Seq<Pair>)
    ensures
        pairs_ok(source, toks) == value_pairs_ok(source, pairs_value(toks)),
{
    lemma_pairs_value_index(toks);
    if pairs_ok(source, toks) {
        assert forall|i: int| 0 <= i < pairs_value(toks).len() implies (#[trigger] pairs_value(
            toks,
        )[i]).1.start <= pairs_value(toks)[i].1.end && is_text_span(
            source,
            pairs_value(toks)[i].1.start as int,
            pairs_value(toks)[i].1.end as int,
        ) by {
            assert(pair_ok(source, toks[i]));
        }
    }
    if value_pairs_ok(source, pairs_value(toks)) {
        assert forall|i: int| 0 <= i < toks.len() implies pair_ok(source, #[trigger] toks[i]) by {
            assert(pairs_value(toks)[i].1 == toks[i].1);
        }
    }
}

proof fn lemma_nodes_ok_forall(ms: Seq<ParseNodeModel>, source: Seq<char>)
    ensures
        nodes_ok(ms, source) == forall|i: int| 0 <= i < ms.len() ==> node_ok(#[trigger] ms[i], source),
        items_ok(ms, source) == forall|i: int|
            0 <= i < ms.len() ==> {
                &&& (#[trigger] ms[i]).node_type == NodeType::ListItem
                &&& pairs_ok(source, ms[i].tokens)
                &&& nodes_ok(ms[i].children, source)
            },
    decreases ms.len(),
{
    if ms.len() > 0 {
        let d = ms.drop_last();
        let k = ms.len() - 1;
        lemma_nodes_ok_forall(d, source);
        assert forall|i: int| 0 <= i < k implies #[trigger] d[i] == ms[i] by {}
        if forall|i: int| 0 <= i < ms.len() ==> node_ok(#[trigger] ms[i], source) {
            assert forall|i: int| 0 <= i < d.len() implies node_ok(#[trigger] d[i], source) by {
                assert(d[i] == ms[i]);
            }
            assert(node_ok(ms[k], source));
        }
        if nodes_ok(ms, source) {
            assert forall|i: int| 0 <= i < ms.len() implies node_ok(#[trigger] ms[i], source) by {
                if i < k {
                    assert(d[i] == ms[i]);
                }
            }
        }
        if forall|i: int|
            0 <= i < ms.len() ==> {
                &&& (#[trigger] ms[i]).node_type == NodeType::ListItem
                &&& pairs_ok(source, ms[i].tokens)
                &&& nodes_ok(ms[i].children, source)
            } {
            assert forall|i: int| 0 <= i < d.len() implies {
                &&& (#[trigger] d[i]).node_type == NodeType::ListItem
                &&& pairs_ok(source, d[i].tokens)
                &&& nodes_ok(d[i].children, source)
            } by {
                assert(d[i] == ms[i]);
            }
            assert(ms[k].node_type == NodeType::ListItem);
        }
        if items_ok(ms, source) {
            assert forall|i: int| 0 <= i < ms.len() implies {
                &&& (#[trigger] ms[i]).node_type == NodeType::ListItem
                &&& pairs_ok(source, ms[i].tokens)
                &&& nodes_ok(ms[i].children, source)
            } by {
                if i < k {
                    assert(d[i] == ms[i]);
                }
            }
        }
    }
}

proof fn lemma_all_ok_value(cs: Seq<ParseNode>, source: Seq<char>)
    requires
        pnodes_model(cs).len() == cs.len(),
        trees_value(cs).len() == cs.len(),
        forall|j: int|
            0 <= j < cs.len() ==> node_ok(#[trigger] pnodes_model(cs)[j], source) == value_ok(
                trees_value(cs)[j],
                source,
            ),
        nodes_ok(pnodes_model(cs), source) == forall|j: int|
            0 <= j < cs.len() ==> node_ok(#[trigger] pnodes_model(cs)[j], source),
    ensures
        nodes_ok(pnodes_model(cs), source) == forall|j: int|
            0 <= j < trees_value(cs).len() ==> value_ok(#[trigger] trees_value(cs)[j], source),
{
    if nodes_ok(pnodes_model(cs), source) {
        assert forall|j: int| 0 <= j < trees_value(cs).len() implies value_ok(
            #[trigger] trees_value(cs)[j],
            source,
        ) by {
            assert(node_ok(pnodes_model(cs)[j], source));
        }
    }
    if forall|j: int| 0 <= j < trees_value(cs).len() ==> value_ok(#[trigger] trees_value(cs)[j], source) {
        assert forall|j: int| 0 <= j < cs.len() implies node_ok(#[trigger] pnodes_model(cs)[j], source) by {
            assert(value_ok(trees_value(cs)[j], source));
        }
    }
}

/// A node is accepted by the AST builder exactly when its value is.
pub proof fn lemma_node_ok_value(t: ParseNode, source: Seq<char>)
    ensures
        node_ok(pnode_model(t), source) == value_ok(tree_value(t), source),
    decreases t,
{
    let cs = t.children@;
    assert(decreases_to!(t => t.children));
    assert(decreases_to!(t.children => cs));
    lemma_pnodes_model_index(cs);
    lemma_trees_value_index(cs);
    lemma_nodes_ok_forall(pnodes_model(cs), source);
    lemma_pairs_ok_value(source, t.tokens@);
    assert forall|i: int| 0 <= i < cs.len() implies node_ok(#[trigger] pnodes_model(cs)[i], source)
        == value_ok(trees_value(cs)[i], source) by {
        assert(decreases_to!(cs => cs[i]));
        lemma_node_ok_value(cs[i], source);
    }
    lemma_all_ok_value(cs, source);
    assert forall|i: int| 0 <= i < cs.len() implies {
        &&& nodes_ok(#[trigger] pnodes_model(cs)[i].children, source) == forall|j: int|
            0 <= j < trees_value(cs)[i].children.len() ==> value_ok(
                #[trigger] trees_value(cs)[i].children[j],
                source,
            )
        &&& pairs_ok(source, pnodes_model(cs)[i].tokens) == value_pairs_ok(
            source,
            trees_value(cs)[i].tokens,
        )
    } by {
        let c = cs[i];
        let gs = c.children@;
        assert(pnodes_model(cs)[i] == pnode_model(c));
        assert(pnode_model(c).children == pnodes_model(gs));
        assert(pnode_model(c).tokens == c.tokens@);
        assert(trees_value(cs)[i] == tree_value(c));
        assert(tree_value(c).children == trees_value(gs));
        assert(tree_value(c).tokens == pairs_value(c.tokens@));
        assert(decreases_to!(cs => c));
        assert(decreases_to!(c => c.children));
        assert(decreases_to!(c.children => gs));
        lemma_pnodes_model_index(gs);
        lemma_trees_value_index(gs);
        lemma_nodes_ok_forall(pnodes_model(gs), source);
        lemma_pairs_ok_value(source, c.tokens@);
        assert forall|j: int| 0 <= j < gs.len() implies node_ok(
            #[trigger] pnodes_model(gs)[j],
            source,
        ) == value_ok(trees_value(gs)[j], source) by {
            assert(decreases_to!(gs => gs[j]));
            lemma_node_ok_value(gs[j], source);
        }
        lemma_all_ok_value(gs, source);
    }
    let pm = pnodes_model(cs);
    let tv = trees_value(cs);
    assert(pnode_model(t).children == pm);
    assert(tree_value(t).children == tv);
    assert forall|i: int| 0 <= i < cs.len() implies (#[trigger] pm[i]).node_type == tv[i].node_type by {
        assert(pm[i] == pnode_model(cs[i]));
        assert(tv[i] == tree_value(cs[i]));
    }
    if t.node_type == NodeType::List {
        if items_ok(pm, source) {
            assert forall|i: int| 0 <= i < tv.len() implies {
                &&& (#[trigger] tv[i]).node_type == NodeType::ListItem
                &&& value_pairs_ok(source, tv[i].tokens)
                &&& forall|j: int|
                    0 <= j < tv[i].children.len() ==> value_ok(#[trigger] tv[i].children[j], source)
            } by {
                assert(pm[i].node_type == NodeType::ListItem);
                assert(nodes_ok(pm[i].children, source));
            }
        }
        if forall|i: int|
            0 <= i < tv.len() ==> {
                &&& (#[trigger] tv[i]).node_type == NodeType::ListItem
                &&& value_pairs_ok(source, tv[i].tokens)
                &&& forall|j: int|
                    0 <= j < tv[i].children.len() ==> value_ok(#[trigger] tv[i].children[j], source)
            } {
            assert forall|i: int| 0 <= i < cs.len() implies {
                &&& (#[trigger] pm[i]).node_type == NodeType::ListItem
                &&& pairs_ok(source, pm[i].tokens)
                &&& nodes_ok(pm[i].children, source)
            } by {
                assert(tv[i].node_type == NodeType::ListItem);
            }
        }
    }
    if t.node_type == NodeType::VerbatimBlock && cs.len() == 3 {
        assert(pm[0].node_type == tv[0].node_type);
        assert(pm[1].node_type == tv[1].node_type);
        assert(pm[2].node_type == tv[2].node_type);
        assert(nodes_ok(pm[2].children, source) == forall|j: int|
            0 <= j < tv[2].children.len() ==> value_ok(#[trigger] tv[2].children[j], source));
    }
}

// ---------------------------------------------------------------------------
// What the parser produces
// ---------------------------------------------------------------------------

/// The node is accepted by the AST builder if its verbatim blocks have one
/// subject each.
pub open spec fn good(n: NodeValue, source: Seq<char>) -> bool {
    one_subject(n) ==> value_ok(n, source)
}

/// Every node is good.
pub open spec fn all_good(ns: Seq<NodeValue>, source: Seq<char>) -> bool {
    forall|i: int| 0 <= i < ns.len() ==> good(#[trigger] ns[i], source)
}

proof fn lemma_sub_ok(source: Seq<char>, s: Seq<Pair>, a: int, b: int)
    requires
        pairs_ok(source, s),
        0 <= a <= b <= s.len(),
    ensures
        pairs_ok(source, s.subrange(a, b)),
        value_pairs_ok(source, pairs_value(s.subrange(a, b))),
{
    assert forall|i: int| 0 <= i < b - a implies pair_ok(source, #[trigger] s.subrange(a, b)[i]) by {
        assert(s.subrange(a, b)[i] == s[a + i]);
    }
    lemma_pairs_ok_value(source, s.subrange(a, b));
}

proof fn lemma_concat_ok(source: Seq<char>, x: Seq<Pair>, y: Seq<Pair>)
    requires
        pairs_ok(source, x),
        pairs_ok(source, y),
    ensures
        pairs_ok(source, x + y),
{
    assert forall|i: int| 0 <= i < (x + y).len() implies pair_ok(source, #[trigger] (x + y)[i]) by {
        if i < x.len() {
            assert((x + y)[i] == x[i]);
        } else {
            assert((x + y)[i] == y[i - x.len()]);
        }
    }
}

proof fn lemma_paragraph_good(s: Seq<Pair>, p: int, source: Seq<char>)
    requires
        pairs_ok(source, s),
        0 <= p <= s.len(),
    ensures
        spec_paragraph(s, p) is Some ==> good((spec_paragraph(s, p)->0).0, source)
            && p < (spec_paragraph(s, p)->0).1 <= s.len(),
{
    lemma_para_end(s, p);
    if spec_paragraph(s, p) is Some {
        lemma_sub_ok(source, s, p, para_end(s, p));
    }
}

proof fn lemma_inline_good(s: Seq<Pair>, a: int, source: Seq<char>)
    requires
        pairs_ok(source, s),
        0 <= a <= s.len(),
    ensures
        all_good(spec_inline_content(s, a).0, source),
        forall|j: int|
            0 <= j < spec_inline_content(s, a).0.len() ==> value_ok(
                #[trigger] spec_inline_content(s, a).0[j],
                source,
            ),
        a <= spec_inline_content(s, a).1 <= s.len(),
{
    lemma_run_ge(s, a + 1, Kind::TextLike);
    let e = run_end(s, a + 1, Kind::TextLike);
    if tok_at(s, a, Kind::Space) && a + 1 < e {
        lemma_sub_ok(source, s, a + 1, e);
        let n = nv(NodeType::Paragraph, s.subrange(a + 1, e), Seq::empty());
        assert(value_ok(n, source));
        assert(spec_inline_content(s, a).0 == seq![n]);
    }
}

proof fn lemma_vb_ok(s: Seq<Pair>, p: int, source: Seq<char>)
    requires
        pairs_ok(source, s),
        0 <= p <= s.len(),
    ensures
        vb_step(s, p) is Some ==> pairs_ok(source, (vb_step(s, p)->0).0),
        pairs_ok(source, vb_run(s, p).0),
        vb_nested(s, p) is Some ==> pairs_ok(source, (vb_nested(s, p)->0).0),
    decreases s.len() - p,
{
    lemma_vb_bounds(s, p);
    if tok_at(s, p, Kind::Indent) {
        lemma_vb_ok(s, p + 1, source);
    }
    if 0 <= p < s.len() {
        assert(pair_ok(source, s[p]));
        assert(pairs_ok(source, keep(s[p])));
    }
    assert(pairs_ok(source, Seq::<Pair>::empty()));
    match vb_step(s, p) {
        Some(x) => if p < x.1 <= s.len() {
            lemma_vb_ok(s, x.1, source);
            lemma_concat_ok(source, x.0, vb_run(s, x.1).0);
        },
        None => {},
    }
}

proof fn lemma_pair_nodes_len(prs: Seq<(Seq<Pair>, int, Seq<Pair>)>)
    ensures
        pair_nodes(prs).len() == 2 * prs.len(),
    decreases prs.len(),
{
    if prs.len() > 0 {
        lemma_pair_nodes_len(prs.drop_last());
    }
}

proof fn lemma_vb_pairs_ok(s: Seq<Pair>, q: int, source: Seq<char>)
    requires
        pairs_ok(source, s),
        0 <= q <= s.len(),
    ensures
        forall|i: int|
            0 <= i < spec_vb_pairs(s, q).0.len() ==> pairs_ok(
                source,
                (#[trigger] spec_vb_pairs(s, q).0[i]).0,
            ) && pairs_ok(source, spec_vb_pairs(s, q).0[i].2),
        q <= spec_vb_pairs(s, q).1 <= s.len(),
    decreases s.len() - q,
{
    lemma_run_ge(s, q, Kind::Blank);
    let q1 = run_end(s, q, Kind::Blank);
    lemma_run_ge(s, q1, Kind::NotColonOrBlank);
    match spec_vb_subject(s, q1) {
        Some(x) => {
            let e = run_end(s, q1, Kind::NotColonOrBlank);
            lemma_sub_ok(source, s, q1, e);
            lemma_run_ge(s, e + 1, Kind::Space);
            lemma_run_ge(s, x.2, Kind::Blank);
            let q3 = run_end(s, x.2, Kind::Blank);
            assert(pairs_ok(source, Seq::<Pair>::empty()));
            if tok_at(s, q3, Kind::Indent) {
                lemma_vb_ok(s, q3 + 1, source);
                lemma_vb_bounds(s, q3 + 1);
            }
            let pr = (spec_vb_pair(s, q)->0).0;
            assert(pairs_ok(source, pr.0) && pairs_ok(source, pr.2));
            let r = (spec_vb_pair(s, q)->0).1;
            if q < r <= s.len() {
                lemma_vb_pairs_ok(s, r, source);
                let rest = spec_vb_pairs(s, r).0;
                assert forall|i: int| 0 <= i < spec_vb_pairs(s, q).0.len() implies pairs_ok(
                    source,
                    (#[trigger] spec_vb_pairs(s, q).0[i]).0,
                ) && pairs_ok(source, spec_vb_pairs(s, q).0[i].2) by {
                    if i > 0 {
                        assert(spec_vb_pairs(s, q).0[i] == rest[i - 1]);
                    }
                }
            }
        },
        None => {},
    }
}

proof fn lemma_verbatim_good(s: Seq<Pair>, p: int, source: Seq<char>)
    requires
        pairs_ok(source, s),
        0 <= p <= s.len(),
    ensures
        spec_verbatim(s, p) is Some ==> good((spec_verbatim(s, p)->0).0, source)
            && p <= (spec_verbatim(s, p)->0).1 <= s.len(),
{
    lemma_vb_pairs_ok(s, p, source);
    let prs = spec_vb_pairs(s, p);
    lemma_run_ge(s, prs.1, Kind::Blank);
    let z = run_end(s, prs.1, Kind::Blank);
    lemma_run_ge(s, z + 1, Kind::NotMarkerOrBlank);
    if spec_verbatim(s, p) is Some {
        let h = spec_header(s, z)->0;
        let e = run_end(s, z + 1, Kind::NotMarkerOrBlank);
        lemma_sub_ok(source, s, z + 1, e);
        lemma_inline_good(s, h.1, source);
        let c = spec_inline_content(s, h.1);
        let n = (spec_verbatim(s, p)->0).0;
        lemma_pair_nodes_len(prs.0);
        if one_subject(n) {
            assert(prs.0.len() == 1);
            let pr = prs.0[0];
            assert(prs.0.drop_last() =~= Seq::<(Seq<Pair>, int, Seq<Pair>)>::empty());
            assert(pair_nodes(prs.0) =~= seq![
                nv(NodeType::ForeignBlockSubject, pr.0, Seq::empty()),
                nv(NodeType::ForeignBlockContent, pr.2, Seq::empty()),
            ]);
            lemma_pairs_ok_value(source, pr.0);
            lemma_pairs_ok_value(source, pr.2);
            assert(n.children[0] == nv(NodeType::ForeignBlockSubject, pr.0, Seq::empty()));
            assert(n.children[1] == nv(NodeType::ForeignBlockContent, pr.2, Seq::empty()));
            assert(n.children[2] == nv(NodeType::ForeignBlockClosing, h.0, c.0));
            assert(value_pairs_ok(source, pairs_value(Seq::<Pair>::empty())));
            assert(value_ok(n, source));
        }
    }
}

/// A list item node whose tokens lie in the source and whose children are
/// good.
pub open spec fn item_good(n: NodeValue, source: Seq<char>) -> bool {
    &&& n.node_type == NodeType::ListItem
    &&& value_pairs_ok(source, n.tokens)
    &&& all_good(n.children, source)
}

proof fn lemma_container_good(n: NodeValue, source: Seq<char>)
    requires
        n.node_type == NodeType::Session || n.node_type == NodeType::Definition || n.node_type
            == NodeType::Annotation,
        value_pairs_ok(source, n.tokens),
        all_good(n.children, source),
    ensures
        good(n, source),
{
    if one_subject(n) {
        assert forall|i: int| 0 <= i < n.children.len() implies value_ok(#[trigger] n.children[i], source) by {
            assert(one_subject(n.children[i]));
            assert(good(n.children[i], source));
        }
    }
}

proof fn lemma_block_good(s: Seq<Pair>, p: int, source: Seq<char>)
    requires
        pairs_ok(source, s),
        0 <= p <= s.len(),
    ensures
        spec_block(s, p) is Some ==> all_good((spec_block(s, p)->0).0, source),
    decreases s.len() - p, 0nat,
{
    if tok_at(s, p, Kind::Indent) {
        lemma_items_good(s, p + 1, source);
    }
}

proof fn lemma_annotation_good(s: Seq<Pair>, p: int, source: Seq<char>)
    requires
        pairs_ok(source, s),
        0 <= p <= s.len(),
    ensures
        spec_annotation(s, p) is Some ==> good((spec_annotation(s, p)->0).0, source),
    decreases s.len() - p, 3nat,
{
    lemma_run_ge(s, p + 1, Kind::NotMarkerOrBlank);
    if spec_header(s, p) is Some {
        let e = run_end(s, p + 1, Kind::NotMarkerOrBlank);
        let q = e + 1;
        lemma_sub_ok(source, s, p + 1, e);
        if tok_at(s, q, Kind::Blank) {
            lemma_block_good(s, q + 1, source);
        }
        lemma_inline_good(s, q, source);
        assert(all_good(Seq::<NodeValue>::empty(), source));
        let n = (spec_annotation(s, p)->0).0;
        lemma_container_good(n, source);
    }
}

proof fn lemma_list_item_good(s: Seq<Pair>, p: int, source: Seq<char>)
    requires
        pairs_ok(source, s),
        0 <= p <= s.len(),
    ensures
        spec_list_item(s, p) is Some ==> item_good((spec_list_item(s, p)->0).0, source),
    decreases s.len() - p, 1nat,
{
    lemma_run_ge(s, p + marker_len(s, p), Kind::TextLike);
    match spec_list_line(s, p) {
        Some(e) => if tok_at(s, e, Kind::Blank) {
            lemma_sub_ok(source, s, p, e);
            lemma_block_good(s, e + 1, source);
            assert(all_good(Seq::<NodeValue>::empty(), source));
        },
        None => {},
    }
}

proof fn lemma_list_run_good(s: Seq<Pair>, p: int, source: Seq<char>)
    requires
        pairs_ok(source, s),
        0 <= p <= s.len(),
    ensures
        forall|i: int|
            0 <= i < spec_list_run(s, p).0.len() ==> item_good(#[trigger] spec_list_run(s, p).0[i], source),
    decreases s.len() - p, 2nat,
{
    lemma_list_item_good(s, p, source);
    match spec_list_item(s, p) {
        Some(x) => if p < x.1 <= s.len() {
            lemma_list_run_good(s, x.1, source);
            let rest = spec_list_run(s, x.1).0;
            assert forall|i: int| 0 <= i < spec_list_run(s, p).0.len() implies item_good(
                #[trigger] spec_list_run(s, p).0[i],
                source,
            ) by {
                if i > 0 {
                    assert(spec_list_run(s, p).0[i] == rest[i - 1]);
                }
            }
        },
        None => {},
    }
}

proof fn lemma_list_good(s: Seq<Pair>, p: int, source: Seq<char>)
    requires
        pairs_ok(source, s),
        0 <= p <= s.len(),
    ensures
        spec_list(s, p) is Some ==> good((spec_list(s, p)->0).0, source),
    decreases s.len() - p, 3nat,
{
    lemma_list_run_good(s, p, source);
    if spec_list(s, p) is Some {
        let n = (spec_list(s, p)->0).0;
        let items = spec_list_run(s, p).0;
        assert(value_pairs_ok(source, pairs_value(Seq::<Pair>::empty())));
        if one_subject(n) {
            assert forall|i: int| 0 <= i < n.children.len() implies {
                &&& (#[trigger] n.children[i]).node_type == NodeType::ListItem
                &&& value_pairs_ok(source, n.children[i].tokens)
                &&& forall|j: int|
                    0 <= j < n.children[i].children.len() ==> value_ok(
                        #[trigger] n.children[i].children[j],
                        source,
                    )
            } by {
                let it = n.children[i];
                assert(item_good(items[i], source));
                assert(one_subject(it));
                assert forall|j: int| 0 <= j < it.children.len() implies value_ok(
                    #[trigger] it.children[j],
                    source,
                ) by {
                    assert(one_subject(it.children[j]));
                    assert(good(it.children[j], source));
                }
            }
            assert(value_ok(n, source));
        }
    }
}

proof fn lemma_definition_good(s: Seq<Pair>, p: int, source: Seq<char>)
    requires
        pairs_ok(source, s),
        0 <= p <= s.len(),
    ensures
        spec_definition(s, p) is Some ==> good((spec_definition(s, p)->0).0, source),
    decreases s.len() - p, 3nat,
{
    lemma_run_ge(s, p, Kind::NotColonOrBlank);
    let e = run_end(s, p, Kind::NotColonOrBlank);
    if p < e && tok_at(s, e, Kind::Colon) && tok_at(s, e + 1, Kind::Blank) {
        lemma_block_good(s, e + 2, source);
        if spec_definition(s, p) is Some {
            lemma_sub_ok(source, s, p, e);
            lemma_container_good((spec_definition(s, p)->0).0, source);
        }
    }
}

proof fn lemma_session_good(s: Seq<Pair>, p: int, source: Seq<char>)
    requires
        pairs_ok(source, s),
        0 <= p <= s.len(),
    ensures
        spec_session(s, p) is Some ==> good((spec_session(s, p)->0).0, source),
    decreases s.len() - p, 3nat,
{
    lemma_run_ge(s, p, Kind::TextLike);
    let e = run_end(s, p, Kind::TextLike);
    lemma_run_ge(s, e, Kind::Blank);
    let f = run_end(s, e, Kind::Blank);
    if p < e && e < f {
        lemma_block_good(s, f, source);
        if spec_session(s, p) is Some {
            lemma_sub_ok(source, s, p, e);
            lemma_container_good((spec_session(s, p)->0).0, source);
        }
    }
}

proof fn lemma_single_good(s: Seq<Pair>, p: int, source: Seq<char>)
    requires
        pairs_ok(source, s),
        0 <= p <= s.len(),
    ensures
        spec_single(s, p) is Some ==> good((spec_single(s, p)->0).0, source),
    decreases s.len() - p, 4nat,
{
    lemma_verbatim_good(s, p, source);
    lemma_annotation_good(s, p, source);
    lemma_list_good(s, p, source);
    lemma_definition_good(s, p, source);
    lemma_session_good(s, p, source);
    lemma_paragraph_good(s, p, source);
}

proof fn lemma_items_good(s: Seq<Pair>, p: int, source: Seq<char>)
    requires
        pairs_ok(source, s),
        0 <= p <= s.len(),
    ensures
        spec_items(s, p) is Some ==> all_good((spec_items(s, p)->0).0, source),
    decreases s.len() - p, 5nat,
{
    lemma_run_ge(s, p, Kind::Blank);
    let b = run_end(s, p, Kind::Blank);
    assert(all_good(Seq::<NodeValue>::empty(), source));
    if p < b && !tok_at(s, b, Kind::Dedent) {
        lemma_items_good(s, b, source);
    }
    lemma_single_good(s, p, source);
    match spec_single(s, p) {
        Some(x) => {
            if p < x.1 <= s.len() {
                lemma_items_good(s, x.1, source);
                match spec_items(s, x.1) {
                    Some(r) => {
                        assert forall|i: int| 0 <= i < (seq![x.0] + r.0).len() implies good(
                            #[trigger] (seq![x.0] + r.0)[i],
                            source,
                        ) by {
                            if i > 0 {
                                assert((seq![x.0] + r.0)[i] == r.0[i - 1]);
                            }
                        }
                    },
                    None => {},
                }
            }
            assert(seq![x.0][0] == x.0);
        },
        None => {},
    }
}

/// The document of a token stream whose tokens lie in the source: if its
/// verbatim blocks each have one subject, the AST builder accepts every
/// content node of it.
pub proof fn lemma_document_buildable(s: Seq<Pair>, source: Seq<char>)
    requires
        pairs_ok(source, s),
        spec_document(s) is Some,
        one_subject(spec_document(s)->0),
    ensures
        forall|i: int|
            0 <= i < (spec_document(s)->0).children.len() ==> value_ok(
                #[trigger] (spec_document(s)->0).children[i],
                source,
            ),
{
    lemma_items_good(s, 0, source);
    let d = spec_document(s)->0;
    assert forall|i: int| 0 <= i < d.children.len() implies value_ok(#[trigger] d.children[i], source) by {
        assert(one_subject(d.children[i]));
        assert(good(d.children[i], source));
    }
}

/// Nodes whose values the AST builder accepts are accepted by it.
pub proof fn lemma_values_buildable(cs: Seq<ParseNode>, source: Seq<char>)
    requires
        forall|i: int|
            0 <= i < trees_value(cs).len() ==> value_ok(#[trigger] trees_value(cs)[i], source),
    ensures
        nodes_ok(pnodes_model(cs), source),
{
    lemma_pnodes_model_index(cs);
    lemma_trees_value_index(cs);
    lemma_nodes_ok_forall(pnodes_model(cs), source);
    assert forall|i: int| 0 <= i < cs.len() implies node_ok(#[trigger] pnodes_model(cs)[i], source) by {
        lemma_node_ok_value(cs[i], source);
        assert(value_ok(trees_value(cs)[i], source));
    }
}

} // verus!
