//! Grouping of a flat token sequence into classified lines.
//!
//! Tokens are gathered into lines ended by `Newline`; each line is classified
//! (blank, annotation end, annotation start, list item with subject, list
//! item, subject, paragraph, in that order of precedence). The structural
//! tokens `Indent`, `Dedent` and `BlankLine` each become a node of their own.

use crate::mapper::{StreamMapper, TransformationError};
use crate::stream::{ground_pairs, lemma_nodes_model_push, node_model, nodes_model, NodeModel, TokenStream, TokenStreamNode};
use crate::adapters_linebased::unzip_pairs;
use crate::tokens::{zip_pairs, zip_spec, LineType, Token};
use std::ops::Range;
use vstd::prelude::*;
use vstd::utf8::encode_utf8;

verus! {

/// The grouping transformation.
pub struct ToLineTokensMapper;

// ---------------------------------------------------------------------------
// Classification
// ---------------------------------------------------------------------------

/// The UTF-8 bytes of a string.
pub open spec fn text_bytes(s: String) -> Seq<u8> {
    encode_utf8(s@)
}

/// A byte that is an ASCII letter.
pub open spec fn is_ascii_letter(b: u8) -> bool {
    (0x41 <= b <= 0x5a) || (0x61 <= b <= 0x7a)
}

/// A byte that is one of the Roman numeral letters I, V, X, L, C, D, M.
pub open spec fn is_roman_byte(b: u8) -> bool {
    b == 0x49 || b == 0x56 || b == 0x58 || b == 0x4c || b == 0x43 || b == 0x44 || b == 0x4d
}

/// The text is a single letter.
pub open spec fn spec_is_single_letter(s: String) -> bool {
    text_bytes(s).len() == 1 && is_ascii_letter(text_bytes(s)[0])
}

/// The text is a non-empty run of Roman numeral letters.
pub open spec fn spec_is_roman_numeral(s: String) -> bool {
    text_bytes(s).len() > 0 && forall|i: int|
        0 <= i < text_bytes(s).len() ==> is_roman_byte(#[trigger] text_bytes(s)[i])
}

/// Leading space: indentation or whitespace.
pub open spec fn is_space(t: Token) -> bool {
    t is Indentation || t is Whitespace
}

/// The first position at or after `i` that is not leading space.
pub open spec fn skip_space(s: Seq<Token>, i: int) -> int
    decreases s.len() - i,
{
    if 0 <= i < s.len() && is_space(s[i]) {
        skip_space(s, i + 1)
    } else {
        i
    }
}

/// The number of tokens left once trailing newlines and whitespace are cut.
pub open spec fn trim_end(s: Seq<Token>, i: int) -> int
    decreases i,
{
    if 0 < i <= s.len() && (s[i - 1] is Newline || s[i - 1] is Whitespace) {
        trim_end(s, i - 1)
    } else {
        i
    }
}

/// Only whitespace, indentation, newlines and blank lines.
pub open spec fn line_is_blank(s: Seq<Token>) -> bool {
    forall|i: int|
        0 <= i < s.len() ==> (#[trigger] s[i] is Whitespace || s[i] is Indentation || s[i]
            is Newline || s[i] is BlankLine)
}

/// Exactly one token other than whitespace, newlines and indentation, and it
/// is the `::` marker.
pub open spec fn line_is_annotation_end(s: Seq<Token>) -> bool {
    exists|c: int|
        0 <= c < s.len() && #[trigger] s[c] is LexMarker && forall|j: int|
            0 <= j < s.len() && j != c ==> (#[trigger] s[j] is Whitespace || s[j] is Newline
                || s[j] is Indentation)
}

/// After leading space comes a `::` marker, then whitespace or the end of the
/// line, and a second `::` marker follows somewhere later.
pub open spec fn line_is_annotation_start(s: Seq<Token>) -> bool {
    let f = skip_space(s, 0);
    &&& f < s.len()
    &&& s[f] is LexMarker
    &&& (f + 1 >= s.len() || s[f + 1] is Whitespace)
    &&& exists|j: int| f < j < s.len() && #[trigger] s[j] is LexMarker
}

/// A token that can open an ordered list marker: a number, a single letter,
/// or a Roman numeral.
pub open spec fn is_ordered_marker_start(t: Token) -> bool {
    match t {
        Token::Number(_) => true,
        Token::Text(x) => spec_is_single_letter(x) || spec_is_roman_numeral(x),
        _ => false,
    }
}

/// After leading space comes `-` and whitespace, or an ordered marker, `.` or
/// `)`, and whitespace.
pub open spec fn line_has_list_marker(s: Seq<Token>) -> bool {
    let i = skip_space(s, 0);
    ||| (i + 1 < s.len() && s[i] is Dash && s[i + 1] is Whitespace)
    ||| (i + 2 < s.len() && is_ordered_marker_start(s[i]) && (s[i + 1] is Period || s[i + 1]
        is CloseParen) && s[i + 2] is Whitespace)
}

/// The last token before trailing whitespace and newlines is a colon.
pub open spec fn line_ends_with_colon(s: Seq<Token>) -> bool {
    let k = trim_end(s, s.len() as int);
    k > 0 && s[k - 1] is Colon
}

/// The type of a line, by the rules in order of precedence.
pub open spec fn line_type_of(s: Seq<Token>) -> LineType {
    if s.len() == 0 {
        LineType::ParagraphLine
    } else if line_is_blank(s) {
        LineType::BlankLine
    } else if line_is_annotation_end(s) {
        LineType::AnnotationEndLine
    } else if line_is_annotation_start(s) {
        LineType::AnnotationStartLine
    } else if line_has_list_marker(s) && line_ends_with_colon(s) {
        LineType::SubjectOrListItemLine
    } else if line_has_list_marker(s) {
        LineType::ListLine
    } else if line_ends_with_colon(s) {
        LineType::SubjectLine
    } else {
        LineType::ParagraphLine
    }
}

/// Whether a text is a single letter.
pub fn is_single_letter(s: &String) -> (r: bool)
    ensures
        r == spec_is_single_letter(*s),
{
    let b = s.as_str().as_bytes();
    b.len() == 1 && ((0x41 <= b[0] && b[0] <= 0x5a) || (0x61 <= b[0] && b[0] <= 0x7a))
}

/// Whether a text is a non-empty run of Roman numeral letters.
pub fn is_roman_numeral(s: &String) -> (r: bool)
    ensures
        r == spec_is_roman_numeral(*s),
{
    let b = s.as_str().as_bytes();
    if b.len() == 0 {
        return false;
    }
    let mut i: usize = 0;
    while i < b.len()
        invariant
            i <= b@.len(),
            b@ == text_bytes(*s),
            forall|j: int| 0 <= j < i ==> is_roman_byte(#[trigger] b@[j]),
        decreases b@.len() - i,
    {
        let c = b[i];
        if !(c == 0x49 || c == 0x56 || c == 0x58 || c == 0x4c || c == 0x43 || c == 0x44 || c
            == 0x4d) {
            return false;
        }
        i = i + 1;
    }
    true
}

/// The first position at or after `i` that is not leading space.
fn first_non_space(tokens: &[Token], i: usize) -> (r: usize)
    requires
        i <= tokens@.len(),
    ensures
        r == skip_space(tokens@, i as int),
        i <= r <= tokens@.len(),
    decreases tokens@.len() - i,
{
    if i < tokens.len() && matches!(tokens[i], Token::Indentation | Token::Whitespace) {
        first_non_space(tokens, i + 1)
    } else {
        i
    }
}

fn is_blank_line(tokens: &[Token]) -> (r: bool)
    ensures
        r == line_is_blank(tokens@),
{
    let mut i: usize = 0;
    while i < tokens.len()
        invariant
            i <= tokens@.len(),
            forall|j: int|
                0 <= j < i ==> (#[trigger] tokens@[j] is Whitespace || tokens@[j] is Indentation
                    || tokens@[j] is Newline || tokens@[j] is BlankLine),
        decreases tokens@.len() - i,
    {
        if !matches!(
            tokens[i],
            Token::Whitespace | Token::Indentation | Token::Newline | Token::BlankLine(_)
        ) {
            return false;
        }
        i = i + 1;
    }
    true
}

fn is_annotation_end_line(tokens: &[Token]) -> (r: bool)
    ensures
        r == line_is_annotation_end(tokens@),
{
    let ghost s = tokens@;
    let mut count: usize = 0;
    let mut marker_at: usize = 0;
    let mut i: usize = 0;
    while i < tokens.len()
        invariant
            i <= s.len(),
            s == tokens@,
            count <= i,
            count == 0 ==> forall|j: int|
                0 <= j < i ==> (#[trigger] s[j] is Whitespace || s[j] is Newline || s[j]
                    is Indentation),
            count == 1 ==> marker_at < i && !(s[marker_at as int] is Whitespace
                || s[marker_at as int] is Newline || s[marker_at as int] is Indentation)
                && forall|j: int|
                0 <= j < i && j != marker_at ==> (#[trigger] s[j] is Whitespace || s[j]
                    is Newline || s[j] is Indentation),
            count >= 2 ==> !line_is_annotation_end(s),
        decreases s.len() - i,
    {
        if !matches!(tokens[i], Token::Whitespace | Token::Newline | Token::Indentation) {
            if count == 0 {
                marker_at = i;
                count = 1;
            } else {
                proof {
                    if count == 1 {
                        assert(!line_is_annotation_end(s)) by {
                            if line_is_annotation_end(s) {
                                let c = choose|c: int|
                                    0 <= c < s.len() && #[trigger] s[c] is LexMarker && forall|
                                        j: int,
                                    |
                                        0 <= j < s.len() && j != c ==> (#[trigger] s[j]
                                            is Whitespace || s[j] is Newline || s[j]
                                            is Indentation);
                                assert(c == marker_at as int || c == i as int);
                            }
                        }
                    }
                }
                count = 2;
            }
        }
        i = i + 1;
    }
    if count == 1 {
        matches!(tokens[marker_at], Token::LexMarker)
    } else {
        proof {
            if count == 0 && line_is_annotation_end(s) {
                let c = choose|c: int|
                    0 <= c < s.len() && #[trigger] s[c] is LexMarker && forall|j: int|
                        0 <= j < s.len() && j != c ==> (#[trigger] s[j] is Whitespace || s[j]
                            is Newline || s[j] is Indentation);
                assert(s[c] is LexMarker);
            }
        }
        false
    }
}

fn is_annotation_start_line(tokens: &[Token]) -> (r: bool)
    ensures
        r == line_is_annotation_start(tokens@),
{
    let ghost s = tokens@;
    let f = first_non_space(tokens, 0);
    if f >= tokens.len() {
        return false;
    }
    if !matches!(tokens[f], Token::LexMarker) {
        return false;
    }
    if f + 1 < tokens.len() && !matches!(tokens[f + 1], Token::Whitespace) {
        return false;
    }
    let mut j: usize = f + 1;
    while j < tokens.len()
        invariant
            f < j <= s.len(),
            s == tokens@,
            f == skip_space(s, 0),
            s[f as int] is LexMarker,
            f + 1 >= s.len() || s[f + 1] is Whitespace,
            forall|k: int| f < k < j ==> !(#[trigger] s[k] is LexMarker),
        decreases s.len() - j,
    {
        if matches!(tokens[j], Token::LexMarker) {
            return true;
        }
        j = j + 1;
    }
    false
}

fn is_ordered_start(t: &Token) -> (r: bool)
    ensures
        r == is_ordered_marker_start(*t),
{
    match t {
        Token::Number(_) => true,
        Token::Text(x) => is_single_letter(x) || is_roman_numeral(x),
        _ => false,
    }
}

fn has_list_marker(tokens: &[Token]) -> (r: bool)
    ensures
        r == line_has_list_marker(tokens@),
{
    let i = first_non_space(tokens, 0);
    let n = tokens.len();
    if i < n && n - i > 1 && matches!(tokens[i], Token::Dash) && matches!(
        tokens[i + 1],
        Token::Whitespace
    ) {
        return true;
    }
    if i < n && n - i > 2 {
        let start = is_ordered_start(&tokens[i]);
        let sep = matches!(tokens[i + 1], Token::Period | Token::CloseParen);
        let space = matches!(tokens[i + 2], Token::Whitespace);
        if start && sep && space {
            return true;
        }
    }
    false
}

fn ends_with_colon(tokens: &[Token]) -> (r: bool)
    ensures
        r == line_ends_with_colon(tokens@),
{
    let ghost s = tokens@;
    let mut i: usize = tokens.len();
    while i > 0 && matches!(tokens[i - 1], Token::Newline | Token::Whitespace)
        invariant
            i <= s.len(),
            s == tokens@,
            trim_end(s, i as int) == trim_end(s, s.len() as int),
        decreases i,
    {
        i = i - 1;
    }
    i > 0 && matches!(tokens[i - 1], Token::Colon)
}

/// The type of a line of tokens. In order of precedence: an empty line is a
/// paragraph line; only whitespace and newlines make a blank line; a lone
/// `::` ends an annotation; `:: label ::` starts one; a list marker together
/// with a final colon is a subject-or-list-item line; a list marker alone a
/// list line; a final colon alone a subject line; anything else a paragraph
/// line.
pub fn classify_line_tokens(tokens: &[Token]) -> (r: LineType)
    ensures
        r == line_type_of(tokens@),
{
    if tokens.len() == 0 {
        return LineType::ParagraphLine;
    }
    if is_blank_line(tokens) {
        return LineType::BlankLine;
    }
    if is_annotation_end_line(tokens) {
        return LineType::AnnotationEndLine;
    }
    if is_annotation_start_line(tokens) {
        return LineType::AnnotationStartLine;
    }
    let list = has_list_marker(tokens);
    let colon = ends_with_colon(tokens);
    if list && colon {
        return LineType::SubjectOrListItemLine;
    }
    if list {
        return LineType::ListLine;
    }
    if colon {
        return LineType::SubjectLine;
    }
    LineType::ParagraphLine
}


// ---------------------------------------------------------------------------
// Grouping
// ---------------------------------------------------------------------------

/// The tokens of a sequence of pairs.
pub open spec fn pair_tokens(s: Seq<(Token, Range<usize>)>) -> Seq<Token> {
    s.map_values(|p: (Token, Range<usize>)| p.0)
}

/// The node of one gathered line, classified by its tokens.
pub open spec fn line_node(cur: Seq<(Token, Range<usize>)>) -> NodeModel {
    NodeModel {
        tokens: cur,
        children: None,
        line_type: Some(line_type_of(pair_tokens(cur))),
    }
}

/// The nodes so far, with the gathered line added when it has any token.
pub open spec fn flush_line(done: Seq<NodeModel>, cur: Seq<(Token, Range<usize>)>) -> Seq<
    NodeModel,
> {
    if cur.len() > 0 {
        done.push(line_node(cur))
    } else {
        done
    }
}

/// One grouping step over the state (finished nodes, current line): a
/// structural token ends the current line and becomes a node of its own
/// (`Indent` and `BlankLine` holding the source tokens they carry, `Dedent`
/// holding itself); a newline joins the current line and ends it; any other
/// token joins the current line.
pub open spec fn group_step(
    st: (Seq<NodeModel>, Seq<(Token, Range<usize>)>),
    p: (Token, Range<usize>),
) -> (Seq<NodeModel>, Seq<(Token, Range<usize>)>) {
    match p.0 {
        Token::Indent(v) => (
            flush_line(st.0, st.1).push(
                NodeModel { tokens: v@, children: None, line_type: Some(LineType::Indent) },
            ),
            Seq::empty(),
        ),
        Token::Dedent(_) => (
            flush_line(st.0, st.1).push(
                NodeModel { tokens: seq![p], children: None, line_type: Some(LineType::Dedent) },
            ),
            Seq::empty(),
        ),
        Token::BlankLine(v) => (
            flush_line(st.0, st.1).push(
                NodeModel { tokens: v@, children: None, line_type: Some(LineType::BlankLine) },
            ),
            Seq::empty(),
        ),
        Token::Newline => (flush_line(st.0, st.1.push(p)), Seq::empty()),
        _ => (st.0, st.1.push(p)),
    }
}

/// The grouping state after the given pairs.
pub open spec fn group_run(s: Seq<(Token, Range<usize>)>) -> (Seq<NodeModel>, Seq<(Token, Range<usize>)>)
    decreases s.len(),
{
    if s.len() == 0 {
        (Seq::empty(), Seq::empty())
    } else {
        group_step(group_run(s.drop_last()), s.last())
    }
}

/// The line nodes of a flat sequence of pairs: the grouping state at the end,
/// with a last line that lacks a newline added.
pub open spec fn group_lines(s: Seq<(Token, Range<usize>)>) -> Seq<NodeModel> {
    let st = group_run(s);
    flush_line(st.0, st.1)
}

proof fn lemma_zip_of_unzip(s: Seq<(Token, Range<usize>)>)
    ensures
        zip_spec(
            s.map_values(|p: (Token, Range<usize>)| p.0),
            s.map_values(|p: (Token, Range<usize>)| p.1),
        ) == s,
{
    assert(zip_spec(
        s.map_values(|p: (Token, Range<usize>)| p.0),
        s.map_values(|p: (Token, Range<usize>)| p.1),
    ) =~= s);
}

/// The node of a gathered line.
fn make_line_node(cur: Vec<(Token, Range<usize>)>) -> (n: TokenStreamNode)
    ensures
        node_model(n) == line_node(cur@),
{
    let ghost c = cur@;
    let (toks, spans) = unzip_pairs(cur);
    let line_type = classify_line_tokens(toks.as_slice());
    let tokens = zip_pairs(toks, spans);
    proof {
        lemma_zip_of_unzip(c);
    }
    TokenStreamNode { tokens, children: None, line_type: Some(line_type) }
}

/// Add the gathered line, if any, to the nodes.
fn flush(nodes: &mut Vec<TokenStreamNode>, cur: Vec<(Token, Range<usize>)>)
    ensures
        nodes_model(final(nodes)@) == flush_line(nodes_model(old(nodes)@), cur@),
{
    if cur.len() > 0 {
        let ghost before = nodes@;
        let node = make_line_node(cur);
        nodes.push(node);
        proof {
            lemma_nodes_model_push(before, node);
        }
    }
}

/// Group a flat sequence of pairs into classified line nodes.
pub fn group_into_lines(tokens: Vec<(Token, Range<usize>)>) -> (r: Vec<TokenStreamNode>)
    ensures
        nodes_model(r@) == group_lines(tokens@),
{
    let ghost inp = tokens@;
    let n = tokens.len();
    let mut nodes: Vec<TokenStreamNode> = Vec::new();
    let mut current: Vec<(Token, Range<usize>)> = Vec::new();
    let mut i: usize = 0;
    proof {
        assert(inp.take(0) =~= Seq::<(Token, Range<usize>)>::empty());
    }
    for p in it: tokens.into_iter()
        invariant
            i == it.index(),
            it.seq() == inp,
            n == inp.len(),
            i <= n,
            nodes_model(nodes@) == group_run(inp.take(i as int)).0,
            current@ == group_run(inp.take(i as int)).1,
    {
        let ghost st = group_run(inp.take(i as int));
        proof {
            assert(inp.take(i + 1).drop_last() =~= inp.take(i as int));
            assert(inp.take(i + 1).last() == p);
        }
        let (token, span) = p;
        match token {
            Token::Indent(sources) => {
                let line = current;
                current = Vec::new();
                flush(&mut nodes, line);
                let ghost before = nodes@;
                let node = TokenStreamNode {
                    tokens: sources,
                    children: None,
                    line_type: Some(LineType::Indent),
                };
                nodes.push(node);
                proof {
                    lemma_nodes_model_push(before, node);
                }
            },
            Token::Dedent(sources) => {
                let line = current;
                current = Vec::new();
                flush(&mut nodes, line);
                let ghost before = nodes@;
                let mut v: Vec<(Token, Range<usize>)> = Vec::new();
                v.push((Token::Dedent(sources), span));
                let node = TokenStreamNode {
                    tokens: v,
                    children: None,
                    line_type: Some(LineType::Dedent),
                };
                nodes.push(node);
                proof {
                    lemma_nodes_model_push(before, node);
                    assert(node.tokens@ =~= seq![p]);
                }
            },
            Token::BlankLine(sources) => {
                let line = current;
                current = Vec::new();
                flush(&mut nodes, line);
                let ghost before = nodes@;
                let node = TokenStreamNode {
                    tokens: sources,
                    children: None,
                    line_type: Some(LineType::BlankLine),
                };
                nodes.push(node);
                proof {
                    lemma_nodes_model_push(before, node);
                }
            },
            Token::Newline => {
                current.push((Token::Newline, span));
                let line = current;
                current = Vec::new();
                flush(&mut nodes, line);
            },
            other => {
                current.push((other, span));
            },
        }
        i = i + 1;
    }
    proof {
        assert(inp.take(n as int) =~= inp);
    }
    flush(&mut nodes, current);
    nodes
}

impl ToLineTokensMapper {
    pub fn new() -> (r: ToLineTokensMapper) {
        ToLineTokensMapper
    }
}

impl StreamMapper for ToLineTokensMapper {
    /// Group the flat sequence into classified line nodes.
    fn map_flat(&mut self, tokens: Vec<(Token, Range<usize>)>) -> (r: Result<
        TokenStream,
        TransformationError,
    >)
        ensures
            r is Ok && r->Ok_0 is Tree && nodes_model(r->Ok_0->Tree_0@) == group_lines(tokens@),
    {
        Ok(TokenStream::Tree(group_into_lines(tokens)))
    }
}

} // verus!

verus! {

/// The pairs of childless nodes, one node after the other.
pub open spec fn models_pairs(ms: Seq<NodeModel>) -> Seq<(Token, Range<usize>)>
    decreases ms.len(),
{
    if ms.len() == 0 {
        Seq::empty()
    } else {
        models_pairs(ms.drop_last()) + ms.last().tokens
    }
}

/// Adding the gathered line adds its pairs.
proof fn lemma_flush_pairs(done: Seq<NodeModel>, cur: Seq<(Token, Range<usize>)>)
    ensures
        models_pairs(flush_line(done, cur)) == models_pairs(done) + cur,
{
    if cur.len() > 0 {
        assert(done.push(line_node(cur)).drop_last() =~= done);
    } else {
        assert(models_pairs(done) + cur =~= models_pairs(done));
    }
}

/// The grouping state holds every source pair seen so far: the pairs of the
/// finished nodes, then those of the current line.
proof fn lemma_group_run_pairs(s: Seq<(Token, Range<usize>)>)
    ensures
        models_pairs(group_run(s).0) + group_run(s).1 == ground_pairs(s),
    decreases s.len(),
{
    if s.len() == 0 {
        assert(models_pairs(Seq::<NodeModel>::empty()) + Seq::<(Token, Range<usize>)>::empty()
            =~= Seq::<(Token, Range<usize>)>::empty());
    } else {
        let p = s.last();
        let st = group_run(s.drop_last());
        lemma_group_run_pairs(s.drop_last());
        lemma_flush_pairs(st.0, st.1);
        lemma_flush_pairs(st.0, st.1.push(p));
        let f = flush_line(st.0, st.1);
        match p.0 {
            Token::Indent(v) => {
                let n = NodeModel { tokens: v@, children: None, line_type: Some(LineType::Indent) };
                assert(f.push(n).drop_last() =~= f);
                assert(models_pairs(f.push(n)) + Seq::<(Token, Range<usize>)>::empty() =~= models_pairs(
                    st.0,
                ) + st.1 + v@);
            },
            Token::Dedent(_) => {
                let n = NodeModel { tokens: seq![p], children: None, line_type: Some(LineType::Dedent) };
                assert(f.push(n).drop_last() =~= f);
                assert(models_pairs(f.push(n)) + Seq::<(Token, Range<usize>)>::empty() =~= models_pairs(
                    st.0,
                ) + st.1 + seq![p]);
            },
            Token::BlankLine(v) => {
                let n = NodeModel { tokens: v@, children: None, line_type: Some(LineType::BlankLine) };
                assert(f.push(n).drop_last() =~= f);
                assert(models_pairs(f.push(n)) + Seq::<(Token, Range<usize>)>::empty() =~= models_pairs(
                    st.0,
                ) + st.1 + v@);
            },
            Token::Newline => {
                assert(models_pairs(flush_line(st.0, st.1.push(p))) + Seq::<(Token, Range<usize>)>::empty()
                    =~= models_pairs(st.0) + st.1 + seq![p]);
            },
            _ => {
                assert(models_pairs(st.0) + st.1.push(p) =~= models_pairs(st.0) + st.1 + seq![p]);
            },
        }
    }
}

/// Grouping into lines keeps the source: the pairs of the line nodes, one
/// line after the other, are the source pairs behind the input (indent and
/// blank-line tokens standing for the pairs they carry), ranges included.
pub proof fn lemma_group_lines_keep_source(s: Seq<(Token, Range<usize>)>)
    ensures
        models_pairs(group_lines(s)) == ground_pairs(s),
{
    lemma_group_run_pairs(s);
    lemma_flush_pairs(group_run(s).0, group_run(s).1);
}

/// A newline occurs among the pairs at most as the last one.
pub open spec fn newline_only_last(t: Seq<(Token, Range<usize>)>) -> bool {
    forall|j: int| 0 <= j < t.len() - 1 ==> !((#[trigger] t[j]).0 is Newline)
}

/// A node of the grouping: it has no nested stream, and unless it stands for
/// an `Indent` or `BlankLine` token (holding the pairs that token carries), a
/// newline occurs in it only as its last token.
pub open spec fn grouped_node(n: NodeModel) -> bool {
    &&& n.children is None
    &&& (n.line_type == Some(LineType::Indent) || n.line_type == Some(LineType::BlankLine)
        || newline_only_last(n.tokens))
}

proof fn lemma_group_run_shape(s: Seq<(Token, Range<usize>)>)
    ensures
        forall|i: int| 0 <= i < group_run(s).0.len() ==> grouped_node(#[trigger] group_run(s).0[i]),
        forall|j: int| 0 <= j < group_run(s).1.len() ==> !((#[trigger] group_run(s).1[j]).0 is Newline),
    decreases s.len(),
{
    if s.len() > 0 {
        lemma_group_run_shape(s.drop_last());
        let st = group_run(s.drop_last());
        let p = s.last();
        let f = flush_line(st.0, st.1);
        assert forall|i: int| 0 <= i < f.len() implies grouped_node(#[trigger] f[i]) by {
            if i == st.0.len() {
                assert(f[i] == line_node(st.1));
            }
        }
        match p.0 {
            Token::Newline => {
                let c = st.1.push(p);
                let g = flush_line(st.0, c);
                assert(g[st.0.len() as int] == line_node(c));
                assert forall|i: int| 0 <= i < g.len() implies grouped_node(#[trigger] g[i]) by {
                    if i == st.0.len() {
                        assert(newline_only_last(c));
                    }
                }
            },
            Token::Indent(_) => {},
            Token::Dedent(_) => {},
            Token::BlankLine(_) => {},
            _ => {},
        }
    }
}

/// Grouping into lines gives nodes without nested streams, in which a
/// newline occurs only as the last token (apart from the nodes that stand
/// for `Indent` and `BlankLine` tokens and hold the pairs those carry).
pub proof fn lemma_group_lines_shape(s: Seq<(Token, Range<usize>)>)
    ensures
        forall|i: int| 0 <= i < group_lines(s).len() ==> grouped_node(#[trigger] group_lines(s)[i]),
{
    lemma_group_run_shape(s);
    let st = group_run(s);
    let g = group_lines(s);
    assert forall|i: int| 0 <= i < g.len() implies grouped_node(#[trigger] g[i]) by {
        if i == st.0.len() {
            assert(g[i] == line_node(st.1));
        }
    }
}

} // verus!
