//! Extraction of plain data (text and byte ranges) from token sequences.
//!
//! The text of a token sequence is the source text of its bounding box: from
//! the smallest start to the largest end of its tokens' ranges.

use crate::location::{max_or_zero, min_or_zero};
use crate::text::{is_text_span, lemma_utf8_concat, substring, utf8};
use crate::tokens::Token;
use std::ops::Range as ByteRange;
use vstd::prelude::*;

verus! {

/// The start offsets of the pairs.
pub open spec fn starts_of(s: Seq<(Token, ByteRange<usize>)>) -> Seq<usize> {
    s.map_values(|p: (Token, ByteRange<usize>)| p.1.start)
}

/// The end offsets of the pairs.
pub open spec fn ends_of(s: Seq<(Token, ByteRange<usize>)>) -> Seq<usize> {
    s.map_values(|p: (Token, ByteRange<usize>)| p.1.end)
}

/// The bounding box of the pairs' ranges: smallest start to largest end
/// (`0..0` for no pairs).
pub open spec fn spec_bounding_box(s: Seq<(Token, ByteRange<usize>)>) -> ByteRange<usize> {
    ByteRange { start: min_or_zero(starts_of(s)), end: max_or_zero(ends_of(s)) }
}

/// The bounding box of the pairs lies on character boundaries of the source.
pub open spec fn box_in_text(source: Seq<char>, s: Seq<(Token, ByteRange<usize>)>) -> bool {
    is_text_span(source, spec_bounding_box(s).start as int, spec_bounding_box(s).end as int)
}

/// The source bytes covered by the bounding box of the pairs.
pub open spec fn box_bytes(source: Seq<char>, s: Seq<(Token, ByteRange<usize>)>) -> Seq<u8> {
    utf8(source).subrange(spec_bounding_box(s).start as int, spec_bounding_box(s).end as int)
}

/// The bounding box of the tokens' ranges.
pub fn compute_bounding_box(tokens: &[(Token, ByteRange<usize>)]) -> (r: ByteRange<usize>)
    ensures
        r == spec_bounding_box(tokens@),
{
    let ghost ts = tokens@;
    let mut lo: usize = 0;
    let mut hi: usize = 0;
    let mut i: usize = 0;
    while i < tokens.len()
        invariant
            i <= ts.len(),
            ts == tokens@,
            lo == min_or_zero(starts_of(ts.take(i as int))),
            hi == max_or_zero(ends_of(ts.take(i as int))),
        decreases ts.len() - i,
    {
        proof {
            let t = ts.take(i + 1);
            assert(t.drop_last() =~= ts.take(i as int));
            assert(starts_of(t).drop_last() =~= starts_of(ts.take(i as int)));
            assert(ends_of(t).drop_last() =~= ends_of(ts.take(i as int)));
        }
        let s = tokens[i].1.start;
        let e = tokens[i].1.end;
        if i == 0 {
            lo = s;
            hi = e;
        } else {
            if s < lo {
                lo = s;
            }
            if e > hi {
                hi = e;
            }
        }
        i = i + 1;
    }
    proof {
        assert(ts.take(ts.len() as int) =~= ts);
    }
    ByteRange { start: lo, end: hi }
}

/// The source text of a byte range.
pub fn extract_text(range: ByteRange<usize>, source: &str) -> (r: String)
    requires
        is_text_span(source@, range.start as int, range.end as int),
    ensures
        utf8(r@) == utf8(source@).subrange(range.start as int, range.end as int),
{
    substring(source, range.start, range.end)
}

/// The text and byte range of each paragraph line, and the overall range.
#[derive(Debug)]
pub struct ParagraphData {
    pub text_lines: Vec<(String, ByteRange<usize>)>,
    pub overall_byte_range: ByteRange<usize>,
}

/// The title text of a session and its byte range.
#[derive(Debug)]
pub struct SessionData {
    pub title_text: String,
    pub title_byte_range: ByteRange<usize>,
}

/// The subject text of a definition and its byte range.
#[derive(Debug)]
pub struct DefinitionData {
    pub subject_text: String,
    pub subject_byte_range: ByteRange<usize>,
}

/// The text of a list item's line (marker included) and its byte range.
#[derive(Debug)]
pub struct ListItemData {
    pub marker_text: String,
    pub marker_byte_range: ByteRange<usize>,
}

/// The label text of an annotation and its byte range.
#[derive(Debug)]
pub struct AnnotationData {
    pub label_text: String,
    pub label_byte_range: ByteRange<usize>,
}

/// The subject and content of a verbatim block, the content with its
/// indentation wall removed.
#[derive(Debug)]
pub struct ForeignBlockData {
    pub subject_text: String,
    pub subject_byte_range: ByteRange<usize>,
    pub content_text: String,
    pub content_byte_range: ByteRange<usize>,
}

/// All pairs of the lines, one line after the other.
pub open spec fn flatten_lines(ls: Seq<Vec<(Token, ByteRange<usize>)>>) -> Seq<(Token, ByteRange<usize>)>
    decreases ls.len(),
{
    if ls.len() == 0 {
        Seq::empty()
    } else {
        flatten_lines(ls.drop_last()) + ls.last()@
    }
}

/// Every line's bounding box lies on character boundaries of the source.
pub open spec fn lines_in_text(source: Seq<char>, ls: Seq<Vec<(Token, ByteRange<usize>)>>) -> bool {
    forall|i: int| 0 <= i < ls.len() ==> box_in_text(source, #[trigger] ls[i]@)
}

/// The text and range of one line.
fn line_text(tokens: &Vec<(Token, ByteRange<usize>)>, source: &str) -> (r: (String, ByteRange<usize>))
    requires
        box_in_text(source@, tokens@),
    ensures
        r.1 == spec_bounding_box(tokens@),
        utf8(r.0@) == box_bytes(source@, tokens@),
{
    let b = compute_bounding_box(tokens.as_slice());
    let t = extract_text(ByteRange { start: b.start, end: b.end }, source);
    (t, b)
}

/// Move all pairs of the lines into one sequence, in order.
fn flatten_vecs(lines: Vec<Vec<(Token, ByteRange<usize>)>>) -> (r: Vec<(Token, ByteRange<usize>)>)
    ensures
        r@ == flatten_lines(lines@),
{
    let ghost ls = lines@;
    let n = lines.len();
    let mut out: Vec<(Token, ByteRange<usize>)> = Vec::new();
    let mut i: usize = 0;
    for line in it: lines.into_iter()
        invariant
            i == it.index(),
            it.seq() == ls,
            n == ls.len(),
            i <= n,
            out@ == flatten_lines(ls.take(i as int)),
    {
        proof {
            assert(ls.take(i + 1).drop_last() =~= ls.take(i as int));
            assert(ls.take(i + 1).last() == line);
        }
        let mut l = line;
        out.append(&mut l);
        i = i + 1;
    }
    proof {
        assert(ls.take(n as int) =~= ls);
    }
    out
}

/// The text and range of each line of a paragraph, and the range of all its
/// tokens (`0..0` when there are none).
pub fn extract_paragraph_data(
    token_lines: Vec<Vec<(Token, ByteRange<usize>)>>,
    source: &str,
) -> (r: ParagraphData)
    requires
        lines_in_text(source@, token_lines@),
    ensures
        r.text_lines@.len() == token_lines@.len(),
        forall|i: int|
            0 <= i < token_lines@.len() ==> (#[trigger] r.text_lines@[i]).1 == spec_bounding_box(
                token_lines@[i]@,
            ) && utf8(r.text_lines@[i].0@) == box_bytes(source@, token_lines@[i]@),
        r.overall_byte_range == spec_bounding_box(flatten_lines(token_lines@)),
{
    let ghost ls = token_lines@;
    let mut text_lines: Vec<(String, ByteRange<usize>)> = Vec::new();
    let mut i: usize = 0;
    while i < token_lines.len()
        invariant
            i <= ls.len(),
            ls == token_lines@,
            lines_in_text(source@, ls),
            text_lines@.len() == i,
            forall|j: int|
                0 <= j < i ==> (#[trigger] text_lines@[j]).1 == spec_bounding_box(ls[j]@) && utf8(
                    text_lines@[j].0@,
                ) == box_bytes(source@, ls[j]@),
        decreases ls.len() - i,
    {
        assert(box_in_text(source@, ls[i as int]@));
        let t = line_text(&token_lines[i], source);
        text_lines.push(t);
        i = i + 1;
    }
    let all = flatten_vecs(token_lines);
    let overall = compute_bounding_box(all.as_slice());
    ParagraphData { text_lines, overall_byte_range: overall }
}

/// The title text and range of a session.
pub fn extract_session_data(tokens: Vec<(Token, ByteRange<usize>)>, source: &str) -> (r: SessionData)
    requires
        box_in_text(source@, tokens@),
    ensures
        r.title_byte_range == spec_bounding_box(tokens@),
        utf8(r.title_text@) == box_bytes(source@, tokens@),
{
    let (t, b) = line_text(&tokens, source);
    SessionData { title_text: t, title_byte_range: b }
}

/// The subject text and range of a definition.
pub fn extract_definition_data(tokens: Vec<(Token, ByteRange<usize>)>, source: &str) -> (r:
    DefinitionData)
    requires
        box_in_text(source@, tokens@),
    ensures
        r.subject_byte_range == spec_bounding_box(tokens@),
        utf8(r.subject_text@) == box_bytes(source@, tokens@),
{
    let (t, b) = line_text(&tokens, source);
    DefinitionData { subject_text: t, subject_byte_range: b }
}

/// The line text and range of a list item.
pub fn extract_list_item_data(tokens: Vec<(Token, ByteRange<usize>)>, source: &str) -> (r:
    ListItemData)
    requires
        box_in_text(source@, tokens@),
    ensures
        r.marker_byte_range == spec_bounding_box(tokens@),
        utf8(r.marker_text@) == box_bytes(source@, tokens@),
{
    let (t, b) = line_text(&tokens, source);
    ListItemData { marker_text: t, marker_byte_range: b }
}

/// The label text and range of an annotation.
pub fn extract_annotation_data(tokens: Vec<(Token, ByteRange<usize>)>, source: &str) -> (r:
    AnnotationData)
    requires
        box_in_text(source@, tokens@),
    ensures
        r.label_byte_range == spec_bounding_box(tokens@),
        utf8(r.label_text@) == box_bytes(source@, tokens@),
{
    let (t, b) = line_text(&tokens, source);
    AnnotationData { label_text: t, label_byte_range: b }
}

/// An indentation token: `Indent` or `Indentation`.
pub open spec fn is_indent_token(t: Token) -> bool {
    t is Indent || t is Indentation
}

/// The number of indentation tokens at the start of a line.
pub open spec fn leading_indents(s: Seq<(Token, ByteRange<usize>)>) -> nat
    decreases s.len(),
{
    if s.len() > 0 && is_indent_token(s[0].0) {
        1 + leading_indents(s.drop_first())
    } else {
        0
    }
}

/// The indentation wall: the least number of leading indentation tokens over
/// the lines (0 for no lines).
pub open spec fn spec_indentation_wall(ls: Seq<Seq<(Token, ByteRange<usize>)>>) -> nat
    decreases ls.len(),
{
    if ls.len() == 0 {
        0
    } else if ls.len() == 1 {
        leading_indents(ls[0])
    } else if leading_indents(ls.last()) < spec_indentation_wall(ls.drop_last()) {
        leading_indents(ls.last())
    } else {
        spec_indentation_wall(ls.drop_last())
    }
}

/// The pair sequences of the vectors.
pub open spec fn vec_seqs(ls: Seq<Vec<(Token, ByteRange<usize>)>>) -> Seq<Seq<(Token, ByteRange<usize>)>> {
    ls.map_values(|v: Vec<(Token, ByteRange<usize>)>| v@)
}

/// The number of leading indentation tokens of a line.
fn count_leading_indents(tokens: &Vec<(Token, ByteRange<usize>)>) -> (r: usize)
    ensures
        r == leading_indents(tokens@),
{
    let ghost s = tokens@;
    let mut i: usize = 0;
    while i < tokens.len() && matches!(tokens[i].0, Token::Indent(_) | Token::Indentation)
        invariant
            i <= s.len(),
            s == tokens@,
            forall|j: int| 0 <= j < i ==> is_indent_token(#[trigger] s[j].0),
        decreases s.len() - i,
    {
        i = i + 1;
    }
    proof {
        lemma_leading_indents_exact(s, i as int);
    }
    i
}

proof fn lemma_leading_indents_exact(s: Seq<(Token, ByteRange<usize>)>, k: int)
    requires
        0 <= k <= s.len(),
        forall|j: int| 0 <= j < k ==> is_indent_token(#[trigger] s[j].0),
        k == s.len() || !is_indent_token(s[k].0),
    ensures
        leading_indents(s) == k,
    decreases k,
{
    if k > 0 {
        let d = s.drop_first();
        assert forall|j: int| 0 <= j < k - 1 implies is_indent_token(#[trigger] d[j].0) by {
            assert(d[j] == s[j + 1]);
        }
        if k - 1 < d.len() {
            assert(d[k - 1] == s[k]);
        }
        lemma_leading_indents_exact(d, k - 1);
    }
}

/// The indentation wall of the content lines: the least number of leading
/// indentation tokens over the lines (0 for no lines).
pub fn calculate_indentation_wall(content_token_lines: &[Vec<(Token, ByteRange<usize>)>]) -> (r:
    usize)
    ensures
        r == spec_indentation_wall(vec_seqs(content_token_lines@)),
{
    let ghost ls = vec_seqs(content_token_lines@);
    let mut wall: usize = 0;
    let mut i: usize = 0;
    while i < content_token_lines.len()
        invariant
            i <= ls.len(),
            ls == vec_seqs(content_token_lines@),
            wall == spec_indentation_wall(ls.take(i as int)),
        decreases ls.len() - i,
    {
        proof {
            let t = ls.take(i + 1);
            assert(t.drop_last() =~= ls.take(i as int));
            assert(t.last() == ls[i as int]);
        }
        let c = count_leading_indents(&content_token_lines[i]);
        if i == 0 || c < wall {
            wall = c;
        }
        i = i + 1;
    }
    proof {
        assert(ls.take(ls.len() as int) =~= ls);
    }
    wall
}

/// The line without its first `k` tokens, where `k` is the wall depth or the
/// number of leading indentation tokens, whichever is smaller.
pub open spec fn strip_wall(s: Seq<(Token, ByteRange<usize>)>, wall: nat) -> Seq<(Token, ByteRange<usize>)> {
    let k = if leading_indents(s) < wall { leading_indents(s) } else { wall };
    s.skip(k as int)
}

/// Remove up to `wall_depth` leading indentation tokens from a line.
fn strip_indentation_wall(tokens: Vec<(Token, ByteRange<usize>)>, wall_depth: usize) -> (r: Vec<
    (Token, ByteRange<usize>),
>)
    ensures
        r@ == strip_wall(tokens@, wall_depth as nat),
{
    let ghost s = tokens@;
    let lead = count_leading_indents(&tokens);
    let k = if lead < wall_depth {
        lead
    } else {
        wall_depth
    };
    let n = tokens.len();
    let mut out: Vec<(Token, ByteRange<usize>)> = Vec::new();
    let mut i: usize = 0;
    proof {
        lemma_leading_indents_bound(s);
    }
    for p in it: tokens.into_iter()
        invariant
            i == it.index(),
            it.seq() == s,
            n == s.len(),
            i <= n,
            k <= n,
            out@ == (if i <= k { Seq::empty() } else { s.subrange(k as int, i as int) }),
    {
        if i >= k {
            proof {
                assert(s.subrange(k as int, i + 1) =~= (if i <= k { Seq::empty() } else { s.subrange(k as int, i as int) }).push(p));
            }
            out.push(p);
        }
        i = i + 1;
    }
    proof {
        if n <= k {
            assert(s.skip(k as int) =~= Seq::<(Token, ByteRange<usize>)>::empty());
        } else {
            assert(s.skip(k as int) =~= s.subrange(k as int, n as int));
        }
    }
    out
}

pub proof fn lemma_leading_indents_bound(s: Seq<(Token, ByteRange<usize>)>)
    ensures
        leading_indents(s) <= s.len(),
    decreases s.len(),
{
    if s.len() > 0 && is_indent_token(s[0].0) {
        lemma_leading_indents_bound(s.drop_first());
    }
}

/// The bytes of one content line's text: nothing for an empty line.
pub open spec fn content_line_bytes(source: Seq<char>, s: Seq<(Token, ByteRange<usize>)>) -> Seq<u8> {
    if s.len() == 0 {
        Seq::empty()
    } else {
        box_bytes(source, s)
    }
}

/// The bytes of the content lines' texts joined by newlines.
pub open spec fn joined_content_bytes(source: Seq<char>, ls: Seq<Seq<(Token, ByteRange<usize>)>>) -> Seq<u8>
    decreases ls.len(),
{
    if ls.len() == 0 {
        Seq::empty()
    } else if ls.len() == 1 {
        content_line_bytes(source, ls[0])
    } else {
        joined_content_bytes(source, ls.drop_last()) + utf8("\n"@) + content_line_bytes(
            source,
            ls.last(),
        )
    }
}

/// The content lines with the wall stripped from each.
pub open spec fn stripped_lines(ls: Seq<Seq<(Token, ByteRange<usize>)>>) -> Seq<Seq<(Token, ByteRange<usize>)>> {
    ls.map_values(|l: Seq<(Token, ByteRange<usize>)>| strip_wall(l, spec_indentation_wall(ls)))
}

/// Every stripped content line that has tokens has its bounding box on
/// character boundaries of the source.
pub open spec fn stripped_lines_in_text(source: Seq<char>, ls: Seq<Seq<(Token, ByteRange<usize>)>>) -> bool {
    forall|i: int|
        0 <= i < ls.len() && (#[trigger] stripped_lines(ls)[i]).len() > 0 ==> box_in_text(
            source,
            stripped_lines(ls)[i],
        )
}

/// The subject and the content of a verbatim block. The content is every
/// line with the indentation wall (the least indentation over the lines)
/// removed, the lines' texts joined by newlines (an empty line giving an
/// empty text); its range is that of all remaining content tokens.
pub fn extract_foreign_block_data(
    subject_tokens: Vec<(Token, ByteRange<usize>)>,
    content_token_lines: Vec<Vec<(Token, ByteRange<usize>)>>,
    source: &str,
) -> (r: ForeignBlockData)
    requires
        box_in_text(source@, subject_tokens@),
        stripped_lines_in_text(source@, vec_seqs(content_token_lines@)),
    ensures
        r.subject_byte_range == spec_bounding_box(subject_tokens@),
        utf8(r.subject_text@) == box_bytes(source@, subject_tokens@),
        utf8(r.content_text@) == joined_content_bytes(
            source@,
            stripped_lines(vec_seqs(content_token_lines@)),
        ),
        r.content_byte_range == spec_bounding_box(
            flatten_stripped(stripped_lines(vec_seqs(content_token_lines@))),
        ),
{
    let ghost vs = content_token_lines@;
    let ghost ls = vec_seqs(vs);
    let ghost sl = stripped_lines(ls);
    let (subject_text, subject_byte_range) = line_text(&subject_tokens, source);
    let wall = calculate_indentation_wall(content_token_lines.as_slice());
    let n = content_token_lines.len();
    let mut content_text = String::new();
    let mut all: Vec<(Token, ByteRange<usize>)> = Vec::new();
    let mut i: usize = 0;
    for line in it: content_token_lines.into_iter()
        invariant
            i == it.index(),
            it.seq() == vs,
            ls == vec_seqs(vs),
            n == ls.len(),
            i <= n,
            wall == spec_indentation_wall(ls),
            sl == stripped_lines(ls),
            stripped_lines_in_text(source@, ls),
            utf8(content_text@) == joined_content_bytes(source@, sl.take(i as int)),
            all@ == flatten_stripped(sl.take(i as int)),
    {
        let stripped = strip_indentation_wall(line, wall);
        proof {
            assert(ls[i as int] == line@);
            assert(sl[i as int] == stripped@);
            let t = sl.take(i + 1);
            assert(t.drop_last() =~= sl.take(i as int));
            assert(t.last() == stripped@);
        }
        let ghost before = content_text@;
        if i > 0 {
            content_text.append("\n");
            proof {
                lemma_utf8_concat(before, "\n"@);
            }
        }
        let ghost mid = content_text@;
        if stripped.len() > 0 {
            assert(box_in_text(source@, sl[i as int]));
            let (t, _b) = line_text(&stripped, source);
            content_text.append(t.as_str());
            proof {
                lemma_utf8_concat(mid, t@);
            }
        } else {
            proof {
                assert(mid + Seq::<char>::empty() =~= mid);
            }
        }
        proof {
            if i == 0 {
                assert(utf8(before) =~= Seq::<u8>::empty());
                assert(Seq::<u8>::empty() + content_line_bytes(source@, stripped@) =~= content_line_bytes(source@, stripped@));
            }
        }
        let mut st = stripped;
        all.append(&mut st);
        i = i + 1;
    }
    proof {
        assert(sl.take(n as int) =~= sl);
    }
    let content_byte_range = compute_bounding_box(all.as_slice());
    ForeignBlockData { subject_text, subject_byte_range, content_text, content_byte_range }
}

/// All pairs of the stripped lines, one line after the other.
pub open spec fn flatten_stripped(ls: Seq<Seq<(Token, ByteRange<usize>)>>) -> Seq<(Token, ByteRange<usize>)>
    decreases ls.len(),
{
    if ls.len() == 0 {
        Seq::empty()
    } else {
        flatten_stripped(ls.drop_last()) + ls.last()
    }
}

} // verus!
