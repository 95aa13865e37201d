//! Conversion of classified lines into content elements, one element kind
//! at a time.

use crate::ast::{
    default_range,
    spec_default_location,
    Annotation,
    ContentItem,
    Label,
    ListItem,
    Parameter,
    Paragraph,
    Range,
    TextContent,
    TextLine,
};
use crate::ast_builder::{
    build_annotation,
    build_definition,
    build_foreign_block,
    build_list,
    build_list_item,
    build_paragraph,
    build_paragraph_from_tokens,
    build_session,
    lemma_same_ranges_box,
    normalize_line_token,
    line_pairs,
    paragraph_lines_match,
    spec_aggregate,
};
use crate::data_extraction::{
    box_bytes,
    box_in_text,
    joined_content_bytes,
    lines_in_text,
    stripped_lines,
    stripped_lines_in_text,
    vec_seqs,
};
use crate::location::{byte_range_to_ast_range, max_or_zero, min_or_zero, spec_bounding_location, spec_range_of};
use crate::messages::{cat6, decimal, decimal_string};
use crate::text::{is_text_span, substring, utf8};
use crate::tokens::{LineToken, Token};
use std::ops::Range as ByteRange;
use vstd::prelude::*;

verus! {

// ---------------------------------------------------------------------------
// Trimming
// ---------------------------------------------------------------------------

/// A character with the Unicode `White_Space` property.
pub open spec fn is_unicode_space(c: char) -> bool {
    let v = c as u32;
    ||| 0x09 <= v <= 0x0D
    ||| v == 0x20
    ||| v == 0x85
    ||| v == 0xA0
    ||| v == 0x1680
    ||| 0x2000 <= v <= 0x200A
    ||| v == 0x2028
    ||| v == 0x2029
    ||| v == 0x202F
    ||| v == 0x205F
    ||| v == 0x3000
}

/// The number of white space characters at the start of the text.
pub open spec fn leading_spaces(s: Seq<char>) -> nat
    decreases s.len(),
{
    if s.len() > 0 && is_unicode_space(s[0]) {
        1 + leading_spaces(s.drop_first())
    } else {
        0
    }
}

/// The number of white space characters at the end of the text.
pub open spec fn trailing_spaces(s: Seq<char>) -> nat
    decreases s.len(),
{
    if s.len() > 0 && is_unicode_space(s.last()) {
        1 + trailing_spaces(s.drop_last())
    } else {
        0
    }
}

/// The text without its leading and trailing white space.
pub open spec fn trim_spec(s: Seq<char>) -> Seq<char> {
    let rest = s.skip(leading_spaces(s) as int);
    rest.take(rest.len() - trailing_spaces(rest))
}

/// A run of exactly `a` white space characters opens the text.
proof fn lemma_leading_spaces_exact(s: Seq<char>, a: int)
    requires
        0 <= a <= s.len(),
        forall|k: int| 0 <= k < a ==> is_unicode_space(#[trigger] s[k]),
        a == s.len() || !is_unicode_space(s[a]),
    ensures
        leading_spaces(s) == a,
    decreases a,
{
    if a > 0 {
        let d = s.drop_first();
        assert forall|k: int| 0 <= k < a - 1 implies is_unicode_space(#[trigger] d[k]) by {
            assert(d[k] == s[k + 1]);
        }
        if a < s.len() {
            assert(d[a - 1] == s[a]);
        }
        assert(is_unicode_space(s[0]));
        lemma_leading_spaces_exact(d, a - 1);
    }
}

/// A run of exactly `c` white space characters closes the text.
proof fn lemma_trailing_spaces_exact(s: Seq<char>, c: int)
    requires
        0 <= c <= s.len(),
        forall|k: int| s.len() - c <= k < s.len() ==> is_unicode_space(#[trigger] s[k]),
        c == s.len() || !is_unicode_space(s[s.len() - c - 1]),
    ensures
        trailing_spaces(s) == c,
    decreases c,
{
    if c > 0 {
        let d = s.drop_last();
        assert forall|k: int| d.len() - (c - 1) <= k < d.len() implies is_unicode_space(#[trigger] d[k]) by {
            assert(d[k] == s[k]);
        }
        if c < s.len() {
            assert(d[d.len() - (c - 1) - 1] == s[s.len() - c - 1]);
        }
        assert(is_unicode_space(s[s.len() - 1]));
        lemma_trailing_spaces_exact(d, c - 1);
    }
}

/// The text with leading and trailing white space removed, white space
/// being the characters with the Unicode `White_Space` property (as
/// `str::trim` does).
pub(crate) fn trim<'a>(s: &'a str) -> (r: &'a str)
    ensures
        r@ == trim_spec(s@),
{
    let n = s.unicode_len();
    let mut a: usize = 0;
    while a < n && is_space_char(s.get_char(a))
        invariant
            a <= n,
            n == s@.len(),
            forall|k: int| 0 <= k < a ==> is_unicode_space(#[trigger] s@[k]),
        decreases n - a,
    {
        a = a + 1;
    }
    proof {
        lemma_leading_spaces_exact(s@, a as int);
    }
    let mut b: usize = n;
    while b > a && is_space_char(s.get_char(b - 1))
        invariant
            a <= b <= n,
            n == s@.len(),
            forall|k: int| b <= k < n ==> is_unicode_space(#[trigger] s@[k]),
        decreases b - a,
    {
        b = b - 1;
    }
    proof {
        let rest = s@.skip(a as int);
        assert forall|k: int| rest.len() - (n - b) <= k < rest.len() implies is_unicode_space(
            #[trigger] rest[k],
        ) by {
            assert(rest[k] == s@[a + k]);
        }
        if n - b < rest.len() {
            assert(rest[rest.len() - (n - b) - 1] == s@[b - 1]);
        }
        lemma_trailing_spaces_exact(rest, n - b);
        assert(rest.take(rest.len() - (n - b)) =~= s@.subrange(a as int, b as int));
    }
    s.substring_char(a, b)
}

// ---------------------------------------------------------------------------
// Text and location of lines
// ---------------------------------------------------------------------------

/// The message for token positions past the end of the line.
pub open spec fn out_of_bounds_message(a: nat, b: nat, len: nat) -> Seq<char> {
    "Token slice indices out of bounds: start_idx="@ + decimal(a) + ", end_idx="@ + decimal(b)
        + ", len="@ + decimal(len)
}

/// The source text covered by the spans `a..b` of a line, trimmed: empty for
/// no spans or an empty or out-of-source range; an error for positions past
/// the spans or in the wrong order.
pub open spec fn slice_text(
    spans: Seq<ByteRange<usize>>,
    a: int,
    b: int,
    source: Seq<char>,
) -> Result<Seq<char>, Seq<char>> {
    if a > spans.len() || b > spans.len() {
        Err(out_of_bounds_message(a as nat, b as nat, spans.len()))
    } else if a > b {
        Err("Invalid token slice: start > end"@)
    } else if a == b {
        Ok(Seq::empty())
    } else {
        let start = spans[a].start;
        let end = spans[b - 1].end;
        if start >= end || end > utf8(source).len() {
            Ok(Seq::empty())
        } else {
            Ok(trim_spec(vstd::utf8::decode_utf8(utf8(source).subrange(start as int, end as int))))
        }
    }
}

/// The source range of the spans `a..b` lies on character boundaries where
/// it is read.
pub open spec fn slice_readable(spans: Seq<ByteRange<usize>>, a: int, b: int, source: Seq<char>) -> bool {
    (0 <= a < b <= spans.len() && spans[a].start < spans[b - 1].end && spans[b - 1].end <= utf8(
        source,
    ).len()) ==> is_text_span(source, spans[a].start as int, spans[b - 1].end as int)
}

/// The trimmed source text of the spans `start_idx..end_idx` of a line.
fn extract_text_from_token_slice(
    token: &LineToken,
    start_idx: usize,
    end_idx: usize,
    source: &str,
) -> (r: Result<String, String>)
    requires
        slice_readable(token.token_spans@, start_idx as int, end_idx as int, source@),
    ensures
        match (r, slice_text(token.token_spans@, start_idx as int, end_idx as int, source@)) {
            (Ok(x), Ok(y)) => x@ == y,
            (Err(x), Err(y)) => x@ == y,
            _ => false,
        },
{
    let n = token.token_spans.len();
    if start_idx > n || end_idx > n {
        let a = decimal_string(start_idx);
        let b = decimal_string(end_idx);
        let c = decimal_string(n);
        return Err(
            cat6(
                "Token slice indices out of bounds: start_idx=",
                a.as_str(),
                ", end_idx=",
                b.as_str(),
                ", len=",
                c.as_str(),
            ),
        );
    }
    if start_idx > end_idx {
        return Err("Invalid token slice: start > end".to_owned());
    }
    if start_idx == end_idx {
        return Ok(String::new());
    }
    let start = token.token_spans[start_idx].start;
    let end = token.token_spans[end_idx - 1].end;
    if start >= end || end > source.as_bytes().len() {
        return Ok(String::new());
    }
    let piece = substring(source, start, end);
    proof {
        vstd::utf8::encode_utf8_decode_utf8(piece@);
    }
    Ok(trim(piece.as_str()).to_owned())
}

/// The bounding span of a line's spans: smallest start to largest end.
pub open spec fn spans_box(spans: Seq<ByteRange<usize>>) -> ByteRange<usize> {
    ByteRange {
        start: min_or_zero(spans.map_values(|r: ByteRange<usize>| r.start)),
        end: max_or_zero(spans.map_values(|r: ByteRange<usize>| r.end)),
    }
}

/// The location of a line: its bounding span in the source, or the default
/// location for a line without spans.
pub open spec fn line_location(token: LineToken, source: Seq<char>) -> Range {
    if token.token_spans@.len() == 0 {
        spec_default_location()
    } else {
        spec_range_of(utf8(source), spans_box(token.token_spans@))
    }
}

/// The location of a line.
fn extract_location_from_token(token: &LineToken, source: &str) -> (r: Range)
    ensures
        r == line_location(*token, source@),
{
    let spans = &token.token_spans;
    if spans.len() == 0 {
        return default_range();
    }
    let ghost starts = spans@.map_values(|r: ByteRange<usize>| r.start);
    let ghost ends = spans@.map_values(|r: ByteRange<usize>| r.end);
    let mut lo = spans[0].start;
    let mut hi = spans[0].end;
    let mut i: usize = 1;
    proof {
        assert(starts.take(1).drop_last() =~= Seq::<usize>::empty());
        assert(min_or_zero(starts.take(1)) == starts[0]);
        assert(max_or_zero(ends.take(1)) == ends[0]);
    }
    while i < spans.len()
        invariant
            1 <= i <= spans@.len(),
            starts == spans@.map_values(|r: ByteRange<usize>| r.start),
            ends == spans@.map_values(|r: ByteRange<usize>| r.end),
            lo == min_or_zero(starts.take(i as int)),
            hi == max_or_zero(ends.take(i as int)),
        decreases spans@.len() - i,
    {
        proof {
            assert(starts.take(i + 1).drop_last() =~= starts.take(i as int));
            assert(ends.take(i + 1).drop_last() =~= ends.take(i as int));
            assert(starts.take(i + 1).last() == spans@[i as int].start);
            assert(ends.take(i + 1).last() == spans@[i as int].end);
        }
        if spans[i].start < lo {
            lo = spans[i].start;
        }
        if spans[i].end > hi {
            hi = spans[i].end;
        }
        i = i + 1;
    }
    proof {
        assert(starts.take(i as int) =~= starts);
        assert(ends.take(i as int) =~= ends);
    }
    byte_range_to_ast_range(ByteRange { start: lo, end: hi }, source)
}

// ---------------------------------------------------------------------------
// Annotation markers
// ---------------------------------------------------------------------------

/// The number of annotation markers among the tokens.
pub open spec fn lex_markers(ts: Seq<Token>) -> nat
    decreases ts.len(),
{
    if ts.len() == 0 {
        0
    } else {
        lex_markers(ts.drop_last()) + if ts.last() is LexMarker {
            1nat
        } else {
            0nat
        }
    }
}

/// The position of the `n`-th annotation marker (counting from zero), or
/// -1 when there are not that many.
pub open spec fn nth_marker(ts: Seq<Token>, n: nat) -> int
    decreases ts.len(),
{
    if ts.len() == 0 {
        -1
    } else if nth_marker(ts.drop_last(), n) >= 0 {
        nth_marker(ts.drop_last(), n)
    } else if ts.last() is LexMarker && lex_markers(ts.drop_last()) == n {
        ts.len() - 1
    } else {
        -1
    }
}

/// The position of a marker found in a prefix is its position in the whole.
proof fn lemma_nth_marker_prefix(ts: Seq<Token>, k: int, n: nat)
    requires
        0 <= k <= ts.len(),
        nth_marker(ts.take(k), n) >= 0,
    ensures
        nth_marker(ts, n) == nth_marker(ts.take(k), n),
    decreases ts.len() - k,
{
    if k < ts.len() {
        assert(ts.take(k + 1).drop_last() =~= ts.take(k));
        lemma_nth_marker_prefix(ts, k + 1, n);
    } else {
        assert(ts.take(k) =~= ts);
    }
}

/// Fewer markers than asked for means no such marker.
proof fn lemma_nth_marker_absent(ts: Seq<Token>, n: nat)
    requires
        lex_markers(ts) <= n,
    ensures
        nth_marker(ts, n) == -1,
    decreases ts.len(),
{
    if ts.len() > 0 {
        lemma_nth_marker_absent(ts.drop_last(), n);
    }
}

/// Where the `n`-th marker is, at most `n` markers come before.
proof fn lemma_markers_bounded(ts: Seq<Token>, n: nat)
    ensures
        nth_marker(ts, n) == -1 ==> lex_markers(ts) <= n,
        nth_marker(ts, n) >= 0 ==> nth_marker(ts, n) < ts.len(),
    decreases ts.len(),
{
    if ts.len() > 0 {
        lemma_markers_bounded(ts.drop_last(), n);
    }
}

// ---------------------------------------------------------------------------
// Unwrapping
// ---------------------------------------------------------------------------

/// A paragraph of one line.
pub fn unwrap_token_to_paragraph(token: &LineToken, source: &str) -> (r: Result<ContentItem, String>)
    requires
        box_in_text(source@, line_pairs(*token)),
    ensures
        r is Ok,
        r->Ok_0 is Paragraph,
        paragraph_lines_match(
            r->Ok_0->Paragraph_0.lines@,
            source@,
            seq![line_pairs(*token)],
        ),
{
    let v = normalize_line_token(token);
    let ghost vs = v@;
    proof {
        lemma_same_ranges_box(vs, line_pairs(*token));
    }
    let mut lines: Vec<Vec<(Token, ByteRange<usize>)>> = Vec::new();
    lines.push(v);
    proof {
        assert(lines@[0]@ == vs);
        assert(lines_in_text(source@, lines@));
        assert(vec_seqs(lines@) =~= seq![vs]);
    }
    let r = build_paragraph_from_tokens(lines, source);
    proof {
        let ls = r->Paragraph_0.lines@;
        assert(utf8(ls[0].content.text@) == box_bytes(source@, vs));
    }
    Ok(r)
}

/// A paragraph of several lines; no lines is an error.
pub fn unwrap_tokens_to_paragraph(tokens: Vec<LineToken>, source: &str) -> (r: Result<
    ContentItem,
    String,
>)
    requires
        forall|i: int|
            0 <= i < tokens@.len() ==> box_in_text(source@, line_pairs(#[trigger] tokens@[i])),
    ensures
        tokens@.len() == 0 ==> r is Err && r->Err_0@ == "Cannot create paragraph from empty token list"@,
        tokens@.len() > 0 ==> r is Ok && r->Ok_0 is Paragraph && paragraph_lines_match(
            r->Ok_0->Paragraph_0.lines@,
            source@,
            tokens@.map_values(|lt: LineToken| line_pairs(lt)),
        ),
{
    if tokens.len() == 0 {
        return Err("Cannot create paragraph from empty token list".to_owned());
    }
    Ok(build_paragraph(tokens.as_slice(), source))
}

/// A session with the line as its title.
pub fn unwrap_session(subject_token: &LineToken, content: Vec<ContentItem>, source: &str) -> (r:
    Result<ContentItem, String>)
    requires
        box_in_text(source@, line_pairs(*subject_token)),
    ensures
        r is Ok,
        r->Ok_0 is Session,
        utf8(r->Ok_0->Session_0.title.text@) == box_bytes(source@, line_pairs(*subject_token)),
        r->Ok_0->Session_0.children@ == content@,
        r->Ok_0->Session_0.location == spec_aggregate(
            spec_range_of(utf8(source@), crate::data_extraction::spec_bounding_box(line_pairs(*subject_token))),
            content@,
        ),
{
    Ok(build_session(subject_token, content, source))
}

/// A definition with the line as its subject.
pub fn unwrap_definition(subject_token: &LineToken, content: Vec<ContentItem>, source: &str) -> (r:
    Result<ContentItem, String>)
    requires
        box_in_text(source@, line_pairs(*subject_token)),
    ensures
        r is Ok,
        r->Ok_0 is Definition,
        utf8(r->Ok_0->Definition_0.subject.text@) == box_bytes(source@, line_pairs(*subject_token)),
        r->Ok_0->Definition_0.children@ == content@,
        r->Ok_0->Definition_0.location == spec_aggregate(
            spec_range_of(utf8(source@), crate::data_extraction::spec_bounding_box(line_pairs(*subject_token))),
            content@,
        ),
{
    Ok(build_definition(subject_token, content, source))
}

/// The list items among the elements, in order.
pub open spec fn list_items_of(items: Seq<ContentItem>) -> Seq<ListItem>
    decreases items.len(),
{
    if items.len() == 0 {
        Seq::empty()
    } else {
        let rest = list_items_of(items.drop_last());
        match items.last() {
            ContentItem::ListItem(li) => rest.push(li),
            _ => rest,
        }
    }
}

/// A list of the list items among the elements (other elements are left
/// out); no elements is an error.
pub fn unwrap_list(list_items: Vec<ContentItem>, source: &str) -> (r: Result<ContentItem, String>)
    ensures
        list_items@.len() == 0 ==> r is Err && r->Err_0@ == "Cannot create list with no items"@,
        list_items@.len() > 0 ==> {
            &&& r is Ok
            &&& r->Ok_0 is List
            &&& r->Ok_0->List_0.items@.len() == list_items_of(list_items@).len()
            &&& forall|i: int|
                0 <= i < list_items_of(list_items@).len() ==> (#[trigger] r->Ok_0->List_0.items@[i])
                    == ContentItem::ListItem(list_items_of(list_items@)[i])
            &&& r->Ok_0->List_0.location == spec_bounding_location(
                list_items_of(list_items@).map_values(|li: ListItem| li.location),
            )
        },
{
    if list_items.len() == 0 {
        return Err("Cannot create list with no items".to_owned());
    }
    let ghost l0 = list_items@;
    let n = list_items.len();
    let mut items: Vec<ListItem> = Vec::new();
    let mut i: usize = 0;
    proof {
        assert(l0.take(0) =~= Seq::<ContentItem>::empty());
    }
    for item in it: list_items.into_iter()
        invariant
            n == l0.len(),
            i == it.index(),
            it.seq() == l0,
            i <= l0.len(),
            items@ == list_items_of(l0.take(i as int)),
    {
        proof {
            assert(l0.take(i + 1).drop_last() =~= l0.take(i as int));
            assert(l0.take(i + 1).last() == item);
        }
        match item {
            ContentItem::ListItem(li) => {
                items.push(li);
            },
            _ => {},
        }
        i = i + 1;
    }
    proof {
        assert(l0.take(i as int) =~= l0);
    }
    Ok(build_list(items))
}

/// A list item with the line as its text.
pub fn unwrap_list_item(item_token: &LineToken, content: Vec<ContentItem>, source: &str) -> (r:
    Result<ContentItem, String>)
    requires
        box_in_text(source@, line_pairs(*item_token)),
    ensures
        r is Ok,
        r->Ok_0 is ListItem,
        utf8(r->Ok_0->ListItem_0.text.text@) == box_bytes(source@, line_pairs(*item_token)),
        r->Ok_0->ListItem_0.children@ == content@,
        r->Ok_0->ListItem_0.location == spec_aggregate(
            spec_range_of(utf8(source@), crate::data_extraction::spec_bounding_box(line_pairs(*item_token))),
            content@,
        ),
{
    Ok(ContentItem::ListItem(build_list_item(item_token, content, source)))
}

/// An annotation with the opening line as its label and the given content.
pub fn unwrap_annotation_with_content(
    opening_token: &LineToken,
    content: Vec<ContentItem>,
    source: &str,
) -> (r: Result<ContentItem, String>)
    requires
        box_in_text(source@, line_pairs(*opening_token)),
    ensures
        r is Ok,
        r->Ok_0 is Annotation,
        utf8(r->Ok_0->Annotation_0.label.value@) == box_bytes(source@, line_pairs(*opening_token)),
        r->Ok_0->Annotation_0.parameters@.len() == 0,
        r->Ok_0->Annotation_0.children@ == content@,
{
    Ok(build_annotation(opening_token, Vec::new(), content, source))
}

/// A verbatim block: the subject line, the content lines with their
/// indentation wall removed, and the closing annotation built from its line.
pub fn unwrap_foreign_block(
    subject_token: &LineToken,
    content_lines: Vec<&LineToken>,
    closing_annotation_token: &LineToken,
    source: &str,
) -> (r: Result<ContentItem, String>)
    requires
        box_in_text(source@, line_pairs(*subject_token)),
        box_in_text(source@, line_pairs(*closing_annotation_token)),
        stripped_lines_in_text(
            source@,
            content_lines@.map_values(|lt: &LineToken| line_pairs(*lt)),
        ),
    ensures
        r is Ok,
        r->Ok_0 is VerbatimBlock,
        utf8(r->Ok_0->VerbatimBlock_0.subject.text@) == box_bytes(source@, line_pairs(*subject_token)),
        utf8(r->Ok_0->VerbatimBlock_0.closing_annotation.label.value@) == box_bytes(
            source@,
            line_pairs(*closing_annotation_token),
        ),
        r->Ok_0->VerbatimBlock_0.closing_annotation.parameters@.len() == 0,
        r->Ok_0->VerbatimBlock_0.closing_annotation.children@.len() == 0,
        r->Ok_0->VerbatimBlock_0.children@.len() <= 1,
        r->Ok_0->VerbatimBlock_0.children@.len() == 0 <==> joined_content_bytes(
            source@,
            stripped_lines(content_lines@.map_values(|lt: &LineToken| line_pairs(*lt))),
        ).len() == 0,
        r->Ok_0->VerbatimBlock_0.children@.len() == 1 ==> utf8(
            r->Ok_0->VerbatimBlock_0.children@[0].content.text@,
        ) == joined_content_bytes(
            source@,
            stripped_lines(content_lines@.map_values(|lt: &LineToken| line_pairs(*lt))),
        ),
{
    let closing = match build_annotation(closing_annotation_token, Vec::new(), Vec::new(), source) {
        ContentItem::Annotation(a) => a,
        _ => vstd::pervasive::unreached(),
    };
    Ok(build_foreign_block(subject_token, content_lines, closing, source))
}

// ---------------------------------------------------------------------------
// Annotation headers: label and parameters
// ---------------------------------------------------------------------------

/// The first position at or after `k` whose character satisfies `f`, or the
/// length of the text when there is none.
pub open spec fn first_where(s: Seq<char>, k: int, f: spec_fn(char) -> bool) -> int
    decreases s.len() - k,
{
    if k >= s.len() {
        s.len() as int
    } else if f(s[k]) {
        k
    } else {
        first_where(s, k + 1, f)
    }
}

/// Characters that do not satisfy `f` can be skipped over.
proof fn lemma_first_where_skip(s: Seq<char>, a: int, m: int, f: spec_fn(char) -> bool)
    requires
        0 <= a <= m <= s.len(),
        forall|k: int| a <= k < m ==> !f(s[k]),
    ensures
        first_where(s, a, f) == first_where(s, m, f),
    decreases m - a,
{
    if a < m {
        lemma_first_where_skip(s, a + 1, m, f);
    }
}

/// A character with the Unicode `White_Space` property.
pub open spec fn space_char() -> spec_fn(char) -> bool {
    |c: char| is_unicode_space(c)
}

/// The character `=`.
pub open spec fn equals_char() -> spec_fn(char) -> bool {
    |c: char| c == '='
}

/// A separator between parameters: white space or a comma.
pub open spec fn is_param_sep(c: char) -> bool {
    is_unicode_space(c) || c == ','
}

/// A value without the double quotes around it, if it has them.
pub open spec fn unquote(v: Seq<char>) -> Seq<char> {
    if v.len() >= 2 && v[0] == '"' && v[v.len() - 1] == '"' {
        v.subrange(1, v.len() - 1)
    } else {
        v
    }
}

/// The parameter a segment gives: `key=value`, with a non-empty key before
/// the first `=` and the value after it without surrounding quotes; a
/// segment without such a key gives none.
pub open spec fn segment_param(seg: Seq<char>) -> Seq<(Seq<char>, Seq<char>)> {
    let e = first_where(seg, 0, equals_char());
    if 0 < e < seg.len() {
        seq![(seg.take(e), unquote(seg.skip(e + 1)))]
    } else {
        Seq::empty()
    }
}

/// The parameters of the text from position `i` on, the current segment
/// having started at `start`: segments are separated by white space or
/// commas outside double quotes.
pub open spec fn params_from(s: Seq<char>, i: int, start: int, quoted: bool) -> Seq<(Seq<char>, Seq<char>)>
    decreases s.len() - i,
{
    if i >= s.len() {
        segment_param(s.subrange(start, s.len() as int))
    } else if s[i] == '"' {
        params_from(s, i + 1, start, !quoted)
    } else if !quoted && is_param_sep(s[i]) {
        segment_param(s.subrange(start, i)) + params_from(s, i + 1, i + 1, false)
    } else {
        params_from(s, i + 1, start, quoted)
    }
}

/// The label of an annotation header: its text up to the first white space.
pub open spec fn header_label(h: Seq<char>) -> Seq<char> {
    h.take(first_where(h, 0, space_char()))
}

/// The parameters of an annotation header: those of its text after the label.
pub open spec fn header_params(h: Seq<char>) -> Seq<(Seq<char>, Seq<char>)> {
    let w = first_where(h, 0, space_char());
    params_from(h, w, w, false)
}

/// A parameter as its key and value.
pub open spec fn param_view(p: Parameter) -> (Seq<char>, Seq<char>) {
    (p.key@, p.value@)
}

/// Whether the character has the Unicode `White_Space` property.
fn is_space_char(c: char) -> (r: bool)
    ensures
        r == is_unicode_space(c),
{
    let v = c as u32;
    (0x09 <= v && v <= 0x0D) || v == 0x20 || v == 0x85 || v == 0xA0 || v == 0x1680 || (0x2000
        <= v && v <= 0x200A) || v == 0x2028 || v == 0x2029 || v == 0x202F || v == 0x205F || v
        == 0x3000
}

/// The position of the first `=` in `start..end`, or `end`.
fn find_equals(s: &str, start: usize, end: usize) -> (r: usize)
    requires
        start <= end <= s@.len(),
    ensures
        r == start + first_where(s@.subrange(start as int, end as int), 0, equals_char()),
{
    let ghost seg = s@.subrange(start as int, end as int);
    let mut j = start;
    while j < end
        invariant
            start <= j <= end <= s@.len(),
            seg == s@.subrange(start as int, end as int),
            forall|k: int| 0 <= k < j - start ==> !equals_char()(seg[k]),
        decreases end - j,
    {
        if s.get_char(j) == '=' {
            proof {
                lemma_first_where_skip(seg, 0, j - start, equals_char());
            }
            return j;
        }
        j = j + 1;
    }
    proof {
        lemma_first_where_skip(seg, 0, j - start, equals_char());
    }
    j
}

/// The position of the first white space at or after `k`, or the length.
pub(crate) fn find_space(s: &str, k: usize) -> (r: usize)
    requires
        k <= s@.len(),
    ensures
        r == first_where(s@, k as int, space_char()),
        k <= r <= s@.len(),
{
    let n = s.unicode_len();
    let mut j = k;
    while j < n
        invariant
            k <= j <= n,
            n == s@.len(),
            forall|m: int| k <= m < j ==> !space_char()(s@[m]),
        decreases n - j,
    {
        if is_space_char(s.get_char(j)) {
            proof {
                lemma_first_where_skip(s@, k as int, j as int, space_char());
            }
            return j;
        }
        j = j + 1;
    }
    proof {
        lemma_first_where_skip(s@, k as int, j as int, space_char());
    }
    j
}

/// Append the parameter of the segment `start..end`, if it gives one.
fn push_segment_param(s: &str, start: usize, end: usize, location: &Range, out: &mut Vec<Parameter>)
    requires
        start <= end <= s@.len(),
    ensures
        final(out)@.map_values(|p: Parameter| param_view(p)) == old(out)@.map_values(
            |p: Parameter| param_view(p),
        ) + segment_param(s@.subrange(start as int, end as int)),
        forall|k: int| 0 <= k < old(out)@.len() ==> final(out)@[k] == old(out)@[k],
        forall|k: int| old(out)@.len() <= k < final(out)@.len() ==> (#[trigger] final(out)@[k]).location == *location,
{
    let ghost seg = s@.subrange(start as int, end as int);
    let ghost before = out@;
    let e = find_equals(s, start, end);
    if start < e && e < end {
        let key = s.substring_char(start, e).to_owned();
        let mut vs = e + 1;
        let mut ve = end;
        if ve - vs >= 2 && s.get_char(vs) == '"' && s.get_char(ve - 1) == '"' {
            vs = vs + 1;
            ve = ve - 1;
        }
        let value = s.substring_char(vs, ve).to_owned();
        proof {
            let fe = e - start;
            assert(seg.take(fe) =~= key@);
            let v = seg.skip(fe + 1);
            assert(v =~= s@.subrange(e + 1, end as int));
            assert(unquote(v) =~= value@);
        }
        out.push(Parameter { key, value, location: location.clone() });
        proof {
            assert(out@.map_values(|p: Parameter| param_view(p)) =~= before.map_values(
                |p: Parameter| param_view(p),
            ) + segment_param(seg));
        }
    } else {
        proof {
            assert(out@.map_values(|p: Parameter| param_view(p)) =~= before.map_values(
                |p: Parameter| param_view(p),
            ) + segment_param(seg));
        }
    }
}

/// The parameters of the text from position `from` on, each at the given
/// location.
pub(crate) fn parse_params(s: &str, from: usize, location: &Range) -> (r: Vec<Parameter>)
    requires
        from <= s@.len(),
    ensures
        r@.map_values(|p: Parameter| param_view(p)) == params_from(s@, from as int, from as int, false),
        forall|k: int| 0 <= k < r@.len() ==> (#[trigger] r@[k]).location == *location,
{
    let n = s.unicode_len();
    let mut out: Vec<Parameter> = Vec::new();
    let mut i = from;
    let mut start = from;
    let mut quoted = false;
    proof {
        assert(out@.map_values(|p: Parameter| param_view(p)) =~= Seq::<(Seq<char>, Seq<char>)>::empty());
        assert(params_from(s@, from as int, from as int, false) =~= Seq::<(Seq<char>, Seq<char>)>::empty()
            + params_from(s@, from as int, from as int, false));
    }
    while i < n
        invariant
            n == s@.len(),
            from <= start <= i <= n,
            out@.map_values(|p: Parameter| param_view(p)) + params_from(s@, i as int, start as int, quoted)
                == params_from(s@, from as int, from as int, false),
            forall|k: int| 0 <= k < out@.len() ==> (#[trigger] out@[k]).location == *location,
        decreases n - i,
    {
        let c = s.get_char(i);
        let ghost ov = out@.map_values(|p: Parameter| param_view(p));
        if c == '"' {
            quoted = !quoted;
        } else if !quoted && (is_space_char(c) || c == ',') {
            push_segment_param(s, start, i, location, &mut out);
            proof {
                let sp = segment_param(s@.subrange(start as int, i as int));
                let rest = params_from(s@, i + 1, i + 1, false);
                assert(ov + (sp + rest) =~= (ov + sp) + rest);
            }
            start = i + 1;
        }
        i = i + 1;
    }
    push_segment_param(s, start, n, location, &mut out);
    out
}

/// The annotation a line gives when it has two markers: in the trimmed text
/// between them, the text up to the first white space is the label and the
/// rest holds the parameters (`key=value`, separated by white space or
/// commas, a value possibly in double quotes); the trimmed text after the
/// second marker (if any) is a one-line paragraph; all at the line's
/// location.
pub open spec fn marked_annotation(
    a: Annotation,
    label: Seq<char>,
    trailing: Seq<char>,
    location: Range,
) -> bool {
    &&& a.label.value@ == header_label(label)
    &&& a.label.location == location
    &&& a.parameters@.map_values(|p: Parameter| param_view(p)) == header_params(label)
    &&& forall|k: int| 0 <= k < a.parameters@.len() ==> (#[trigger] a.parameters@[k]).location == location
    &&& a.location == location
    &&& trailing.len() == 0 ==> a.children@.len() == 0
    &&& trailing.len() > 0 ==> {
        &&& a.children@.len() == 1
        &&& a.children@[0] is Paragraph
        &&& a.children@[0]->Paragraph_0.location == location
        &&& a.children@[0]->Paragraph_0.lines@.len() == 1
        &&& a.children@[0]->Paragraph_0.lines@[0].content.text@ == trailing
        &&& a.children@[0]->Paragraph_0.lines@[0].location == location
    }
}

/// An annotation from its line. With two markers `::` the label and the
/// parameters are taken from the trimmed text between them (see
/// `marked_annotation`) and the trimmed text after the second one becomes a
/// one-line paragraph; reading past the line's spans is an error. With fewer
/// markers the whole line is the label.
pub fn unwrap_annotation(token: &LineToken, source: &str) -> (r: Result<ContentItem, String>)
    requires
        lex_markers(token.source_tokens@) < 2 ==> box_in_text(source@, line_pairs(*token)),
        lex_markers(token.source_tokens@) >= 2 ==> {
            let f = nth_marker(token.source_tokens@, 0);
            let s = nth_marker(token.source_tokens@, 1);
            &&& slice_readable(token.token_spans@, f + 1, s, source@)
            &&& slice_readable(token.token_spans@, s + 1, token.source_tokens@.len() as int, source@)
        },
    ensures
        lex_markers(token.source_tokens@) < 2 ==> {
            &&& r is Ok
            &&& r->Ok_0 is Annotation
            &&& utf8(r->Ok_0->Annotation_0.label.value@) == box_bytes(source@, line_pairs(*token))
            &&& r->Ok_0->Annotation_0.parameters@.len() == 0
            &&& r->Ok_0->Annotation_0.children@.len() == 0
        },
        lex_markers(token.source_tokens@) >= 2 ==> {
            let ts = token.source_tokens@;
            let f = nth_marker(ts, 0);
            let s = nth_marker(ts, 1);
            let label = slice_text(token.token_spans@, f + 1, s, source@);
            let trailing = slice_text(token.token_spans@, s + 1, ts.len() as int, source@);
            match (label, trailing) {
                (Err(m), _) => r is Err && r->Err_0@ == m,
                (Ok(_), Err(m)) => r is Err && r->Err_0@ == m,
                (Ok(l), Ok(t)) => r is Ok && r->Ok_0 is Annotation && marked_annotation(
                    r->Ok_0->Annotation_0,
                    l,
                    t,
                    line_location(*token, source@),
                ),
            }
        },
{
    let location = extract_location_from_token(token, source);
    let ghost ts = token.source_tokens@;
    let n = token.source_tokens.len();
    let mut count: usize = 0;
    let mut first: usize = 0;
    let mut second: usize = 0;
    let mut i: usize = 0;
    proof {
        assert(ts.take(0) =~= Seq::<Token>::empty());
    }
    while i < n && count < 2
        invariant
            n == ts.len(),
            ts == token.source_tokens@,
            i <= n,
            count <= 2,
            count == lex_markers(ts.take(i as int)),
            count >= 1 ==> first as int == nth_marker(ts.take(i as int), 0) && first < i,
            count == 2 ==> second as int == nth_marker(ts.take(i as int), 1) && second < i,
        decreases n - i,
    {
        proof {
            assert(ts.take(i + 1).drop_last() =~= ts.take(i as int));
            assert(ts.take(i + 1).last() == ts[i as int]);
            lemma_nth_marker_absent(ts.take(i as int), count as nat);
        }
        if matches!(&token.source_tokens[i], Token::LexMarker) {
            if count == 0 {
                first = i;
            } else {
                second = i;
            }
            count = count + 1;
        }
        i = i + 1;
    }
    if count >= 2 {
        proof {
            lemma_nth_marker_prefix(ts, i as int, 0);
            lemma_nth_marker_prefix(ts, i as int, 1);
            lemma_markers_prefix_le(ts, i as int);
        }
        let label_text = extract_text_from_token_slice(token, first + 1, second, source)?;
        let trailing_text = extract_text_from_token_slice(token, second + 1, n, source)?;
        let content = if !trailing_text.as_str().is_empty() {
            let line = TextLine { content: TextContent { text: trailing_text }, location: location.clone() };
            let mut lines: Vec<TextLine> = Vec::new();
            lines.push(line);
            let mut v: Vec<ContentItem> = Vec::new();
            v.push(ContentItem::Paragraph(Paragraph { lines, location: location.clone() }));
            v
        } else {
            Vec::new()
        };
        let w = find_space(label_text.as_str(), 0);
        let label_value = label_text.as_str().substring_char(0, w).to_owned();
        let parameters = parse_params(label_text.as_str(), w, &location);
        let annotation = Annotation {
            label: Label { value: label_value, location: location.clone() },
            parameters,
            children: content,
            location,
        };
        return Ok(ContentItem::Annotation(annotation));
    }
    proof {
        assert(ts.take(n as int) =~= ts);
    }
    Ok(build_annotation(token, Vec::new(), Vec::new(), source))
}

/// The markers of a prefix are no more than those of the whole.
proof fn lemma_markers_prefix_le(ts: Seq<Token>, k: int)
    requires
        0 <= k <= ts.len(),
    ensures
        lex_markers(ts.take(k)) <= lex_markers(ts),
    decreases ts.len() - k,
{
    if k < ts.len() {
        assert(ts.take(k + 1).drop_last() =~= ts.take(k));
        lemma_markers_prefix_le(ts, k + 1);
    } else {
        assert(ts.take(k) =~= ts);
    }
}

} // verus!
