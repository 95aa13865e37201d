//! Building AST nodes from tokens: the tokens are normalized to
//! `(token, range)` pairs, their text and byte ranges are extracted, and the
//! node is created with line/column locations.

use crate::ast::{
    item_location,
    Annotation,
    ContentItem,
    Definition,
    List,
    ListItem,
    Paragraph,
    Parameter,
    Range,
    Session,
    TextContent,
    TextLine,
    Verbatim,
    VerbatimLine,
};
use crate::data_extraction::{
    box_bytes,
    box_in_text,
    extract_annotation_data,
    extract_definition_data,
    extract_foreign_block_data,
    extract_list_item_data,
    extract_paragraph_data,
    extract_session_data,
    flatten_lines,
    joined_content_bytes,
    lines_in_text,
    spec_bounding_box,
    stripped_lines,
    stripped_lines_in_text,
    ends_of,
    starts_of,
    is_indent_token,
    leading_indents,
    spec_indentation_wall,
    vec_seqs,
    lemma_leading_indents_bound,
};
use crate::location::{
    byte_range_to_ast_range,
    compute_location_from_locations,
    spec_bounding_location,
    spec_range_of,
};
use crate::text::utf8;
use crate::tokens::{clone_range, zip_spec, LineToken, Token};
use std::ops::Range as ByteRange;
use vstd::prelude::*;

verus! {

// ---------------------------------------------------------------------------
// Normalization
// ---------------------------------------------------------------------------

/// The pairs of a line: its tokens with their spans.
pub open spec fn line_pairs(lt: LineToken) -> Seq<(Token, ByteRange<usize>)> {
    zip_spec(lt.source_tokens@, lt.token_spans@)
}

/// Two pair sequences with the same ranges and the same indentation tokens,
/// position by position.
pub open spec fn same_ranges(a: Seq<(Token, ByteRange<usize>)>, b: Seq<(Token, ByteRange<usize>)>) -> bool {
    &&& a.len() == b.len()
    &&& forall|i: int| 0 <= i < a.len() ==> (#[trigger] a[i]).1 == b[i].1
    &&& forall|i: int| 0 <= i < a.len() ==> (is_indent_token((#[trigger] a[i]).0) <==> is_indent_token(b[i].0))
}

proof fn lemma_same_ranges_leading(a: Seq<(Token, ByteRange<usize>)>, b: Seq<(Token, ByteRange<usize>)>)
    requires
        same_ranges(a, b),
    ensures
        leading_indents(a) == leading_indents(b),
    decreases a.len(),
{
    if a.len() > 0 {
        assert(same_ranges(a.drop_first(), b.drop_first())) by {
            assert forall|i: int| 0 <= i < a.len() - 1 implies (#[trigger] a.drop_first()[i]).1 == b.drop_first()[i].1 by {
                assert(a.drop_first()[i] == a[i + 1]);
                assert(b.drop_first()[i] == b[i + 1]);
            }
            assert forall|i: int| 0 <= i < a.len() - 1 implies (is_indent_token((#[trigger] a.drop_first()[i]).0) <==> is_indent_token(b.drop_first()[i].0)) by {
                assert(a.drop_first()[i] == a[i + 1]);
                assert(b.drop_first()[i] == b[i + 1]);
            }
        }
        lemma_same_ranges_leading(a.drop_first(), b.drop_first());
        assert(is_indent_token(a[0].0) <==> is_indent_token(b[0].0));
    }
}

proof fn lemma_wall_eq(a: Seq<Seq<(Token, ByteRange<usize>)>>, b: Seq<Seq<(Token, ByteRange<usize>)>>)
    requires
        a.len() == b.len(),
        forall|j: int| 0 <= j < a.len() ==> same_ranges(#[trigger] a[j], b[j]),
    ensures
        spec_indentation_wall(a) == spec_indentation_wall(b),
    decreases a.len(),
{
    if a.len() > 0 {
        assert forall|j: int| 0 <= j < a.len() - 1 implies same_ranges(#[trigger] a.drop_last()[j], b.drop_last()[j]) by {
            assert(same_ranges(a[j], b[j]));
        }
        lemma_wall_eq(a.drop_last(), b.drop_last());
        assert(same_ranges(a[a.len() - 1], b[b.len() - 1]));
        lemma_same_ranges_leading(a.last(), b.last());
        assert(same_ranges(a[0], b[0]));
        lemma_same_ranges_leading(a[0], b[0]);
    }
}

proof fn lemma_skip_same(x: Seq<(Token, ByteRange<usize>)>, y: Seq<(Token, ByteRange<usize>)>, k: int)
    requires
        same_ranges(x, y),
        0 <= k <= x.len(),
    ensures
        same_ranges(x.skip(k), y.skip(k)),
{
    {
        assert forall|i: int| 0 <= i < x.skip(k).len() implies (#[trigger] x.skip(k)[i]).1 == y.skip(k)[i].1 by {
            assert(x.skip(k)[i] == x[i + k]);
            assert(y.skip(k)[i] == y[i + k]);
        }
        assert forall|i: int| 0 <= i < x.skip(k).len() implies (is_indent_token((#[trigger] x.skip(k)[i]).0) <==> is_indent_token(y.skip(k)[i].0)) by {
            assert(x.skip(k)[i] == x[i + k]);
            assert(y.skip(k)[i] == y[i + k]);
        }
    }
}

proof fn lemma_joined_eq(source: Seq<char>, x: Seq<Seq<(Token, ByteRange<usize>)>>, y: Seq<Seq<(Token, ByteRange<usize>)>>)
    requires
        x.len() == y.len(),
        forall|j: int| 0 <= j < x.len() ==> same_ranges(#[trigger] x[j], y[j]),
    ensures
        joined_content_bytes(source, x) == joined_content_bytes(source, y),
    decreases x.len(),
{
    if x.len() > 0 {
        assert forall|j: int| 0 <= j < x.len() - 1 implies same_ranges(#[trigger] x.drop_last()[j], y.drop_last()[j]) by {
            assert(same_ranges(x[j], y[j]));
        }
        lemma_joined_eq(source, x.drop_last(), y.drop_last());
        assert(same_ranges(x[x.len() - 1], y[y.len() - 1]));
        lemma_same_ranges_box(x.last(), y.last());
        assert(same_ranges(x[0], y[0]));
        lemma_same_ranges_box(x[0], y[0]);
    }
}

/// Lines of matching shape have the same wall, and stripping it leaves lines
/// of matching shape: the same bounding boxes and the same joined text.
proof fn lemma_same_lines_stripped(a: Seq<Seq<(Token, ByteRange<usize>)>>, b: Seq<Seq<(Token, ByteRange<usize>)>>)
    requires
        a.len() == b.len(),
        forall|j: int| 0 <= j < a.len() ==> same_ranges(#[trigger] a[j], b[j]),
    ensures
        forall|source: Seq<char>| stripped_lines_in_text(source, b) ==> #[trigger] stripped_lines_in_text(source, a),
        forall|source: Seq<char>| #[trigger] joined_content_bytes(source, stripped_lines(a)) == joined_content_bytes(source, stripped_lines(b)),
{
    lemma_wall_eq(a, b);
    let w = spec_indentation_wall(a);
    let sa = stripped_lines(a);
    let sb = stripped_lines(b);
    assert forall|j: int| 0 <= j < a.len() implies same_ranges(#[trigger] sa[j], sb[j]) by {
        assert(same_ranges(a[j], b[j]));
        lemma_same_ranges_leading(a[j], b[j]);
        let k = if leading_indents(a[j]) < w { leading_indents(a[j]) } else { w };
        lemma_leading_indents_bound(a[j]);
        lemma_skip_same(a[j], b[j], k as int);
    }
    assert forall|source: Seq<char>| stripped_lines_in_text(source, b) implies #[trigger] stripped_lines_in_text(source, a) by {
        assert forall|i: int| 0 <= i < a.len() && (#[trigger] stripped_lines(a)[i]).len() > 0 implies box_in_text(source, stripped_lines(a)[i]) by {
            assert(same_ranges(sa[i], sb[i]));
            lemma_same_ranges_box(sa[i], sb[i]);
            assert(sb[i].len() > 0);
        }
    }
    assert forall|source: Seq<char>| #[trigger] joined_content_bytes(source, stripped_lines(a)) == joined_content_bytes(source, stripped_lines(b)) by {
        lemma_joined_eq(source, sa, sb);
    }
}

pub(crate) proof fn lemma_same_ranges_box(a: Seq<(Token, ByteRange<usize>)>, b: Seq<(Token, ByteRange<usize>)>)
    requires
        same_ranges(a, b),
    ensures
        spec_bounding_box(a) == spec_bounding_box(b),
{
    assert(starts_of(a) =~= starts_of(b));
    assert(ends_of(a) =~= ends_of(b));
}

/// A line's tokens paired with their spans (tokens copied).
pub(crate) fn normalize_line_token(lt: &LineToken) -> (r: Vec<(Token, ByteRange<usize>)>)
    ensures
        same_ranges(r@, line_pairs(*lt)),
{
    let n = if lt.source_tokens.len() <= lt.token_spans.len() {
        lt.source_tokens.len()
    } else {
        lt.token_spans.len()
    };
    let mut out: Vec<(Token, ByteRange<usize>)> = Vec::new();
    let mut i: usize = 0;
    while i < n
        invariant
            i <= n,
            n == line_pairs(*lt).len(),
            n <= lt.source_tokens@.len(),
            n <= lt.token_spans@.len(),
            out@.len() == i,
            forall|j: int| 0 <= j < i ==> (#[trigger] out@[j]).1 == lt.token_spans@[j],
            forall|j: int|
                0 <= j < i ==> (is_indent_token((#[trigger] out@[j]).0) <==> is_indent_token(
                    lt.source_tokens@[j],
                )),
        decreases n - i,
    {
        let t = lt.source_tokens[i].deep_clone();
        assert(is_indent_token(t) <==> is_indent_token(lt.source_tokens@[i as int]));
        let r = clone_range(&lt.token_spans[i]);
        out.push((t, r));
        i = i + 1;
    }
    out
}

// ---------------------------------------------------------------------------
// Creation
// ---------------------------------------------------------------------------

/// The locations of the items.
pub open spec fn item_locations(items: Seq<ContentItem>) -> Seq<Range> {
    items.map_values(|c: ContentItem| item_location(c))
}

/// The bounding box of a primary location and the locations of the items.
pub open spec fn spec_aggregate(primary: Range, items: Seq<ContentItem>) -> Range {
    spec_bounding_location(seq![primary] + item_locations(items))
}

/// The bounding box of a primary location and the locations of the items.
fn aggregate_locations(primary: Range, children: &Vec<ContentItem>) -> (r: Range)
    ensures
        r == spec_aggregate(primary, children@),
{
    let mut ls: Vec<Range> = Vec::new();
    ls.push(primary);
    let mut i: usize = 0;
    while i < children.len()
        invariant
            i <= children@.len(),
            ls@ == seq![primary] + item_locations(children@.take(i as int)),
        decreases children@.len() - i,
    {
        let l = children[i].range().clone();
        proof {
            assert(item_locations(children@.take(i + 1)) =~= item_locations(children@.take(i as int)).push(l));
        }
        ls.push(l);
        proof {
            assert(ls@ =~= seq![primary] + item_locations(children@.take(i + 1)));
        }
        i = i + 1;
    }
    proof {
        assert(children@.take(children@.len() as int) =~= children@);
    }
    compute_location_from_locations(ls.as_slice())
}

/// The bytes of the source text of each line's bounding box.
pub open spec fn paragraph_lines_match(
    lines: Seq<TextLine>,
    source: Seq<char>,
    token_lines: Seq<Seq<(Token, ByteRange<usize>)>>,
) -> bool {
    &&& lines.len() == token_lines.len()
    &&& forall|i: int|
        0 <= i < lines.len() ==> utf8((#[trigger] lines[i]).content.text@) == box_bytes(
            source,
            token_lines[i],
        ) && lines[i].location == spec_range_of(utf8(source), spec_bounding_box(token_lines[i]))
}

/// A paragraph from token lines: one text line per token line, each with
/// the source text and location of its bounding box; the paragraph's
/// location is that of all tokens.
pub fn build_paragraph_from_tokens(
    token_lines: Vec<Vec<(Token, ByteRange<usize>)>>,
    source: &str,
) -> (r: ContentItem)
    requires
        lines_in_text(source@, token_lines@),
    ensures
        r is Paragraph,
        paragraph_lines_match(r->Paragraph_0.lines@, source@, vec_seqs(token_lines@)),
        r->Paragraph_0.location == spec_range_of(
            utf8(source@),
            spec_bounding_box(flatten_lines(token_lines@)),
        ),
{
    let ghost ls = token_lines@;
    let data = extract_paragraph_data(token_lines, source);
    let mut lines: Vec<TextLine> = Vec::new();
    let n = data.text_lines.len();
    let ghost tl = data.text_lines@;
    let mut i: usize = 0;
    for pair in it: data.text_lines.into_iter()
        invariant
            i == it.index(),
            it.seq() == tl,
            n == tl.len(),
            i <= n,
            tl.len() == ls.len(),
            forall|j: int|
                0 <= j < ls.len() ==> (#[trigger] tl[j]).1 == spec_bounding_box(ls[j]@) && utf8(
                    tl[j].0@,
                ) == box_bytes(source@, ls[j]@),
            lines@.len() == i,
            forall|j: int|
                0 <= j < i ==> utf8((#[trigger] lines@[j]).content.text@) == box_bytes(
                    source@,
                    ls[j]@,
                ) && lines@[j].location == spec_range_of(
                    utf8(source@),
                    spec_bounding_box(ls[j]@),
                ),
    {
        let (text, range) = pair;
        let location = byte_range_to_ast_range(range, source);
        lines.push(TextLine { content: TextContent { text }, location });
        i = i + 1;
    }
    let location = byte_range_to_ast_range(data.overall_byte_range, source);
    ContentItem::Paragraph(Paragraph { lines, location })
}

/// A paragraph from classified lines (see `build_paragraph_from_tokens`).
pub fn build_paragraph(line_tokens: &[LineToken], source: &str) -> (r: ContentItem)
    requires
        forall|i: int|
            0 <= i < line_tokens@.len() ==> box_in_text(source@, line_pairs(#[trigger] line_tokens@[i])),
    ensures
        r is Paragraph,
        paragraph_lines_match(
            r->Paragraph_0.lines@,
            source@,
            line_tokens@.map_values(|lt: LineToken| line_pairs(lt)),
        ),
{
    let ghost lts = line_tokens@;
    let mut token_lines: Vec<Vec<(Token, ByteRange<usize>)>> = Vec::new();
    let mut i: usize = 0;
    while i < line_tokens.len()
        invariant
            i <= lts.len(),
            lts == line_tokens@,
            token_lines@.len() == i,
            forall|j: int| 0 <= j < i ==> same_ranges((#[trigger] token_lines@[j])@, line_pairs(lts[j])),
        decreases lts.len() - i,
    {
        let v = normalize_line_token(&line_tokens[i]);
        token_lines.push(v);
        i = i + 1;
    }
    proof {
        assert forall|j: int| 0 <= j < token_lines@.len() implies box_in_text(
            source@,
            #[trigger] token_lines@[j]@,
        ) by {
            lemma_same_ranges_box(token_lines@[j]@, line_pairs(lts[j]));
            assert(box_in_text(source@, line_pairs(lts[j])));
        }
    }
    let ghost tls = token_lines@;
    let r = build_paragraph_from_tokens(token_lines, source);
    proof {
        let m = lts.map_values(|lt: LineToken| line_pairs(lt));
        assert forall|j: int| 0 <= j < lts.len() implies utf8(
            (#[trigger] r->Paragraph_0.lines@[j]).content.text@,
        ) == box_bytes(source@, m[j]) && r->Paragraph_0.lines@[j].location == spec_range_of(
            utf8(source@),
            spec_bounding_box(m[j]),
        ) by {
            lemma_same_ranges_box(tls[j]@, line_pairs(lts[j]));
            assert(vec_seqs(tls)[j] == tls[j]@);
        }
    }
    r
}

/// A session from title pairs and content: the title's source text, the
/// content as given, located at the bounding box of the title and content.
pub fn build_session_from_tokens(
    title_tokens: Vec<(Token, ByteRange<usize>)>,
    content: Vec<ContentItem>,
    source: &str,
) -> (r: ContentItem)
    requires
        box_in_text(source@, title_tokens@),
    ensures
        r is Session,
        utf8(r->Session_0.title.text@) == box_bytes(source@, title_tokens@),
        r->Session_0.children@ == content@,
        r->Session_0.location == spec_aggregate(
            spec_range_of(utf8(source@), spec_bounding_box(title_tokens@)),
            content@,
        ),
{
    let data = extract_session_data(title_tokens, source);
    let title_location = byte_range_to_ast_range(data.title_byte_range, source);
    let location = aggregate_locations(title_location, &content);
    ContentItem::Session(
        Session { title: TextContent { text: data.title_text }, children: content, location },
    )
}

/// A session from a classified title line (see `build_session_from_tokens`).
pub fn build_session(title_token: &LineToken, content: Vec<ContentItem>, source: &str) -> (r:
    ContentItem)
    requires
        box_in_text(source@, line_pairs(*title_token)),
    ensures
        r is Session,
        utf8(r->Session_0.title.text@) == box_bytes(source@, line_pairs(*title_token)),
        r->Session_0.children@ == content@,
        r->Session_0.location == spec_aggregate(
            spec_range_of(utf8(source@), spec_bounding_box(line_pairs(*title_token))),
            content@,
        ),
{
    let tokens = normalize_line_token(title_token);
    proof {
        lemma_same_ranges_box(tokens@, line_pairs(*title_token));
    }
    build_session_from_tokens(tokens, content, source)
}

/// A definition from subject pairs and content: the subject's source text,
/// the content as given, located at the bounding box of subject and content.
pub fn build_definition_from_tokens(
    subject_tokens: Vec<(Token, ByteRange<usize>)>,
    content: Vec<ContentItem>,
    source: &str,
) -> (r: ContentItem)
    requires
        box_in_text(source@, subject_tokens@),
    ensures
        r is Definition,
        utf8(r->Definition_0.subject.text@) == box_bytes(source@, subject_tokens@),
        r->Definition_0.children@ == content@,
        r->Definition_0.location == spec_aggregate(
            spec_range_of(utf8(source@), spec_bounding_box(subject_tokens@)),
            content@,
        ),
{
    let data = extract_definition_data(subject_tokens, source);
    let subject_location = byte_range_to_ast_range(data.subject_byte_range, source);
    let location = aggregate_locations(subject_location, &content);
    ContentItem::Definition(
        Definition { subject: TextContent { text: data.subject_text }, children: content, location },
    )
}

/// A definition from a classified subject line (see
/// `build_definition_from_tokens`).
pub fn build_definition(subject_token: &LineToken, content: Vec<ContentItem>, source: &str) -> (r:
    ContentItem)
    requires
        box_in_text(source@, line_pairs(*subject_token)),
    ensures
        r is Definition,
        utf8(r->Definition_0.subject.text@) == box_bytes(source@, line_pairs(*subject_token)),
        r->Definition_0.children@ == content@,
        r->Definition_0.location == spec_aggregate(
            spec_range_of(utf8(source@), spec_bounding_box(line_pairs(*subject_token))),
            content@,
        ),
{
    let tokens = normalize_line_token(subject_token);
    proof {
        lemma_same_ranges_box(tokens@, line_pairs(*subject_token));
    }
    build_definition_from_tokens(tokens, content, source)
}

/// A list of the given items, located at the bounding box of the items'
/// locations.
pub fn build_list(items: Vec<ListItem>) -> (r: ContentItem)
    ensures
        r is List,
        r->List_0.items@.len() == items@.len(),
        forall|i: int|
            0 <= i < items@.len() ==> (#[trigger] r->List_0.items@[i]) == ContentItem::ListItem(
                items@[i],
            ),
        r->List_0.location == spec_bounding_location(
            items@.map_values(|li: ListItem| li.location),
        ),
{
    let ghost its = items@;
    let n = items.len();
    let mut out: Vec<ContentItem> = Vec::new();
    let mut ls: Vec<Range> = Vec::new();
    let mut i: usize = 0;
    for item in it: items.into_iter()
        invariant
            i == it.index(),
            it.seq() == its,
            n == its.len(),
            i <= n,
            out@.len() == i,
            forall|j: int| 0 <= j < i ==> (#[trigger] out@[j]) == ContentItem::ListItem(its[j]),
            ls@ == its.take(i as int).map_values(|li: ListItem| li.location),
    {
        let l = item.location.clone();
        proof {
            assert(its.take(i + 1).map_values(|li: ListItem| li.location) =~= its.take(
                i as int,
            ).map_values(|li: ListItem| li.location).push(l));
        }
        ls.push(l);
        out.push(ContentItem::ListItem(item));
        i = i + 1;
    }
    proof {
        assert(its.take(n as int) =~= its);
    }
    let location = compute_location_from_locations(ls.as_slice());
    ContentItem::List(List { items: out, location })
}

/// A list item from its line's pairs and content: the line's source text,
/// the content as given, located at the bounding box of line and content.
pub fn build_list_item_from_tokens(
    marker_tokens: Vec<(Token, ByteRange<usize>)>,
    content: Vec<ContentItem>,
    source: &str,
) -> (r: ListItem)
    requires
        box_in_text(source@, marker_tokens@),
    ensures
        utf8(r.text.text@) == box_bytes(source@, marker_tokens@),
        r.children@ == content@,
        r.location == spec_aggregate(
            spec_range_of(utf8(source@), spec_bounding_box(marker_tokens@)),
            content@,
        ),
{
    let data = extract_list_item_data(marker_tokens, source);
    let marker_location = byte_range_to_ast_range(data.marker_byte_range, source);
    let location = aggregate_locations(marker_location, &content);
    ListItem { text: TextContent { text: data.marker_text }, children: content, location }
}

/// A list item from a classified line (see `build_list_item_from_tokens`).
pub fn build_list_item(marker_token: &LineToken, content: Vec<ContentItem>, source: &str) -> (r:
    ListItem)
    requires
        box_in_text(source@, line_pairs(*marker_token)),
    ensures
        utf8(r.text.text@) == box_bytes(source@, line_pairs(*marker_token)),
        r.children@ == content@,
        r.location == spec_aggregate(
            spec_range_of(utf8(source@), spec_bounding_box(line_pairs(*marker_token))),
            content@,
        ),
{
    let tokens = normalize_line_token(marker_token);
    proof {
        lemma_same_ranges_box(tokens@, line_pairs(*marker_token));
    }
    build_list_item_from_tokens(tokens, content, source)
}

/// An annotation from label pairs, parameters and content: the label's
/// source text and location, the parameters and content as given, located at
/// the bounding box of label and content.
pub fn build_annotation_from_tokens(
    label_tokens: Vec<(Token, ByteRange<usize>)>,
    parameters: Vec<Parameter>,
    content: Vec<ContentItem>,
    source: &str,
) -> (r: ContentItem)
    requires
        box_in_text(source@, label_tokens@),
    ensures
        r is Annotation,
        utf8(r->Annotation_0.label.value@) == box_bytes(source@, label_tokens@),
        r->Annotation_0.label.location == spec_range_of(
            utf8(source@),
            spec_bounding_box(label_tokens@),
        ),
        r->Annotation_0.parameters@ == parameters@,
        r->Annotation_0.children@ == content@,
        r->Annotation_0.location == spec_aggregate(
            spec_range_of(utf8(source@), spec_bounding_box(label_tokens@)),
            content@,
        ),
{
    let data = extract_annotation_data(label_tokens, source);
    let label_location = byte_range_to_ast_range(data.label_byte_range, source);
    let location = aggregate_locations(label_location.clone(), &content);
    ContentItem::Annotation(
        Annotation {
            label: crate::ast::Label { value: data.label_text, location: label_location },
            parameters,
            children: content,
            location,
        },
    )
}

/// An annotation from a classified label line (see
/// `build_annotation_from_tokens`).
pub fn build_annotation(
    label_token: &LineToken,
    parameters: Vec<Parameter>,
    content: Vec<ContentItem>,
    source: &str,
) -> (r: ContentItem)
    requires
        box_in_text(source@, line_pairs(*label_token)),
    ensures
        r is Annotation,
        utf8(r->Annotation_0.label.value@) == box_bytes(source@, line_pairs(*label_token)),
        r->Annotation_0.parameters@ == parameters@,
        r->Annotation_0.children@ == content@,
{
    let tokens = normalize_line_token(label_token);
    proof {
        lemma_same_ranges_box(tokens@, line_pairs(*label_token));
    }
    build_annotation_from_tokens(tokens, parameters, content, source)
}

/// The location of a verbatim block's content: the bounding box of its lines
/// with the indentation wall removed.
pub open spec fn verbatim_content_location(
    source: Seq<char>,
    lines: Seq<Seq<(Token, ByteRange<usize>)>>,
) -> Range {
    spec_range_of(utf8(source), spec_bounding_box(crate::data_extraction::flatten_stripped(stripped_lines(lines))))
}

/// A verbatim block from subject pairs, content lines and the closing
/// annotation: the subject's source text; the content text with its
/// indentation wall removed, held as one content line (none when the content
/// is empty); the closing annotation as given; located at the bounding box
/// of the subject and content.
pub fn build_foreign_block_from_tokens(
    subject_tokens: Vec<(Token, ByteRange<usize>)>,
    content_token_lines: Vec<Vec<(Token, ByteRange<usize>)>>,
    closing_annotation: Annotation,
    source: &str,
) -> (r: ContentItem)
    requires
        box_in_text(source@, subject_tokens@),
        stripped_lines_in_text(source@, vec_seqs(content_token_lines@)),
    ensures
        r is VerbatimBlock,
        utf8(r->VerbatimBlock_0.subject.text@) == box_bytes(source@, subject_tokens@),
        r->VerbatimBlock_0.closing_annotation == closing_annotation,
        r->VerbatimBlock_0.children@.len() <= 1,
        r->VerbatimBlock_0.children@.len() == 0 <==> joined_content_bytes(
            source@,
            stripped_lines(vec_seqs(content_token_lines@)),
        ).len() == 0,
        r->VerbatimBlock_0.children@.len() == 1 ==> utf8(
            r->VerbatimBlock_0.children@[0].content.text@,
        ) == joined_content_bytes(source@, stripped_lines(vec_seqs(content_token_lines@))),
        r->VerbatimBlock_0.children@.len() == 1 ==> r->VerbatimBlock_0.children@[0].location
            == verbatim_content_location(source@, vec_seqs(content_token_lines@)),
        r->VerbatimBlock_0.location == spec_bounding_location(
            seq![
                spec_range_of(utf8(source@), spec_bounding_box(subject_tokens@)),
                verbatim_content_location(source@, vec_seqs(content_token_lines@)),
            ],
        ),
{
    let data = extract_foreign_block_data(subject_tokens, content_token_lines, source);
    let subject_location = byte_range_to_ast_range(data.subject_byte_range, source);
    let content_location = byte_range_to_ast_range(data.content_byte_range, source);
    let mut ls: Vec<Range> = Vec::new();
    ls.push(subject_location);
    ls.push(content_location.clone());
    proof {
        assert(ls@ =~= seq![subject_location, content_location]);
    }
    let location = compute_location_from_locations(ls.as_slice());
    let mut children: Vec<VerbatimLine> = Vec::new();
    let empty = data.content_text.as_str().is_empty();
    proof {
        if data.content_text@.len() == 0 {
            assert(utf8(data.content_text@) =~= Seq::<u8>::empty());
        } else {
            vstd::utf8::encode_utf8_decode_utf8(data.content_text@);
            if utf8(data.content_text@).len() == 0 {
                assert(vstd::utf8::decode_utf8(utf8(data.content_text@)) =~= Seq::<char>::empty());
            }
        }
    }
    if !empty {
        children.push(
            VerbatimLine { content: TextContent { text: data.content_text }, location: content_location },
        );
    }
    ContentItem::VerbatimBlock(
        Verbatim {
            subject: TextContent { text: data.subject_text },
            children,
            closing_annotation,
            location,
        },
    )
}

/// A verbatim block from classified lines (see
/// `build_foreign_block_from_tokens`).
pub fn build_foreign_block(
    subject_token: &LineToken,
    content_tokens: Vec<&LineToken>,
    closing_annotation: Annotation,
    source: &str,
) -> (r: ContentItem)
    requires
        box_in_text(source@, line_pairs(*subject_token)),
        stripped_lines_in_text(source@, content_tokens@.map_values(|lt: &LineToken| line_pairs(*lt))),
    ensures
        r is VerbatimBlock,
        utf8(r->VerbatimBlock_0.subject.text@) == box_bytes(source@, line_pairs(*subject_token)),
        r->VerbatimBlock_0.closing_annotation == closing_annotation,
        r->VerbatimBlock_0.children@.len() <= 1,
        r->VerbatimBlock_0.children@.len() == 0 <==> joined_content_bytes(
            source@,
            stripped_lines(content_tokens@.map_values(|lt: &LineToken| line_pairs(*lt))),
        ).len() == 0,
        r->VerbatimBlock_0.children@.len() == 1 ==> utf8(
            r->VerbatimBlock_0.children@[0].content.text@,
        ) == joined_content_bytes(
            source@,
            stripped_lines(content_tokens@.map_values(|lt: &LineToken| line_pairs(*lt))),
        ),
{
    let ghost orig = content_tokens@.map_values(|lt: &LineToken| line_pairs(*lt));
    let subject = normalize_line_token(subject_token);
    proof {
        lemma_same_ranges_box(subject@, line_pairs(*subject_token));
    }
    let mut lines: Vec<Vec<(Token, ByteRange<usize>)>> = Vec::new();
    let mut i: usize = 0;
    while i < content_tokens.len()
        invariant
            i <= content_tokens@.len(),
            orig == content_tokens@.map_values(|lt: &LineToken| line_pairs(*lt)),
            lines@.len() == i,
            forall|j: int| 0 <= j < i ==> same_ranges((#[trigger] lines@[j])@, orig[j]),
        decreases content_tokens@.len() - i,
    {
        let v = normalize_line_token(content_tokens[i]);
        lines.push(v);
        i = i + 1;
    }
    proof {
        lemma_same_lines_stripped(vec_seqs(lines@), orig);
    }
    build_foreign_block_from_tokens(subject, lines, closing_annotation, source)
}

} // verus!
