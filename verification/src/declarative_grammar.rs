//! The declarative grammar of the line-based parser.
//!
//! Each element of a level (a classified line, or a container of nested
//! lines) is a symbol: its line type, or "container". At each position the
//! grammar rules are tried in a fixed order and the first one that matches
//! consumes its symbols:
//!
//! 1. verbatim block: a subject line, blank lines, an optional container and
//!    a closing annotation line;
//! 2. annotation block with end: annotation start, container, annotation end;
//! 3. annotation block: annotation start, container;
//! 4. single-line annotation: annotation start;
//! 5. list without a preceding blank line: two or more list items, each a
//!    list line with an optional container, and an optional blank line;
//! 6. list: blank lines, then as in 5;
//! 7. session: a subject, blank lines, a container;
//! 8. definition: a subject and a container right after it;
//! 9. paragraph: consecutive content lines;
//! 10. blank line group: consecutive blank lines.
//!
//! Repetitions take as many symbols as they can. A position that no rule
//! matches is skipped.

use crate::ir::{lemma_pnodes_model_push, pnode_model, pnodes_model, NodeType, ParseNode, ParseNodeModel};
use crate::tokens::{zip_spec, LineContainer, LineToken, LineType, Token};
use std::ops::Range;
use vstd::prelude::*;

verus! {

/// The symbol of an element: its line type, or none for a container.
pub open spec fn sym_of(c: LineContainer) -> Option<LineType> {
    match c {
        LineContainer::Token(t) => Some(t.line_type),
        LineContainer::Container { .. } => None,
    }
}

/// The symbols of a level.
pub open spec fn syms_of(cs: Seq<LineContainer>) -> Seq<Option<LineType>> {
    Seq::new(cs.len(), |i: int| sym_of(cs[i]))
}

/// A blank line.
pub open spec fn is_blank(x: Option<LineType>) -> bool {
    x == Some(LineType::BlankLine)
}

/// A line that can open a list item.
pub open spec fn is_list_kind(x: Option<LineType>) -> bool {
    x == Some(LineType::ListLine) || x == Some(LineType::SubjectOrListItemLine)
}

/// A line that can be part of a paragraph.
pub open spec fn is_para_kind(x: Option<LineType>) -> bool {
    ||| x == Some(LineType::ParagraphLine)
    ||| x == Some(LineType::SubjectLine)
    ||| x == Some(LineType::ListLine)
    ||| x == Some(LineType::SubjectOrListItemLine)
    ||| x == Some(LineType::DialogLine)
}

/// A line that can be the subject of a session.
pub open spec fn is_session_subject(x: Option<LineType>) -> bool {
    ||| x == Some(LineType::ParagraphLine)
    ||| x == Some(LineType::SubjectLine)
    ||| x == Some(LineType::ListLine)
    ||| x == Some(LineType::SubjectOrListItemLine)
}

/// A line that can be the subject of a definition.
pub open spec fn is_definition_subject(x: Option<LineType>) -> bool {
    ||| x == Some(LineType::SubjectLine)
    ||| x == Some(LineType::SubjectOrListItemLine)
    ||| x == Some(LineType::ParagraphLine)
}

/// A line that can be the subject of a verbatim block.
pub open spec fn is_verbatim_subject(x: Option<LineType>) -> bool {
    x == Some(LineType::SubjectLine) || x == Some(LineType::SubjectOrListItemLine)
}

/// A line that can close a verbatim block.
pub open spec fn is_closing(x: Option<LineType>) -> bool {
    x == Some(LineType::AnnotationEndLine) || x == Some(LineType::AnnotationStartLine)
}

/// The number of consecutive blank lines from position `i`.
pub open spec fn blank_run(s: Seq<Option<LineType>>, i: int) -> int
    decreases s.len() - i,
{
    if 0 <= i < s.len() && is_blank(s[i]) {
        1 + blank_run(s, i + 1)
    } else {
        0
    }
}

/// The number of consecutive paragraph lines from position `i`.
pub open spec fn para_run(s: Seq<Option<LineType>>, i: int) -> int
    decreases s.len() - i,
{
    if 0 <= i < s.len() && is_para_kind(s[i]) {
        1 + para_run(s, i + 1)
    } else {
        0
    }
}

/// The symbols a list item at `i` takes: its line, and the container right
/// after it if there is one.
pub open spec fn item_width(s: Seq<Option<LineType>>, i: int) -> int {
    if i + 1 < s.len() && s[i + 1] is None {
        2
    } else {
        1
    }
}

/// The list items from position `i`, as positions relative to `base` of
/// each item line and of its container.
pub open spec fn list_items(s: Seq<Option<LineType>>, i: int, base: int) -> Seq<(usize, Option<usize>)>
    decreases s.len() - i,
{
    if 0 <= i < s.len() && is_list_kind(s[i]) {
        let w = item_width(s, i);
        seq![
            ((i - base) as usize, if w == 2 {
                Some((i + 1 - base) as usize)
            } else {
                None
            }),
        ] + list_items(s, i + w, base)
    } else {
        Seq::empty()
    }
}

/// The position right after the list items from position `i`.
pub open spec fn list_end(s: Seq<Option<LineType>>, i: int) -> int
    decreases s.len() - i,
{
    if 0 <= i < s.len() && is_list_kind(s[i]) {
        list_end(s, i + item_width(s, i))
    } else {
        i
    }
}

/// One when a blank line stands at `e`, else zero.
pub open spec fn trailing_blank(s: Seq<Option<LineType>>, e: int) -> int {
    if 0 <= e < s.len() && is_blank(s[e]) {
        1
    } else {
        0
    }
}

/// Where the closing line of a verbatim block whose subject is at `st`
/// would stand: after the blank lines and the optional container.
pub open spec fn verbatim_closing_at(s: Seq<Option<LineType>>, st: int) -> int {
    let j = st + 1 + blank_run(s, st + 1);
    if j < s.len() && s[j] is None {
        j + 1
    } else {
        j
    }
}

/// A matched rule, with the positions of its parts relative to its start.
#[derive(Debug)]
pub enum PatternMatch {
    VerbatimBlock {
        subject_idx: usize,
        blank_idx: Option<usize>,
        content_idx: Option<usize>,
        closing_idx: usize,
    },
    AnnotationBlock { start_idx: usize, content_idx: usize, end_idx: usize },
    AnnotationSingle { start_idx: usize },
    List { blank_idx: usize, items: Vec<(usize, Option<usize>)> },
    Definition { subject_idx: usize, content_idx: usize },
    Session { subject_idx: usize, blank_idx: usize, content_idx: usize },
    Paragraph { start_idx: usize, end_idx: usize },
    BlankLineGroup { start_idx: usize, end_idx: usize },
}

/// The mathematical content of a matched rule.
pub enum PatternView {
    VerbatimBlock {
        subject_idx: usize,
        blank_idx: Option<usize>,
        content_idx: Option<usize>,
        closing_idx: usize,
    },
    AnnotationBlock { start_idx: usize, content_idx: usize, end_idx: usize },
    AnnotationSingle { start_idx: usize },
    List { blank_idx: usize, items: Seq<(usize, Option<usize>)> },
    Definition { subject_idx: usize, content_idx: usize },
    Session { subject_idx: usize, blank_idx: usize, content_idx: usize },
    Paragraph { start_idx: usize, end_idx: usize },
    BlankLineGroup { start_idx: usize, end_idx: usize },
}

impl View for PatternMatch {
    type V = PatternView;

    open spec fn view(&self) -> PatternView {
        match *self {
            PatternMatch::VerbatimBlock { subject_idx, blank_idx, content_idx, closing_idx } => {
                PatternView::VerbatimBlock { subject_idx, blank_idx, content_idx, closing_idx }
            },
            PatternMatch::AnnotationBlock { start_idx, content_idx, end_idx } => {
                PatternView::AnnotationBlock { start_idx, content_idx, end_idx }
            },
            PatternMatch::AnnotationSingle { start_idx } => PatternView::AnnotationSingle {
                start_idx,
            },
            PatternMatch::List { blank_idx, items } => PatternView::List {
                blank_idx,
                items: items@,
            },
            PatternMatch::Definition { subject_idx, content_idx } => PatternView::Definition {
                subject_idx,
                content_idx,
            },
            PatternMatch::Session { subject_idx, blank_idx, content_idx } => PatternView::Session {
                subject_idx,
                blank_idx,
                content_idx,
            },
            PatternMatch::Paragraph { start_idx, end_idx } => PatternView::Paragraph {
                start_idx,
                end_idx,
            },
            PatternMatch::BlankLineGroup { start_idx, end_idx } => PatternView::BlankLineGroup {
                start_idx,
                end_idx,
            },
        }
    }
}

/// The verbatim block rule at `st`.
pub open spec fn rule_verbatim(s: Seq<Option<LineType>>, st: int) -> Option<(PatternView, int)> {
    let b1 = blank_run(s, st + 1);
    let k = verbatim_closing_at(s, st);
    if is_verbatim_subject(s[st]) && k < s.len() && is_closing(s[k]) {
        Some(
            (
                PatternView::VerbatimBlock {
                    subject_idx: 0,
                    blank_idx: if b1 > 0 {
                        Some(1)
                    } else {
                        None
                    },
                    content_idx: if k > st + 1 + b1 {
                        Some((1 + b1) as usize)
                    } else {
                        None
                    },
                    closing_idx: (k - st) as usize,
                },
                k + 1 - st,
            ),
        )
    } else {
        None
    }
}

/// The annotation block rule with an end line, at `st`.
pub open spec fn rule_annotation_with_end(s: Seq<Option<LineType>>, st: int) -> Option<(PatternView, int)> {
    if s[st] == Some(LineType::AnnotationStartLine) && st + 2 < s.len() && s[st + 1] is None
        && s[st + 2] == Some(LineType::AnnotationEndLine) {
        Some((PatternView::AnnotationBlock { start_idx: 0, content_idx: 1, end_idx: 2 }, 3))
    } else {
        None
    }
}

/// The annotation block rule without an end line, at `st`.
pub open spec fn rule_annotation_block(s: Seq<Option<LineType>>, st: int) -> Option<(PatternView, int)> {
    if s[st] == Some(LineType::AnnotationStartLine) && st + 1 < s.len() && s[st + 1] is None {
        Some((PatternView::AnnotationBlock { start_idx: 0, content_idx: 1, end_idx: 1 }, 2))
    } else {
        None
    }
}

/// The single-line annotation rule at `st`.
pub open spec fn rule_annotation_single(s: Seq<Option<LineType>>, st: int) -> Option<(PatternView, int)> {
    if s[st] == Some(LineType::AnnotationStartLine) {
        Some((PatternView::AnnotationSingle { start_idx: 0 }, 1))
    } else {
        None
    }
}

/// The list rule whose items start at `first`, for a match starting at `st`.
pub open spec fn list_from(s: Seq<Option<LineType>>, st: int, first: int) -> Option<(PatternView, int)> {
    if list_items(s, first, st).len() >= 2 {
        let e = list_end(s, first);
        Some(
            (
                PatternView::List { blank_idx: 0, items: list_items(s, first, st) },
                e + trailing_blank(s, e) - st,
            ),
        )
    } else {
        None
    }
}

/// The list rule without a preceding blank line, at `st`.
pub open spec fn rule_list_no_blank(s: Seq<Option<LineType>>, st: int) -> Option<(PatternView, int)> {
    list_from(s, st, st)
}

/// The list rule after blank lines, at `st`.
pub open spec fn rule_list(s: Seq<Option<LineType>>, st: int) -> Option<(PatternView, int)> {
    let b0 = blank_run(s, st);
    if b0 >= 1 {
        list_from(s, st, st + b0)
    } else {
        None
    }
}

/// The session rule at `st`.
pub open spec fn rule_session(s: Seq<Option<LineType>>, st: int) -> Option<(PatternView, int)> {
    let b1 = blank_run(s, st + 1);
    if is_session_subject(s[st]) && b1 >= 1 && st + 1 + b1 < s.len() && s[st + 1 + b1] is None {
        Some(
            (
                PatternView::Session { subject_idx: 0, blank_idx: 1, content_idx: (1 + b1) as usize },
                2 + b1,
            ),
        )
    } else {
        None
    }
}

/// The definition rule at `st`.
pub open spec fn rule_definition(s: Seq<Option<LineType>>, st: int) -> Option<(PatternView, int)> {
    if is_definition_subject(s[st]) && st + 1 < s.len() && s[st + 1] is None {
        Some((PatternView::Definition { subject_idx: 0, content_idx: 1 }, 2))
    } else {
        None
    }
}

/// The paragraph rule at `st`.
pub open spec fn rule_paragraph(s: Seq<Option<LineType>>, st: int) -> Option<(PatternView, int)> {
    let p = para_run(s, st);
    if p >= 1 {
        Some((PatternView::Paragraph { start_idx: 0, end_idx: (p - 1) as usize }, p))
    } else {
        None
    }
}

/// The blank line group rule at `st`.
pub open spec fn rule_blank_group(s: Seq<Option<LineType>>, st: int) -> Option<(PatternView, int)> {
    let b0 = blank_run(s, st);
    if b0 >= 1 {
        Some((PatternView::BlankLineGroup { start_idx: 0, end_idx: (b0 - 1) as usize }, b0))
    } else {
        None
    }
}

/// The first of two outcomes that matched.
pub open spec fn first_of(
    a: Option<(PatternView, int)>,
    b: Option<(PatternView, int)>,
) -> Option<(PatternView, int)> {
    if a is Some {
        a
    } else {
        b
    }
}

/// The first rule that matches at position `st`, with the number of symbols
/// it consumes; none when `st` is past the end or no rule matches.
pub open spec fn spec_try_match(s: Seq<Option<LineType>>, st: int) -> Option<(PatternView, int)> {
    if !(0 <= st < s.len()) {
        None
    } else {
        first_of(rule_verbatim(s, st), first_of(rule_annotation_with_end(s, st), first_of(
            rule_annotation_block(s, st),
            first_of(rule_annotation_single(s, st), first_of(rule_list_no_blank(s, st), first_of(
                rule_list(s, st),
                first_of(rule_session(s, st), first_of(rule_definition(s, st), first_of(
                    rule_paragraph(s, st),
                    rule_blank_group(s, st),
                ))),
            ))),
        )))
    }
}

/// A run never reaches past the end.
pub proof fn lemma_runs_bounded(s: Seq<Option<LineType>>, i: int)
    requires
        0 <= i <= s.len(),
    ensures
        0 <= blank_run(s, i) <= s.len() - i,
        0 <= para_run(s, i) <= s.len() - i,
        i <= list_end(s, i) <= s.len(),
        list_items(s, i, i).len() <= list_end(s, i) - i,
    decreases s.len() - i,
{
    if i < s.len() {
        lemma_runs_bounded(s, i + 1);
        if is_list_kind(s[i]) {
            lemma_runs_bounded(s, i + item_width(s, i));
            lemma_list_items_len(s, i + item_width(s, i), i, i + item_width(s, i));
        }
    }
}

/// The number of list items does not depend on the base of their positions.
pub proof fn lemma_list_items_len(s: Seq<Option<LineType>>, i: int, b1: int, b2: int)
    ensures
        list_items(s, i, b1).len() == list_items(s, i, b2).len(),
    decreases s.len() - i,
{
    if 0 <= i < s.len() && is_list_kind(s[i]) {
        lemma_list_items_len(s, i + item_width(s, i), b1, b2);
    }
}

/// The symbol of each element, as the grammar sees it.
fn sym(c: &LineContainer) -> (r: Option<LineType>)
    ensures
        r == sym_of(*c),
{
    match c {
        LineContainer::Token(t) => Some(t.line_type),
        LineContainer::Container { .. } => None,
    }
}

/// The symbols of a level.
pub fn symbols(cs: &[LineContainer]) -> (r: Vec<Option<LineType>>)
    ensures
        r@ == syms_of(cs@),
{
    let mut out: Vec<Option<LineType>> = Vec::new();
    let mut i: usize = 0;
    while i < cs.len()
        invariant
            i <= cs@.len(),
            out@.len() == i,
            forall|j: int| 0 <= j < i ==> out@[j] == sym_of(cs@[j]),
        decreases cs@.len() - i,
    {
        out.push(sym(&cs[i]));
        i = i + 1;
    }
    proof {
        assert(out@ =~= syms_of(cs@));
    }
    out
}

fn blank_sym(x: Option<LineType>) -> (r: bool)
    ensures
        r == is_blank(x),
{
    matches!(x, Some(LineType::BlankLine))
}

fn list_sym(x: Option<LineType>) -> (r: bool)
    ensures
        r == is_list_kind(x),
{
    matches!(x, Some(LineType::ListLine) | Some(LineType::SubjectOrListItemLine))
}

fn para_sym(x: Option<LineType>) -> (r: bool)
    ensures
        r == is_para_kind(x),
{
    matches!(
        x,
        Some(LineType::ParagraphLine) | Some(LineType::SubjectLine) | Some(LineType::ListLine)
            | Some(LineType::SubjectOrListItemLine) | Some(LineType::DialogLine)
    )
}

/// The number of consecutive blank lines from `i`.
fn blank_run_at(s: &Vec<Option<LineType>>, i: usize) -> (r: usize)
    requires
        i <= s@.len(),
    ensures
        r == blank_run(s@, i as int),
{
    let mut j = i;
    while j < s.len() && blank_sym(s[j])
        invariant
            i <= j <= s@.len(),
            blank_run(s@, i as int) == (j - i) + blank_run(s@, j as int),
        decreases s@.len() - j,
    {
        j = j + 1;
    }
    j - i
}

/// The number of consecutive paragraph lines from `i`.
fn para_run_at(s: &Vec<Option<LineType>>, i: usize) -> (r: usize)
    requires
        i <= s@.len(),
    ensures
        r == para_run(s@, i as int),
{
    let mut j = i;
    while j < s.len() && para_sym(s[j])
        invariant
            i <= j <= s@.len(),
            para_run(s@, i as int) == (j - i) + para_run(s@, j as int),
        decreases s@.len() - j,
    {
        j = j + 1;
    }
    j - i
}

/// The list items from `i`, positioned relative to `base`, and the position
/// after them.
fn list_items_at(s: &Vec<Option<LineType>>, i: usize, base: usize) -> (r: (
    Vec<(usize, Option<usize>)>,
    usize,
))
    requires
        base <= i <= s@.len(),
    ensures
        r.0@ == list_items(s@, i as int, base as int),
        r.1 == list_end(s@, i as int),
{
    let mut out: Vec<(usize, Option<usize>)> = Vec::new();
    let mut j = i;
    proof {
        assert(out@ + list_items(s@, j as int, base as int) =~= list_items(s@, i as int, base as int));
    }
    while j < s.len() && list_sym(s[j])
        invariant
            base <= i <= j <= s@.len(),
            out@ + list_items(s@, j as int, base as int) == list_items(s@, i as int, base as int),
            list_end(s@, j as int) == list_end(s@, i as int),
        decreases s@.len() - j,
    {
        let ghost before = out@;
        let ghost rest = list_items(s@, j as int, base as int);
        let has_container = j + 1 < s.len() && s[j + 1].is_none();
        if has_container {
            out.push((j - base, Some(j + 1 - base)));
            proof {
                assert(before.push(out@.last()) + list_items(s@, j + 2, base as int) =~= before + rest);
            }
            j = j + 2;
        } else {
            out.push((j - base, None));
            proof {
                assert(before.push(out@.last()) + list_items(s@, j + 1, base as int) =~= before + rest);
            }
            j = j + 1;
        }
    }
    proof {
        assert(list_items(s@, j as int, base as int) =~= Seq::<(usize, Option<usize>)>::empty());
        assert(out@ + list_items(s@, j as int, base as int) =~= out@);
    }
    (out, j)
}

/// A matched rule agrees with a rule's outcome at `st`.
pub open spec fn rule_agrees(r: Option<(PatternMatch, Range<usize>)>, o: Option<(PatternView, int)>, st: int) -> bool {
    match (r, o) {
        (None, None) => true,
        (Some((p, rg)), Some((v, l))) => p@ == v && rg.start == st && rg.end == st + l,
        _ => false,
    }
}

/// The outcome of matching agrees with the first matching rule.
pub open spec fn match_agrees(
    r: Option<(PatternMatch, Range<usize>)>,
    s: Seq<Option<LineType>>,
    st: int,
) -> bool {
    rule_agrees(r, spec_try_match(s, st), st)
}

fn match_verbatim(s: &Vec<Option<LineType>>, st: usize) -> (r: Option<(PatternMatch, Range<usize>)>)
    requires
        st < s@.len(),
    ensures
        rule_agrees(r, rule_verbatim(s@, st as int), st as int),
        r is Some ==> st < r->Some_0.1.end <= s@.len(),
{
    let n = s.len();
    proof {
        lemma_runs_bounded(s@, st + 1);
    }
    let b1 = blank_run_at(s, st + 1);
    let j = st + 1 + b1;
    let k = if j < n && s[j].is_none() {
        j + 1
    } else {
        j
    };
    if matches!(s[st], Some(LineType::SubjectLine) | Some(LineType::SubjectOrListItemLine)) && k < n
        && matches!(s[k], Some(LineType::AnnotationEndLine) | Some(LineType::AnnotationStartLine)) {
        let p = PatternMatch::VerbatimBlock {
            subject_idx: 0,
            blank_idx: if b1 > 0 {
                Some(1)
            } else {
                None
            },
            content_idx: if k > j {
                Some(1 + b1)
            } else {
                None
            },
            closing_idx: k - st,
        };
        Some((p, st..k + 1))
    } else {
        None
    }
}

fn match_annotation(s: &Vec<Option<LineType>>, st: usize) -> (r: Option<(PatternMatch, Range<usize>)>)
    requires
        st < s@.len(),
    ensures
        rule_agrees(
            r,
            first_of(
                rule_annotation_with_end(s@, st as int),
                first_of(rule_annotation_block(s@, st as int), rule_annotation_single(s@, st as int)),
            ),
            st as int,
        ),
        r is Some ==> st < r->Some_0.1.end <= s@.len(),
{
    let n = s.len();
    if !matches!(s[st], Some(LineType::AnnotationStartLine)) {
        return None;
    }
    if n - st > 2 && s[st + 1].is_none() && matches!(s[st + 2], Some(LineType::AnnotationEndLine)) {
        return Some(
            (PatternMatch::AnnotationBlock { start_idx: 0, content_idx: 1, end_idx: 2 }, st..st + 3),
        );
    }
    if n - st > 1 && s[st + 1].is_none() {
        return Some(
            (PatternMatch::AnnotationBlock { start_idx: 0, content_idx: 1, end_idx: 1 }, st..st + 2),
        );
    }
    Some((PatternMatch::AnnotationSingle { start_idx: 0 }, st..st + 1))
}

fn match_list_from(s: &Vec<Option<LineType>>, st: usize, first: usize) -> (r: Option<
    (PatternMatch, Range<usize>),
>)
    requires
        st <= first <= s@.len(),
    ensures
        rule_agrees(r, list_from(s@, st as int, first as int), st as int),
        r is Some ==> st < r->Some_0.1.end <= s@.len(),
{
    let n = s.len();
    proof {
        lemma_runs_bounded(s@, first as int);
        lemma_list_items_len(s@, first as int, st as int, first as int);
    }
    let (items, e) = list_items_at(s, first, st);
    if items.len() >= 2 {
        let t = if e < n && blank_sym(s[e]) {
            1
        } else {
            0
        };
        Some((PatternMatch::List { blank_idx: 0, items }, st..e + t))
    } else {
        None
    }
}

fn match_list(s: &Vec<Option<LineType>>, st: usize) -> (r: Option<(PatternMatch, Range<usize>)>)
    requires
        st < s@.len(),
    ensures
        rule_agrees(
            r,
            first_of(rule_list_no_blank(s@, st as int), rule_list(s@, st as int)),
            st as int,
        ),
        r is Some ==> st < r->Some_0.1.end <= s@.len(),
{
    let n = s.len();
    let r0 = match_list_from(s, st, st);
    if r0.is_some() {
        return r0;
    }
    proof {
        lemma_runs_bounded(s@, st as int);
    }
    let b0 = blank_run_at(s, st);
    if b0 >= 1 {
        match_list_from(s, st, st + b0)
    } else {
        None
    }
}

fn match_session(s: &Vec<Option<LineType>>, st: usize) -> (r: Option<(PatternMatch, Range<usize>)>)
    requires
        st < s@.len(),
    ensures
        rule_agrees(
            r,
            first_of(rule_session(s@, st as int), rule_definition(s@, st as int)),
            st as int,
        ),
        r is Some ==> st < r->Some_0.1.end <= s@.len(),
{
    let n = s.len();
    proof {
        lemma_runs_bounded(s@, st + 1);
    }
    let b1 = blank_run_at(s, st + 1);
    let j = st + 1 + b1;
    let x = s[st];
    if matches!(
        x,
        Some(LineType::ParagraphLine) | Some(LineType::SubjectLine) | Some(LineType::ListLine)
            | Some(LineType::SubjectOrListItemLine)
    ) && b1 >= 1 && j < n && s[j].is_none() {
        return Some(
            (
                PatternMatch::Session { subject_idx: 0, blank_idx: 1, content_idx: 1 + b1 },
                st..st + 2 + b1,
            ),
        );
    }
    if matches!(
        x,
        Some(LineType::SubjectLine) | Some(LineType::SubjectOrListItemLine)
            | Some(LineType::ParagraphLine)
    ) && n - st > 1 && s[st + 1].is_none() {
        return Some((PatternMatch::Definition { subject_idx: 0, content_idx: 1 }, st..st + 2));
    }
    None
}

fn match_runs(s: &Vec<Option<LineType>>, st: usize) -> (r: Option<(PatternMatch, Range<usize>)>)
    requires
        st < s@.len(),
    ensures
        rule_agrees(
            r,
            first_of(rule_paragraph(s@, st as int), rule_blank_group(s@, st as int)),
            st as int,
        ),
        r is Some ==> st < r->Some_0.1.end <= s@.len(),
{
    let n = s.len();
    proof {
        lemma_runs_bounded(s@, st as int);
    }
    let p = para_run_at(s, st);
    if p >= 1 {
        return Some((PatternMatch::Paragraph { start_idx: 0, end_idx: p - 1 }, st..st + p));
    }
    let b0 = blank_run_at(s, st);
    if b0 >= 1 {
        return Some((PatternMatch::BlankLineGroup { start_idx: 0, end_idx: b0 - 1 }, st..st + b0));
    }
    None
}

/// Match the grammar rules in order at position `st` of the symbols.
pub fn match_at(s: &Vec<Option<LineType>>, st: usize) -> (r: Option<(PatternMatch, Range<usize>)>)
    ensures
        match_agrees(r, s@, st as int),
        r is Some ==> st < r->Some_0.1.end <= s@.len(),
{
    if st >= s.len() {
        return None;
    }
    let r = match_verbatim(s, st);
    if r.is_some() {
        return r;
    }
    let r = match_annotation(s, st);
    if r.is_some() {
        return r;
    }
    let r = match_list(s, st);
    if r.is_some() {
        return r;
    }
    let r = match_session(s, st);
    if r.is_some() {
        return r;
    }
    match_runs(s, st)
}

/// The grammar matcher.
pub struct GrammarMatcher;

impl GrammarMatcher {
    /// The first grammar rule that matches the elements from `start_idx`,
    /// with the range of elements it consumes.
    pub fn try_match(tokens: &[LineContainer], start_idx: usize) -> (r: Option<
        (PatternMatch, Range<usize>),
    >)
        ensures
            match_agrees(r, syms_of(tokens@), start_idx as int),
    {
        let s = symbols(tokens);
        match_at(&s, start_idx)
    }
}


/// The variant of the first matching rule tells which rule it was.
pub proof fn lemma_match_shape(s: Seq<Option<LineType>>, st: int)
    requires
        0 <= st < s.len(),
        spec_try_match(s, st) is Some,
    ensures
        spec_try_match(s, st)->Some_0.0 is VerbatimBlock ==> rule_verbatim(s, st) == spec_try_match(s, st),
        spec_try_match(s, st)->Some_0.0 is AnnotationBlock ==> first_of(
            rule_annotation_with_end(s, st),
            rule_annotation_block(s, st),
        ) == spec_try_match(s, st),
        spec_try_match(s, st)->Some_0.0 is AnnotationSingle ==> rule_annotation_single(s, st)
            == spec_try_match(s, st),
        spec_try_match(s, st)->Some_0.0 is List ==> first_of(rule_list_no_blank(s, st), rule_list(s, st))
            == spec_try_match(s, st),
        spec_try_match(s, st)->Some_0.0 is Session ==> rule_session(s, st) == spec_try_match(s, st),
        spec_try_match(s, st)->Some_0.0 is Definition ==> rule_definition(s, st) == spec_try_match(s, st),
        spec_try_match(s, st)->Some_0.0 is Paragraph ==> rule_paragraph(s, st) == spec_try_match(s, st),
        spec_try_match(s, st)->Some_0.0 is BlankLineGroup ==> rule_blank_group(s, st) == spec_try_match(
            s,
            st,
        ),
{
}

/// Every line of a paragraph run is a paragraph line.
pub proof fn lemma_para_run_lines(s: Seq<Option<LineType>>, i: int)
    requires
        0 <= i <= s.len(),
    ensures
        forall|j: int| i <= j < i + para_run(s, i) ==> is_para_kind(#[trigger] s[j]),
    decreases s.len() - i,
{
    if i < s.len() && is_para_kind(s[i]) {
        lemma_para_run_lines(s, i + 1);
    }
}

/// Where the list items from `i` stand: each item line is a list line after
/// the previous item, its container (if any) right after it, and all before
/// the end of the list.
pub proof fn lemma_list_items_layout(s: Seq<Option<LineType>>, i: int, base: int)
    requires
        0 <= base <= i <= s.len(),
        s.len() <= usize::MAX,
    ensures
        list_end(s, i) <= s.len(),
        forall|k: int| #![trigger list_items(s, i, base)[k]]
            0 <= k < list_items(s, i, base).len() ==> {
                let it = list_items(s, i, base)[k];
                &&& i <= base + it.0 < list_end(s, i)
                &&& is_list_kind(s[base + it.0])
                &&& it.1 is Some ==> it.1->0 == it.0 + 1 && base + it.1->0 < list_end(s, i) && s[base
                    + it.1->0] is None
                &&& k + 1 < list_items(s, i, base).len() ==> list_items(s, i, base)[k + 1].0 == it.0
                    + item_width(s, base + it.0)
                &&& it.1 is None ==> item_width(s, base + it.0) == 1
                &&& it.1 is Some ==> item_width(s, base + it.0) == 2
            },
        list_items(s, i, base).len() > 0 ==> list_items(s, i, base)[0].0 == i - base,
        list_items(s, i, base).len() > 0 ==> {
            let last = list_items(s, i, base).last();
            base + last.0 + item_width(s, base + last.0) == list_end(s, i)
        },
    decreases s.len() - i,
{
    lemma_runs_bounded(s, i);
    if i < s.len() && is_list_kind(s[i]) {
        let w = item_width(s, i);
        lemma_list_items_layout(s, i + w, base);
        lemma_runs_bounded(s, i + w);
        let rest = list_items(s, i + w, base);
        let all = list_items(s, i, base);
        assert forall|k: int| #![trigger all[k]] 0 <= k < all.len() implies {
            let it = all[k];
            &&& i <= base + it.0 < list_end(s, i)
            &&& is_list_kind(s[base + it.0])
            &&& it.1 is Some ==> it.1->0 == it.0 + 1 && base + it.1->0 < list_end(s, i) && s[base
                + it.1->0] is None
            &&& k + 1 < all.len() ==> all[k + 1].0 == it.0 + item_width(s, base + it.0)
            &&& it.1 is None ==> item_width(s, base + it.0) == 1
            &&& it.1 is Some ==> item_width(s, base + it.0) == 2
        } by {
            if k > 0 {
                assert(all[k] == rest[k - 1]);
                if k + 1 < all.len() {
                    assert(all[k + 1] == rest[k]);
                }
            } else {
                if rest.len() > 0 {
                    assert(all[1] == rest[0]);
                }
                if w == 1 {
                    assert(list_end(s, i + w) >= i + 1);
                }
            }
        }
        if rest.len() > 0 {
            assert(all.last() == rest.last());
        }
    }
}

/// The pairs of a line element; nothing for a container.
pub open spec fn pairs_of(c: LineContainer) -> Seq<(Token, Range<usize>)> {
    match c {
        LineContainer::Token(t) => zip_spec(t.source_tokens@, t.token_spans@),
        LineContainer::Container { .. } => Seq::empty(),
    }
}

/// The pairs of the line elements of a level, one line after the other.
pub open spec fn concat_pairs(cs: Seq<LineContainer>) -> Seq<(Token, Range<usize>)>
    decreases cs.len(),
{
    if cs.len() == 0 {
        Seq::empty()
    } else {
        concat_pairs(cs.drop_last()) + pairs_of(cs.last())
    }
}

/// Whether a token is left out by a filter that drops colons, whitespace,
/// blank lines or annotation markers, as selected.
pub open spec fn dropped(t: Token, colon: bool, ws: bool, blank: bool, marker: bool) -> bool {
    ||| colon && t is Colon
    ||| ws && t is Whitespace
    ||| blank && t is BlankLine
    ||| marker && t is LexMarker
}

/// The pairs whose tokens the filter keeps, in order.
pub open spec fn filter_out(
    s: Seq<(Token, Range<usize>)>,
    colon: bool,
    ws: bool,
    blank: bool,
    marker: bool,
) -> Seq<(Token, Range<usize>)>
    decreases s.len(),
{
    if s.len() == 0 {
        Seq::empty()
    } else {
        let r = filter_out(s.drop_last(), colon, ws, blank, marker);
        if dropped(s.last().0, colon, ws, blank, marker) {
            r
        } else {
            r.push(s.last())
        }
    }
}

/// The number of annotation markers among the pairs.
pub open spec fn marker_count(s: Seq<(Token, Range<usize>)>) -> nat
    decreases s.len(),
{
    if s.len() == 0 {
        0
    } else {
        marker_count(s.drop_last()) + if s.last().0 is LexMarker {
            1nat
        } else {
            0nat
        }
    }
}

/// The header of a single-line annotation: the tokens before its second
/// marker, markers left out.
pub open spec fn single_header(s: Seq<(Token, Range<usize>)>) -> Seq<(Token, Range<usize>)>
    decreases s.len(),
{
    if s.len() == 0 {
        Seq::empty()
    } else {
        let h = single_header(s.drop_last());
        if s.last().0 is LexMarker || marker_count(s.drop_last()) >= 2 {
            h
        } else {
            h.push(s.last())
        }
    }
}

/// The header of an annotation's opening line: the tokens between its first
/// and its second marker, the markers left out.
pub open spec fn marker_header(s: Seq<(Token, Range<usize>)>) -> Seq<(Token, Range<usize>)>
    decreases s.len(),
{
    if s.len() == 0 {
        Seq::empty()
    } else {
        let h = marker_header(s.drop_last());
        if !(s.last().0 is LexMarker) && marker_count(s.drop_last()) == 1 {
            h.push(s.last())
        } else {
            h
        }
    }
}

/// The inline content of a single-line annotation: the tokens after its
/// second marker, markers left out.
pub open spec fn single_content(s: Seq<(Token, Range<usize>)>) -> Seq<(Token, Range<usize>)>
    decreases s.len(),
{
    if s.len() == 0 {
        Seq::empty()
    } else {
        let c = single_content(s.drop_last());
        if !(s.last().0 is LexMarker) && marker_count(s.drop_last()) >= 2 {
            c.push(s.last())
        } else {
            c
        }
    }
}

/// A node model without children.
pub open spec fn leaf(t: NodeType, tokens: Seq<(Token, Range<usize>)>) -> ParseNodeModel {
    ParseNodeModel { node_type: t, tokens, children: Seq::empty() }
}

/// The children of a single-line annotation: a paragraph of its inline
/// content, if it has any.
pub open spec fn single_children(content: Seq<(Token, Range<usize>)>) -> Seq<ParseNodeModel> {
    if content.len() > 0 {
        seq![leaf(NodeType::Paragraph, content)]
    } else {
        Seq::empty()
    }
}

/// The parse of the level from position `idx`: at each position the first
/// matching rule is converted to a node (blank line groups give none) and
/// parsing goes on after the symbols it consumed; a position no rule
/// matches is skipped.
pub open spec fn parse_from(cs: Seq<LineContainer>, idx: int) -> Seq<ParseNodeModel>
    decreases cs, 2nat, cs.len() - idx,
{
    if idx < 0 || idx >= cs.len() {
        Seq::empty()
    } else {
        match spec_try_match(syms_of(cs), idx) {
            None => parse_from(cs, idx + 1),
            Some((p, l)) => {
                let head = if p is BlankLineGroup {
                    Seq::empty()
                } else {
                    seq![convert_spec(cs, p, idx)]
                };
                if l >= 1 && idx + l <= cs.len() {
                    head + parse_from(cs, idx + l)
                } else {
                    head
                }
            },
        }
    }
}

/// The parse of the container at position `j`; nothing for a line.
pub open spec fn block_parse(cs: Seq<LineContainer>, j: int) -> Seq<ParseNodeModel>
    decreases cs, 0nat, 0int,
{
    if 0 <= j < cs.len() {
        match cs[j] {
            LineContainer::Container { children } => {
                proof {
                    assert(decreases_to!(cs => cs[j]));
                    assert(decreases_to!(children => children@));
                }
                parse_from(children@, 0)
            },
            LineContainer::Token(_) => Seq::empty(),
        }
    } else {
        Seq::empty()
    }
}

/// The list item nodes of the given items of a list starting at `off`.
pub open spec fn item_nodes(
    cs: Seq<LineContainer>,
    items: Seq<(usize, Option<usize>)>,
    off: int,
) -> Seq<ParseNodeModel>
    decreases cs, 0nat, items.len(),
{
    if items.len() == 0 {
        Seq::empty()
    } else {
        let it = items.last();
        item_nodes(cs, items.drop_last(), off).push(
            ParseNodeModel {
                node_type: NodeType::ListItem,
                tokens: if 0 <= off + it.0 < cs.len() {
                    pairs_of(cs[off + it.0])
                } else {
                    Seq::empty()
                },
                children: match it.1 {
                    Some(c) => block_parse(cs, off + c),
                    None => Seq::empty(),
                },
            },
        )
    }
}

/// The node made from a matched rule starting at `off`.
pub open spec fn convert_spec(cs: Seq<LineContainer>, p: PatternView, off: int) -> ParseNodeModel
    decreases cs, 1nat, 0int,
{
    match p {
        PatternView::VerbatimBlock { subject_idx, blank_idx, content_idx, closing_idx } => {
            let closing = pairs_of(cs[off + closing_idx]);
            ParseNodeModel {
                node_type: NodeType::VerbatimBlock,
                tokens: Seq::empty(),
                children: seq![
                    leaf(
                        NodeType::ForeignBlockSubject,
                        filter_out(pairs_of(cs[off + subject_idx]), true, false, true, false),
                    ),
                    leaf(
                        NodeType::ForeignBlockContent,
                        match content_idx {
                            Some(ci) => if 0 <= off + ci < cs.len() {
                                match cs[off + ci] {
                                    LineContainer::Container { children } => concat_pairs(children@),
                                    LineContainer::Token(_) => Seq::empty(),
                                }
                            } else {
                                Seq::empty()
                            },
                            None => Seq::empty(),
                        },
                    ),
                    ParseNodeModel {
                        node_type: NodeType::ForeignBlockClosing,
                        tokens: single_header(closing),
                        children: single_children(single_content(closing)),
                    },
                ],
            }
        },
        PatternView::AnnotationBlock { start_idx, content_idx, end_idx } => ParseNodeModel {
            node_type: NodeType::Annotation,
            tokens: marker_header(pairs_of(cs[off + start_idx])),
            children: block_parse(cs, off + content_idx),
        },
        PatternView::AnnotationSingle { start_idx } => ParseNodeModel {
            node_type: NodeType::Annotation,
            tokens: single_header(pairs_of(cs[off + start_idx])),
            children: single_children(single_content(pairs_of(cs[off + start_idx]))),
        },
        PatternView::List { blank_idx, items } => ParseNodeModel {
            node_type: NodeType::List,
            tokens: Seq::empty(),
            children: item_nodes(cs, items, off),
        },
        PatternView::Definition { subject_idx, content_idx } => ParseNodeModel {
            node_type: NodeType::Definition,
            tokens: filter_out(pairs_of(cs[off + subject_idx]), true, true, true, false),
            children: block_parse(cs, off + content_idx),
        },
        PatternView::Session { subject_idx, blank_idx, content_idx } => ParseNodeModel {
            node_type: NodeType::Session,
            tokens: filter_out(pairs_of(cs[off + subject_idx]), false, true, true, false),
            children: block_parse(cs, off + content_idx),
        },
        PatternView::Paragraph { start_idx, end_idx } => leaf(
            NodeType::Paragraph,
            concat_pairs(cs.subrange(off + start_idx, off + end_idx + 1)),
        ),
        PatternView::BlankLineGroup { .. } => leaf(NodeType::Paragraph, Seq::empty()),
    }
}


/// A paragraph line directly followed by an indented container, with no
/// blank line between them, matches the definition rule: the line is the
/// subject and the container the content. Its parse is a definition whose
/// tokens are those of the line without colons, whitespace and blank lines,
/// and whose children are the parse of the container; parsing goes on after
/// the container.
pub proof fn lemma_paragraph_line_definition(cs: Seq<LineContainer>, idx: int)
    requires
        0 <= idx,
        idx + 1 < cs.len(),
        sym_of(cs[idx]) == Some(LineType::ParagraphLine),
        sym_of(cs[idx + 1]) is None,
    ensures
        spec_try_match(syms_of(cs), idx) == Some(
            (PatternView::Definition { subject_idx: 0, content_idx: 1 }, 2int),
        ),
        parse_from(cs, idx) == seq![
            (ParseNodeModel {
                node_type: NodeType::Definition,
                tokens: filter_out(pairs_of(cs[idx]), true, true, true, false),
                children: block_parse(cs, idx + 1),
            }),
        ] + parse_from(cs, idx + 2),
{
    let s = syms_of(cs);
    assert(s[idx] == Some(LineType::ParagraphLine));
    assert(s[idx + 1] is None);
    assert(blank_run(s, idx) == 0);
    assert(blank_run(s, idx + 1) == 0);
    assert(list_items(s, idx, idx) =~= Seq::<(usize, Option<usize>)>::empty());
    assert(rule_verbatim(s, idx) is None);
    assert(rule_annotation_with_end(s, idx) is None);
    assert(rule_annotation_block(s, idx) is None);
    assert(rule_annotation_single(s, idx) is None);
    assert(rule_list_no_blank(s, idx) is None);
    assert(rule_list(s, idx) is None);
    assert(rule_session(s, idx) is None);
    assert(rule_definition(s, idx) == Some(
        (PatternView::Definition { subject_idx: 0, content_idx: 1 }, 2int),
    ));
    let d = PatternView::Definition { subject_idx: 0, content_idx: 1 };
    let node = ParseNodeModel {
        node_type: NodeType::Definition,
        tokens: filter_out(pairs_of(cs[idx]), true, true, true, false),
        children: block_parse(cs, idx + 1),
    };
    assert(convert_spec(cs, d, idx) == node);
    assert(spec_try_match(s, idx) == Some((d, 2int)));
    assert(parse_from(cs, idx) == seq![convert_spec(cs, d, idx)] + parse_from(cs, idx + 2));
}

/// Move the element at `j` out of the level, leaving an empty container in
/// its place.
fn take_elem(work: &mut Vec<LineContainer>, j: usize) -> (c: LineContainer)
    requires
        j < old(work)@.len(),
    ensures
        c == old(work)@[j as int],
        final(work)@.len() == old(work)@.len(),
        forall|k: int| 0 <= k < old(work)@.len() && k != j ==> final(work)@[k] == old(work)@[k],
{
    let mut tmp = LineContainer::Container { children: Vec::new() };
    std::mem::swap(&mut work[j], &mut tmp);
    tmp
}

/// The line of a line element; a container is refused.
fn extract_line_token(c: LineContainer) -> (r: Result<LineToken, String>)
    ensures
        c is Token ==> r is Ok && r->Ok_0 == c->Token_0,
        c is Container ==> r is Err && r->Err_0@ == "Expected LineToken, found Container"@,
{
    match c {
        LineContainer::Token(t) => Ok(t),
        LineContainer::Container { .. } => Err("Expected LineToken, found Container".to_owned()),
    }
}

/// The pairs whose tokens the selected filter keeps.
fn filter_pairs(
    v: Vec<(Token, Range<usize>)>,
    colon: bool,
    ws: bool,
    blank: bool,
    marker: bool,
) -> (r: Vec<(Token, Range<usize>)>)
    ensures
        r@ == filter_out(v@, colon, ws, blank, marker),
{
    let ghost v0 = v@;
    let vl = v.len();
    let mut out: Vec<(Token, Range<usize>)> = Vec::new();
    let mut i: usize = 0;
    proof {
        assert(v0.take(0) =~= Seq::<(Token, Range<usize>)>::empty());
    }
    for p in it: v.into_iter()
        invariant
            vl == v0.len(),
            i == it.index(),
            it.seq() == v0,
            i <= v0.len(),
            out@ == filter_out(v0.take(i as int), colon, ws, blank, marker),
    {
        proof {
            assert(v0.take(i + 1).drop_last() =~= v0.take(i as int));
            assert(v0.take(i + 1).last() == p);
        }
        let drop = (colon && matches!(p.0, Token::Colon)) || (ws && matches!(p.0, Token::Whitespace))
            || (blank && matches!(p.0, Token::BlankLine(_))) || (marker && matches!(
            p.0,
            Token::LexMarker
        ));
        if !drop {
            out.push(p);
        }
        i = i + 1;
    }
    proof {
        assert(v0.take(i as int) =~= v0);
    }
    out
}

/// The pairs between the first and the second marker of a line.
fn header_between_markers(v: Vec<(Token, Range<usize>)>) -> (r: Vec<(Token, Range<usize>)>)
    ensures
        r@ == marker_header(v@),
{
    let ghost v0 = v@;
    let vl = v.len();
    let mut header: Vec<(Token, Range<usize>)> = Vec::new();
    let mut count: usize = 0;
    let mut i: usize = 0;
    proof {
        assert(v0.take(0) =~= Seq::<(Token, Range<usize>)>::empty());
    }
    for p in it: v.into_iter()
        invariant
            vl == v0.len(),
            i == it.index(),
            it.seq() == v0,
            i <= v0.len(),
            count <= i,
            count == marker_count(v0.take(i as int)),
            header@ == marker_header(v0.take(i as int)),
    {
        proof {
            assert(v0.take(i + 1).drop_last() =~= v0.take(i as int));
            assert(v0.take(i + 1).last() == p);
        }
        if matches!(p.0, Token::LexMarker) {
            count = count + 1;
        } else if count == 1 {
            header.push(p);
        }
        i = i + 1;
    }
    proof {
        assert(v0.take(i as int) =~= v0);
    }
    header
}

/// Split the pairs of a single-line annotation into its header and its
/// inline content.
fn split_single(v: Vec<(Token, Range<usize>)>) -> (r: (
    Vec<(Token, Range<usize>)>,
    Vec<(Token, Range<usize>)>,
))
    ensures
        r.0@ == single_header(v@),
        r.1@ == single_content(v@),
{
    let ghost v0 = v@;
    let vl = v.len();
    let mut header: Vec<(Token, Range<usize>)> = Vec::new();
    let mut content: Vec<(Token, Range<usize>)> = Vec::new();
    let mut count: usize = 0;
    let mut i: usize = 0;
    proof {
        assert(v0.take(0) =~= Seq::<(Token, Range<usize>)>::empty());
    }
    for p in it: v.into_iter()
        invariant
            vl == v0.len(),
            i == it.index(),
            it.seq() == v0,
            i <= v0.len(),
            count <= i,
            count == marker_count(v0.take(i as int)),
            header@ == single_header(v0.take(i as int)),
            content@ == single_content(v0.take(i as int)),
    {
        proof {
            assert(v0.take(i + 1).drop_last() =~= v0.take(i as int));
            assert(v0.take(i + 1).last() == p);
        }
        if matches!(p.0, Token::LexMarker) {
            count = count + 1;
        } else if count >= 2 {
            content.push(p);
        } else {
            header.push(p);
        }
        i = i + 1;
    }
    proof {
        assert(v0.take(i as int) =~= v0);
    }
    (header, content)
}

/// The pairs of the line elements of a level, one line after the other.
fn line_pairs_of(children: Vec<LineContainer>) -> (r: Vec<(Token, Range<usize>)>)
    ensures
        r@ == concat_pairs(children@),
{
    let ghost c0 = children@;
    let cl = children.len();
    let mut out: Vec<(Token, Range<usize>)> = Vec::new();
    let mut i: usize = 0;
    proof {
        assert(c0.take(0) =~= Seq::<LineContainer>::empty());
    }
    for c in it: children.into_iter()
        invariant
            cl == c0.len(),
            i == it.index(),
            it.seq() == c0,
            i <= c0.len(),
            out@ == concat_pairs(c0.take(i as int)),
    {
        proof {
            assert(c0.take(i + 1).drop_last() =~= c0.take(i as int));
            assert(c0.take(i + 1).last() == c);
        }
        let ghost before = out@;
        match c {
            LineContainer::Token(t) => {
                let mut ps = t.source_token_pairs();
                out.append(&mut ps);
            },
            LineContainer::Container { .. } => {
                assert(out@ =~= before + Seq::<(Token, Range<usize>)>::empty());
            },
        }
        i = i + 1;
    }
    proof {
        assert(c0.take(i as int) =~= c0);
    }
    out
}

/// The children of a single-line annotation: a paragraph of its inline
/// content, if it has any.
fn single_children_nodes(content: Vec<(Token, Range<usize>)>) -> (r: Vec<ParseNode>)
    ensures
        pnodes_model(r@) == single_children(content@),
{
    let mut out: Vec<ParseNode> = Vec::new();
    if content.len() > 0 {
        let ghost c = content@;
        let node = ParseNode::new(NodeType::Paragraph, content, Vec::new());
        proof {
            lemma_pnodes_model_push(out@, node);
            assert(pnodes_model(Seq::<ParseNode>::empty()) =~= Seq::<ParseNodeModel>::empty());
            assert(pnodes_model(Seq::<ParseNode>::empty().push(node)) =~= seq![leaf(NodeType::Paragraph, c)]);
        }
        out.push(node);
        proof {
            assert(out@ =~= Seq::<ParseNode>::empty().push(node));
        }
    } else {
        proof {
            assert(pnodes_model(out@) =~= Seq::<ParseNodeModel>::empty());
        }
    }
    out
}

/// Parse the container at position `j` of the level; a line gives nothing.
fn parse_block(
    work: &mut Vec<LineContainer>,
    Ghost(cs): Ghost<Seq<LineContainer>>,
    j: usize,
    source: &str,
) -> (r: Vec<ParseNode>)
    requires
        old(work)@.len() == cs.len(),
        j < cs.len(),
        old(work)@[j as int] == cs[j as int],
    ensures
        final(work)@.len() == cs.len(),
        forall|k: int| 0 <= k < cs.len() && k != j ==> final(work)@[k] == old(work)@[k],
        pnodes_model(r@) == block_parse(cs, j as int),
    decreases cs, 0nat,
{
    let c = take_elem(work, j);
    match c {
        LineContainer::Container { children } => {
            proof {
                assert(decreases_to!(cs => cs[j as int]));
                assert(decreases_to!(children => children@));
            }
            match parse_with_declarative_grammar(children, source) {
                Ok(v) => v,
                Err(_) => Vec::new(),
            }
        },
        LineContainer::Token(_) => {
            proof {
                assert(pnodes_model(Seq::<ParseNode>::empty()) =~= Seq::<ParseNodeModel>::empty());
            }
            Vec::new()
        },
    }
}

/// The parse of a level: the nodes of the matched rules, in order; blank
/// line groups give no node and a position that no rule matches is skipped.
pub fn parse_with_declarative_grammar(tokens: Vec<LineContainer>, source: &str) -> (r: Result<
    Vec<ParseNode>,
    String,
>)
    ensures
        r is Ok,
        pnodes_model(r->Ok_0@) == parse_from(tokens@, 0),
    decreases tokens@, 3nat,
{
    let ghost cs = tokens@;
    let syms = symbols(tokens.as_slice());
    let n = tokens.len();
    let mut work = tokens;
    let mut items: Vec<ParseNode> = Vec::new();
    let mut idx: usize = 0;
    proof {
        assert(pnodes_model(items@) =~= Seq::<ParseNodeModel>::empty());
        assert(pnodes_model(items@) + parse_from(cs, 0) =~= parse_from(cs, 0));
    }
    while idx < n
        invariant
            cs == tokens@,
            n == cs.len(),
            work@.len() == n,
            syms@ == syms_of(cs),
            idx <= n,
            forall|j: int| idx <= j < n ==> work@[j] == cs[j],
            pnodes_model(items@) + parse_from(cs, idx as int) == parse_from(cs, 0),
        decreases n - idx,
    {
        let m = match_at(&syms, idx);
        match m {
            None => {
                proof {
                    assert(parse_from(cs, idx as int) == parse_from(cs, idx + 1));
                }
                idx = idx + 1;
            },
            Some((pat, range)) => {
                let ghost l = range.end - idx;
                let ghost before = items@;
                proof {
                    assert(spec_try_match(syms_of(cs), idx as int) == Some((pat@, l)));
                    assert(decreases_to!(tokens@, 3nat => cs, 2nat));
                }
                if !matches!(pat, PatternMatch::BlankLineGroup { .. }) {
                    let item = match convert_pattern_to_item(
                        &mut work,
                        Ghost(cs),
                        &pat,
                        idx,
                        Ghost(l),
                        source,
                    ) {
                        Ok(x) => x,
                        Err(e) => {
                            return Err(e);
                        },
                    };
                    proof {
                        lemma_pnodes_model_push(items@, item);
                    }
                    items.push(item);
                    proof {
                        let rest = parse_from(cs, idx + l);
                        assert(parse_from(cs, idx as int) == seq![convert_spec(cs, pat@, idx as int)]
                            + rest);
                        assert(pnodes_model(items@) + rest =~= pnodes_model(before) + (seq![
                            convert_spec(cs, pat@, idx as int),
                        ] + rest));
                    }
                } else {
                    proof {
                        let rest = parse_from(cs, idx + l);
                        assert(parse_from(cs, idx as int) =~= Seq::<ParseNodeModel>::empty()
                            + rest);
                    }
                }
                idx = range.end;
            },
        }
    }
    proof {
        assert(pnodes_model(items@) + parse_from(cs, n as int) =~= pnodes_model(items@));
    }
    Ok(items)
}

/// Convert a matched rule starting at `off` to its node; the elements it
/// consumed are moved out of the level. A blank line group has no node and is
/// refused.
fn convert_pattern_to_item(
    work: &mut Vec<LineContainer>,
    Ghost(cs): Ghost<Seq<LineContainer>>,
    pattern: &PatternMatch,
    off: usize,
    Ghost(l): Ghost<int>,
    source: &str,
) -> (r: Result<ParseNode, String>)
    requires
        old(work)@.len() == cs.len(),
        off < cs.len(),
        spec_try_match(syms_of(cs), off as int) == Some((pattern@, l)),
        off + l <= cs.len(),
        forall|j: int| off <= j < cs.len() ==> old(work)@[j] == cs[j],
    ensures
        final(work)@.len() == cs.len(),
        forall|j: int| off + l <= j < cs.len() ==> final(work)@[j] == cs[j],
        pattern is BlankLineGroup <==> r is Err,
        r is Ok ==> pnode_model(r->Ok_0) == convert_spec(cs, pattern@, off as int),
    decreases cs, 2nat,
{
    let n = work.len();
    let ghost s = syms_of(cs);
    proof {
        lemma_match_shape(s, off as int);
        lemma_runs_bounded(s, off as int);
        lemma_runs_bounded(s, off + 1);
    }
    match pattern {
        PatternMatch::VerbatimBlock { subject_idx, blank_idx, content_idx, closing_idx } => {
            convert_verbatim(work, Ghost(cs), *subject_idx, *blank_idx, *content_idx, *closing_idx, off, Ghost(l))
        },
        PatternMatch::AnnotationBlock { start_idx, content_idx, end_idx } => {
            let t = take_elem(work, off);
            let line = match extract_line_token(t) {
                Ok(x) => x,
                Err(e) => {
                    return Err(e);
                },
            };
            let header = header_between_markers(line.source_token_pairs());
            let children = parse_block(work, Ghost(cs), off + 1, source);
            Ok(ParseNode::new(NodeType::Annotation, header, children))
        },
        PatternMatch::AnnotationSingle { start_idx } => {
            let t = take_elem(work, off);
            let line = match extract_line_token(t) {
                Ok(x) => x,
                Err(e) => {
                    return Err(e);
                },
            };
            let (header, content) = split_single(line.source_token_pairs());
            let children = single_children_nodes(content);
            Ok(ParseNode::new(NodeType::Annotation, header, children))
        },
        PatternMatch::List { blank_idx, items } => {
            convert_list(work, Ghost(cs), items, off, Ghost(l), source)
        },
        PatternMatch::Definition { subject_idx, content_idx } => {
            let t = take_elem(work, off);
            let line = match extract_line_token(t) {
                Ok(x) => x,
                Err(e) => {
                    return Err(e);
                },
            };
            let subject = filter_pairs(line.source_token_pairs(), true, true, true, false);
            let children = parse_block(work, Ghost(cs), off + 1, source);
            Ok(ParseNode::new(NodeType::Definition, subject, children))
        },
        PatternMatch::Session { subject_idx, blank_idx, content_idx } => {
            let t = take_elem(work, off);
            let line = match extract_line_token(t) {
                Ok(x) => x,
                Err(e) => {
                    return Err(e);
                },
            };
            let subject = filter_pairs(line.source_token_pairs(), false, true, true, false);
            let children = parse_block(work, Ghost(cs), off + *content_idx, source);
            Ok(ParseNode::new(NodeType::Session, subject, children))
        },
        PatternMatch::Paragraph { start_idx, end_idx } => {
            convert_paragraph(work, Ghost(cs), *end_idx, off, Ghost(l))
        },
        PatternMatch::BlankLineGroup { .. } => Err(
            "Internal error: BlankLineGroup reached convert_pattern_to_item".to_owned(),
        ),
    }
}


/// Convert a matched verbatim block.
fn convert_verbatim(
    work: &mut Vec<LineContainer>,
    Ghost(cs): Ghost<Seq<LineContainer>>,
    subject_idx: usize,
    blank_idx: Option<usize>,
    content_idx: Option<usize>,
    closing_idx: usize,
    off: usize,
    Ghost(l): Ghost<int>,
) -> (r: Result<ParseNode, String>)
    requires
        old(work)@.len() == cs.len(),
        off < cs.len(),
        rule_verbatim(syms_of(cs), off as int) == Some(
            (PatternView::VerbatimBlock { subject_idx, blank_idx, content_idx, closing_idx }, l),
        ),
        forall|j: int| off <= j < cs.len() ==> old(work)@[j] == cs[j],
    ensures
        final(work)@.len() == cs.len(),
        forall|j: int| off + l <= j < cs.len() ==> final(work)@[j] == cs[j],
        r is Ok,
        pnode_model(r->Ok_0) == convert_spec(
            cs,
            PatternView::VerbatimBlock { subject_idx, blank_idx, content_idx, closing_idx },
            off as int,
        ),
{
    let n = work.len();
    let ghost s = syms_of(cs);
    let ghost k = verbatim_closing_at(s, off as int);
    proof {
        lemma_runs_bounded(s, off + 1);
        assert(s[off as int] == sym_of(cs[off as int]));
        assert(s[k] == sym_of(cs[k]));
    }
    let sub = take_elem(work, off);
    let subject_line = match extract_line_token(sub) {
        Ok(x) => x,
        Err(e) => {
            return Err(e);
        },
    };
    let subject_tokens = filter_pairs(subject_line.source_token_pairs(), true, false, true, false);
    let content_tokens = match content_idx {
        Some(ci) => {
            proof {
                assert(s[off + ci] == sym_of(cs[off + ci]));
            }
            let c = take_elem(work, off + ci);
            match c {
                LineContainer::Container { children } => line_pairs_of(children),
                LineContainer::Token(_) => Vec::new(),
            }
        },
        None => Vec::new(),
    };
    let close = take_elem(work, off + closing_idx);
    let closing_line = match extract_line_token(close) {
        Ok(x) => x,
        Err(e) => {
            return Err(e);
        },
    };
    proof {
        assert(closing_line == cs[off + closing_idx]->Token_0);
    }
    let (header, inline) = split_single(closing_line.source_token_pairs());
    let closing_children = single_children_nodes(inline);
    let subject_node = ParseNode::new(NodeType::ForeignBlockSubject, subject_tokens, Vec::new());
    let content_node = ParseNode::new(NodeType::ForeignBlockContent, content_tokens, Vec::new());
    let closing_node = ParseNode::new(NodeType::ForeignBlockClosing, header, closing_children);
    let mut children: Vec<ParseNode> = Vec::new();
    proof {
        assert(pnodes_model(Seq::<ParseNode>::empty()) =~= Seq::<ParseNodeModel>::empty());
        assert(pnodes_model(Seq::<ParseNode>::empty()) =~= Seq::<ParseNodeModel>::empty());
        assert(pnode_model(subject_node).children =~= Seq::<ParseNodeModel>::empty());
        assert(pnode_model(content_node).children =~= Seq::<ParseNodeModel>::empty());
        lemma_pnodes_model_push(children@, subject_node);
    }
    children.push(subject_node);
    proof {
        lemma_pnodes_model_push(children@, content_node);
    }
    children.push(content_node);
    proof {
        lemma_pnodes_model_push(children@, closing_node);
    }
    children.push(closing_node);
    let r = ParseNode::new(NodeType::VerbatimBlock, Vec::new(), children);
    proof {
        assert(subject_idx == 0);
        assert(pnode_model(content_node) == leaf(
            NodeType::ForeignBlockContent,
            match content_idx {
                Some(ci) => if 0 <= off + ci < cs.len() {
                    match cs[off + ci] {
                        LineContainer::Container { children } => concat_pairs(children@),
                        LineContainer::Token(_) => Seq::empty(),
                    }
                } else {
                    Seq::empty()
                },
                None => Seq::empty(),
            },
        ));
        assert(pnode_model(subject_node) == leaf(
            NodeType::ForeignBlockSubject,
            filter_out(pairs_of(cs[off + subject_idx]), true, false, true, false),
        ));
        assert(pnode_model(closing_node) == ParseNodeModel {
            node_type: NodeType::ForeignBlockClosing,
            tokens: single_header(pairs_of(cs[off + closing_idx])),
            children: single_children(single_content(pairs_of(cs[off + closing_idx]))),
        });
        assert(pnodes_model(children@) =~= seq![
            pnode_model(subject_node),
            pnode_model(content_node),
            pnode_model(closing_node),
        ]);
        assert(pnode_model(r).tokens =~= Seq::<(Token, Range<usize>)>::empty());
        let sp = convert_spec(
            cs,
            PatternView::VerbatimBlock { subject_idx, blank_idx, content_idx, closing_idx },
            off as int,
        );
        assert(sp.children[0] == pnode_model(subject_node));
        assert(sp.children[1] == pnode_model(content_node));
        assert(sp.children[2] == pnode_model(closing_node));
        assert(sp.children =~= pnode_model(r).children);
        assert(sp.tokens =~= pnode_model(r).tokens);
    }
    Ok(r)
}

/// Convert a matched paragraph of `end_idx + 1` lines.
fn convert_paragraph(
    work: &mut Vec<LineContainer>,
    Ghost(cs): Ghost<Seq<LineContainer>>,
    end_idx: usize,
    off: usize,
    Ghost(l): Ghost<int>,
) -> (r: Result<ParseNode, String>)
    requires
        old(work)@.len() == cs.len(),
        off < cs.len(),
        rule_paragraph(syms_of(cs), off as int) == Some(
            (PatternView::Paragraph { start_idx: 0, end_idx }, l),
        ),
        forall|j: int| off <= j < cs.len() ==> old(work)@[j] == cs[j],
    ensures
        final(work)@.len() == cs.len(),
        forall|j: int| off + l <= j < cs.len() ==> final(work)@[j] == cs[j],
        r is Ok,
        pnode_model(r->Ok_0) == convert_spec(
            cs,
            PatternView::Paragraph { start_idx: 0, end_idx },
            off as int,
        ),
{
    let n = work.len();
    let ghost s = syms_of(cs);
    proof {
        lemma_runs_bounded(s, off as int);
        lemma_para_run_lines(s, off as int);
    }
    let last = off + end_idx;
    let mut all: Vec<(Token, Range<usize>)> = Vec::new();
    let mut j = off;
    proof {
        assert(cs.subrange(off as int, off as int) =~= Seq::<LineContainer>::empty());
    }
    while j <= last
        invariant
            off <= j <= last + 1,
            last == off + end_idx,
            last < cs.len(),
            n == cs.len(),
            l == end_idx + 1,
            work@.len() == cs.len(),
            forall|i: int| j <= i < cs.len() ==> work@[i] == cs[i],
            forall|i: int| off <= i <= last ==> is_para_kind(#[trigger] s[i]),
            s == syms_of(cs),
            all@ == concat_pairs(cs.subrange(off as int, j as int)),
        decreases last + 1 - j,
    {
        proof {
            assert(is_para_kind(s[j as int]));
            assert(s[j as int] == sym_of(cs[j as int]));
            assert(cs.subrange(off as int, j + 1).drop_last() =~= cs.subrange(off as int, j as int));
            assert(cs.subrange(off as int, j + 1).last() == cs[j as int]);
        }
        let c = take_elem(work, j);
        let line = match extract_line_token(c) {
            Ok(x) => x,
            Err(e) => {
                return Err(e);
            },
        };
        let mut ps = line.source_token_pairs();
        all.append(&mut ps);
        j = j + 1;
    }
    let r = ParseNode::new(NodeType::Paragraph, all, Vec::new());
    proof {
        assert(pnodes_model(Seq::<ParseNode>::empty()) =~= Seq::<ParseNodeModel>::empty());
    }
    Ok(r)
}

/// Convert a matched list: one list item node per item, with the parse of
/// the item's container as its children.
fn convert_list(
    work: &mut Vec<LineContainer>,
    Ghost(cs): Ghost<Seq<LineContainer>>,
    items: &Vec<(usize, Option<usize>)>,
    off: usize,
    Ghost(l): Ghost<int>,
    source: &str,
) -> (r: Result<ParseNode, String>)
    requires
        old(work)@.len() == cs.len(),
        off < cs.len(),
        off + l <= cs.len(),
        first_of(rule_list_no_blank(syms_of(cs), off as int), rule_list(syms_of(cs), off as int))
            == Some((PatternView::List { blank_idx: 0, items: items@ }, l)),
        forall|j: int| off <= j < cs.len() ==> old(work)@[j] == cs[j],
    ensures
        final(work)@.len() == cs.len(),
        forall|j: int| off + l <= j < cs.len() ==> final(work)@[j] == cs[j],
        r is Ok,
        pnode_model(r->Ok_0) == convert_spec(
            cs,
            PatternView::List { blank_idx: 0, items: items@ },
            off as int,
        ),
    decreases cs, 1nat,
{
    let n = work.len();
    let ghost s = syms_of(cs);
    let ghost first: int = if rule_list_no_blank(s, off as int) is Some {
        off as int
    } else {
        off + blank_run(s, off as int)
    };
    proof {
        lemma_runs_bounded(s, off as int);
        assert(list_from(s, off as int, first) == Some(
            (PatternView::List { blank_idx: 0, items: items@ }, l),
        ));
        lemma_list_items_layout(s, first, off as int);
        assert(items@ == list_items(s, first, off as int));
    }
    let ghost its = items@;
    let mut nodes: Vec<ParseNode> = Vec::new();
    let ghost mut next: int = first - off;
    let mut k: usize = 0;
    proof {
        assert(its.take(0) =~= Seq::<(usize, Option<usize>)>::empty());
        assert(pnodes_model(nodes@) =~= Seq::<ParseNodeModel>::empty());
    }
    while k < items.len()
        invariant
            k <= its.len(),
            items@ == its,
            n == cs.len(),
            its == list_items(s, first, off as int),
            s == syms_of(cs),
            work@.len() == cs.len(),
            off as int <= first <= list_end(s, first) <= off + l <= cs.len(),
            off <= off + next,
            k < its.len() ==> next == its[k as int].0,
            k == its.len() ==> off + next == list_end(s, first),
            forall|j: int| off + next <= j < cs.len() ==> work@[j] == cs[j],
            pnodes_model(nodes@) == item_nodes(cs, its.take(k as int), off as int),
            forall|q: int| #![trigger its[q]]
                0 <= q < its.len() ==> {
                    let it = its[q];
                    &&& first <= off + it.0 < list_end(s, first)
                    &&& is_list_kind(s[off + it.0])
                    &&& it.1 is Some ==> it.1->0 == it.0 + 1 && off + it.1->0 < list_end(s, first)
                        && s[off + it.1->0] is None
                    &&& q + 1 < its.len() ==> its[q + 1].0 == it.0 + item_width(s, off + it.0)
                    &&& it.1 is None ==> item_width(s, off + it.0) == 1
                    &&& it.1 is Some ==> item_width(s, off + it.0) == 2
                },
            its.len() > 0 ==> {
                let last = its.last();
                off + last.0 + item_width(s, off + last.0) == list_end(s, first)
            },
        decreases its.len() - k,
    {
        let (ii, ci) = items[k];
        let ghost it = its[k as int];
        proof {
            assert(it == (ii, ci));
            assert(s[off + ii] == sym_of(cs[off + ii]));
            assert(its.take(k + 1).drop_last() =~= its.take(k as int));
            assert(its.take(k + 1).last() == it);
        }
        let c = take_elem(work, off + ii);
        let line = match extract_line_token(c) {
            Ok(x) => x,
            Err(e) => {
                return Err(e);
            },
        };
        let tokens = line.source_token_pairs();
        let children = match ci {
            Some(cj) => {
                proof {
                    assert(cj == ii + 1);
                }
                parse_block(work, Ghost(cs), off + cj, source)
            },
            None => {
                proof {
                    assert(pnodes_model(Seq::<ParseNode>::empty()) =~= Seq::<ParseNodeModel>::empty());
                }
                Vec::new()
            },
        };
        let node = ParseNode::new(NodeType::ListItem, tokens, children);
        proof {
            lemma_pnodes_model_push(nodes@, node);
        }
        nodes.push(node);
        proof {
            next = it.0 + item_width(s, off + it.0);
            if k + 1 < its.len() {
                assert(its[k + 1].0 == next);
            } else {
                assert(its.last() == it);
            }
        }
        k = k + 1;
    }
    proof {
        assert(its.take(its.len() as int) =~= its);
        if its.len() == 0 {
            assert(false);
        }
    }
    let r = ParseNode::new(NodeType::List, Vec::new(), nodes);
    proof {
        assert(pnode_model(r).tokens =~= Seq::<(Token, Range<usize>)>::empty());
    }
    Ok(r)
}

/// A definition's subject keeps every pair of its line but colons, white
/// space and blank-line tokens.
pub open spec fn subject_kept(p: (Token, Range<usize>)) -> bool {
    !(p.0 is Colon || p.0 is Whitespace || p.0 is BlankLine)
}

/// `subject_kept` as a predicate.
pub open spec fn subject_pred() -> spec_fn((Token, Range<usize>)) -> bool {
    |p: (Token, Range<usize>)| subject_kept(p)
}

proof fn lemma_filter_out_subject(s: Seq<(Token, Range<usize>)>)
    ensures
        filter_out(s, true, true, true, false) == s.filter(subject_pred()),
    decreases s.len(),
{
    reveal(Seq::filter);
    if s.len() > 0 {
        lemma_filter_out_subject(s.drop_last());
    }
}

/// The node of a matched definition: of type `Definition`, holding the
/// pairs of its subject line (tokens with their spans) without colons,
/// white space and blank-line tokens, in order, with the parse of its
/// indented block as children.
pub proof fn lemma_definition_node(cs: Seq<LineContainer>, off: int, subject_idx: usize, content_idx: usize)
    ensures
        convert_spec(cs, PatternView::Definition { subject_idx, content_idx }, off) == (ParseNodeModel {
            node_type: NodeType::Definition,
            tokens: pairs_of(cs[off + subject_idx]).filter(subject_pred()),
            children: block_parse(cs, off + content_idx),
        }),
{
    lemma_filter_out_subject(pairs_of(cs[off + subject_idx]));
}

} // verus!
