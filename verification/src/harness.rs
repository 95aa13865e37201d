//! Names used to find sample documents by element kind, and the parser
//! choices of the sample harness.

use crate::ast::{Annotation, ContentItem, Definition, Document, List, Paragraph, Session, Verbatim};
use crate::text::{contains, starts_with, str_eq, utf8};
use vstd::prelude::*;

verus! {

/// The kinds of elements that have sample documents.
#[derive(Debug, Clone, Copy, PartialEq, Eq, Structural)]
pub enum ElementType {
    Paragraph,
    List,
    Session,
    Definition,
    Annotation,
    Verbatim,
}

/// The lower-case name of an element kind, used for its sample directory
/// and as the prefix of its sample files.
pub open spec fn element_word(e: ElementType) -> Seq<char> {
    match e {
        ElementType::Paragraph => "paragraph"@,
        ElementType::List => "list"@,
        ElementType::Session => "session"@,
        ElementType::Definition => "definition"@,
        ElementType::Annotation => "annotation"@,
        ElementType::Verbatim => "verbatim"@,
    }
}

impl ElementType {
    /// The directory of the element kind's samples.
    pub fn dir_name(&self) -> (r: &'static str)
        ensures
            r@ == element_word(*self),
    {
        match self {
            ElementType::Paragraph => "paragraph",
            ElementType::List => "list",
            ElementType::Session => "session",
            ElementType::Definition => "definition",
            ElementType::Annotation => "annotation",
            ElementType::Verbatim => "verbatim",
        }
    }

    /// The prefix of the element kind's sample file names.
    pub fn prefix(&self) -> (r: &'static str)
        ensures
            r@ == element_word(*self),
    {
        match self {
            ElementType::Paragraph => "paragraph",
            ElementType::List => "list",
            ElementType::Session => "session",
            ElementType::Definition => "definition",
            ElementType::Annotation => "annotation",
            ElementType::Verbatim => "verbatim",
        }
    }
}

/// The parser a sample is parsed with.
#[derive(Debug, Clone, Copy, PartialEq, Eq, Structural)]
pub enum Parser {
    Reference,
    Linebased,
}

/// The debug name of each parser.
pub open spec fn parser_name(p: Parser) -> Seq<char> {
    match p {
        Parser::Reference => "Reference"@,
        Parser::Linebased => "Linebased"@,
    }
}

impl Parser {
    /// The parser's name as its debug form writes it.
    pub fn debug_name(&self) -> (r: &'static str)
        ensures
            r@ == parser_name(*self),
    {
        match self {
            Parser::Reference => "Reference",
            Parser::Linebased => "Linebased",
        }
    }

    /// The name of the processing configuration that runs the parser.
    pub fn config_name(&self) -> (r: &'static str)
        ensures
            *self == Parser::Reference ==> r@ == "default"@,
            *self == Parser::Linebased ==> r@ == "linebased"@,
    {
        match self {
            Parser::Reference => "default",
            Parser::Linebased => "linebased",
        }
    }
}

/// A failure to load or parse a sample.
#[derive(Debug, Clone)]
pub enum ElementSourceError {
    FileNotFound(String),
    IoError(String),
    ParseError(String),
    InvalidElement(String),
}

impl ElementSourceError {
    /// The human-readable description of the failure.
    pub fn message(&self) -> (r: String)
        ensures
            r@ == match *self {
                ElementSourceError::FileNotFound(m) => "File not found: "@ + m@,
                ElementSourceError::IoError(m) => "IO error: "@ + m@,
                ElementSourceError::ParseError(m) => "Parse error: "@ + m@,
                ElementSourceError::InvalidElement(m) => "Invalid element: "@ + m@,
            },
    {
        let (prefix, m): (&str, &String) = match self {
            ElementSourceError::FileNotFound(m) => ("File not found: ", m),
            ElementSourceError::IoError(m) => ("IO error: ", m),
            ElementSourceError::ParseError(m) => ("Parse error: ", m),
            ElementSourceError::InvalidElement(m) => ("Invalid element: ", m),
        };
        let mut s = prefix.to_owned();
        s.append(m.as_str());
        s
    }
}

// ---------------------------------------------------------------------------
// Comparing documents
// ---------------------------------------------------------------------------

/// Two content elements have the same structure: the same kind; paragraphs
/// with as many lines; sessions with the same title and matching children;
/// lists with as many items; definitions with the same subject and as many
/// children; annotations with as many children; verbatim blocks with as many
/// content lines.
pub open spec fn items_match(a: ContentItem, b: ContentItem) -> bool
    decreases a, 1nat,
{
    match (a, b) {
        (ContentItem::Paragraph(p1), ContentItem::Paragraph(p2)) => p1.lines@.len() == p2.lines@.len(),
        (ContentItem::Session(s1), ContentItem::Session(s2)) => {
            proof {
                assert(decreases_to!(a => s1));
                assert(decreases_to!(s1 => s1.children));
                assert(decreases_to!(s1.children => s1.children@));
            }
            s1.title.text@ == s2.title.text@ && lists_match(s1.children@, s2.children@)
        },
        (ContentItem::List(l1), ContentItem::List(l2)) => l1.items@.len() == l2.items@.len(),
        (ContentItem::Definition(d1), ContentItem::Definition(d2)) => d1.subject.text@
            == d2.subject.text@ && d1.children@.len() == d2.children@.len(),
        (ContentItem::Annotation(a1), ContentItem::Annotation(a2)) => a1.children@.len()
            == a2.children@.len(),
        (ContentItem::VerbatimBlock(v1), ContentItem::VerbatimBlock(v2)) => v1.children@.len()
            == v2.children@.len(),
        _ => false,
    }
}

/// Two lists of content elements match element by element.
pub open spec fn lists_match(xs: Seq<ContentItem>, ys: Seq<ContentItem>) -> bool
    decreases xs, 0nat,
{
    xs.len() == ys.len() && (xs.len() == 0 || (lists_match(xs.drop_last(), ys.drop_last())
        && items_match(xs.last(), ys.last())))
}

/// Two documents have the same structure: their top-level elements match.
pub open spec fn docs_match(a: Document, b: Document) -> bool {
    lists_match(a.root.children@, b.root.children@)
}

proof fn lemma_lists_match_prefix(xs: Seq<ContentItem>, ys: Seq<ContentItem>, k: int)
    requires
        0 <= k <= xs.len(),
        lists_match(xs, ys),
    ensures
        lists_match(xs.take(k), ys.take(k)),
    decreases xs.len(),
{
    if k < xs.len() {
        assert(xs.drop_last().take(k) =~= xs.take(k));
        assert(ys.drop_last().take(k) =~= ys.take(k));
        lemma_lists_match_prefix(xs.drop_last(), ys.drop_last(), k);
    } else {
        assert(xs.take(k) =~= xs);
        assert(ys.take(k) =~= ys);
    }
}

/// Whether two lists of content elements match element by element.
fn slices_match(xs: &[ContentItem], ys: &[ContentItem]) -> (r: bool)
    ensures
        r == lists_match(xs@, ys@),
    decreases xs@, 0nat,
{
    if xs.len() != ys.len() {
        return false;
    }
    let mut i: usize = 0;
    proof {
        assert(xs@.take(0) =~= Seq::<ContentItem>::empty());
        assert(ys@.take(0) =~= Seq::<ContentItem>::empty());
    }
    while i < xs.len()
        invariant
            xs@.len() == ys@.len(),
            i <= xs@.len(),
            lists_match(xs@.take(i as int), ys@.take(i as int)),
        decreases xs@.len() - i,
    {
        proof {
            assert(decreases_to!(xs@ => xs@[i as int]));
            assert(xs@.take(i + 1).drop_last() =~= xs@.take(i as int));
            assert(ys@.take(i + 1).drop_last() =~= ys@.take(i as int));
            assert(xs@.take(i + 1).last() == xs@[i as int]);
            assert(ys@.take(i + 1).last() == ys@[i as int]);
        }
        if !content_items_match(&xs[i], &ys[i]) {
            proof {
                if lists_match(xs@, ys@) {
                    lemma_lists_match_prefix(xs@, ys@, i + 1);
                }
            }
            return false;
        }
        i = i + 1;
    }
    proof {
        assert(xs@.take(i as int) =~= xs@);
        assert(ys@.take(i as int) =~= ys@);
    }
    true
}

/// Whether two content elements have the same structure (see
/// `items_match`).
pub fn content_items_match(item1: &ContentItem, item2: &ContentItem) -> (r: bool)
    ensures
        r == items_match(*item1, *item2),
    decreases *item1, 1nat,
{
    match (item1, item2) {
        (ContentItem::Paragraph(p1), ContentItem::Paragraph(p2)) => p1.lines.len() == p2.lines.len(),
        (ContentItem::Session(s1), ContentItem::Session(s2)) => {
            proof {
                assert(decreases_to!(*item1 => *s1));
                assert(decreases_to!(*s1 => s1.children));
                assert(decreases_to!(s1.children => s1.children@));
            }
            str_eq(s1.label(), s2.label()) && slices_match(s1.children(), s2.children())
        },
        (ContentItem::List(l1), ContentItem::List(l2)) => l1.items.len() == l2.items.len(),
        (ContentItem::Definition(d1), ContentItem::Definition(d2)) => {
            str_eq(d1.subject.as_string(), d2.subject.as_string()) && d1.children.len()
                == d2.children.len()
        },
        (ContentItem::Annotation(a1), ContentItem::Annotation(a2)) => a1.children.len()
            == a2.children.len(),
        (ContentItem::VerbatimBlock(v1), ContentItem::VerbatimBlock(v2)) => v1.children.len()
            == v2.children.len(),
        _ => false,
    }
}

/// Whether two documents have the same structure (see `docs_match`).
pub fn documents_match(doc1: &Document, doc2: &Document) -> (r: bool)
    ensures
        r == docs_match(*doc1, *doc2),
{
    slices_match(doc1.root.children(), doc2.root.children())
}

/// Whether the documents of all parsers have the structure of the first
/// one. On a mismatch, the message names the first parser and the first
/// parser whose document differs.
pub fn compare_parser_results(results: &[(Parser, Document)]) -> (r: Result<(), String>)
    ensures
        r is Ok <==> forall|i: int| 1 <= i < results@.len() ==> docs_match(results@[0].1, #[trigger] results@[i].1),
        r is Err ==> exists|k: int|
            1 <= k < results@.len() && !docs_match(results@[0].1, #[trigger] results@[k].1) && (
            forall|i: int| 1 <= i < k ==> docs_match(results@[0].1, #[trigger] results@[i].1))
                && r->Err_0@ == "AST mismatch between "@ + parser_name(results@[0].0) + " and "@
                + parser_name(results@[k].0) + " parsers"@,
{
    if results.len() < 2 {
        return Ok(());
    }
    let first = &results[0];
    let mut i: usize = 1;
    while i < results.len()
        invariant
            1 <= i <= results@.len(),
            first == results@[0],
            forall|j: int| 1 <= j < i ==> docs_match(results@[0].1, #[trigger] results@[j].1),
        decreases results@.len() - i,
    {
        let other = &results[i];
        if !documents_match(&first.1, &other.1) {
            let mut m = "AST mismatch between ".to_owned();
            m.append(first.0.debug_name());
            m.append(" and ");
            m.append(other.0.debug_name());
            m.append(" parsers");
            return Err(m);
        }
        i = i + 1;
    }
    Ok(())
}

// ---------------------------------------------------------------------------
// Finding elements
// ---------------------------------------------------------------------------

/// The first top-level paragraph of the document, if any.
pub fn get_first_paragraph(doc: &Document) -> (r: Option<&Paragraph>)
    ensures
        match r {
            None => forall|i: int| 0 <= i < doc.root.children@.len() ==> !(
            #[trigger] doc.root.children@[i] is Paragraph),
            Some(p) => exists|k: int|
                0 <= k < doc.root.children@.len() && doc.root.children@[k] == ContentItem::Paragraph(
                    *p,
                ) && forall|i: int| 0 <= i < k ==> !(#[trigger] doc.root.children@[i] is Paragraph),
        },
{
    let items = doc.root.children();
    let mut i: usize = 0;
    while i < items.len()
        invariant
            items@ == doc.root.children@,
            i <= items@.len(),
            forall|j: int| 0 <= j < i ==> !(#[trigger] items@[j] is Paragraph),
        decreases items@.len() - i,
    {
        if let ContentItem::Paragraph(p) = &items[i] {
            return Some(p);
        }
        i = i + 1;
    }
    None
}

/// The first top-level session of the document, if any.
pub fn get_first_session(doc: &Document) -> (r: Option<&Session>)
    ensures
        match r {
            None => forall|i: int| 0 <= i < doc.root.children@.len() ==> !(
            #[trigger] doc.root.children@[i] is Session),
            Some(p) => exists|k: int|
                0 <= k < doc.root.children@.len() && doc.root.children@[k] == ContentItem::Session(*p)
                    && forall|i: int| 0 <= i < k ==> !(#[trigger] doc.root.children@[i] is Session),
        },
{
    let items = doc.root.children();
    let mut i: usize = 0;
    while i < items.len()
        invariant
            items@ == doc.root.children@,
            i <= items@.len(),
            forall|j: int| 0 <= j < i ==> !(#[trigger] items@[j] is Session),
        decreases items@.len() - i,
    {
        if let ContentItem::Session(p) = &items[i] {
            return Some(p);
        }
        i = i + 1;
    }
    None
}

/// The first top-level list of the document, if any.
pub fn get_first_list(doc: &Document) -> (r: Option<&List>)
    ensures
        match r {
            None => forall|i: int| 0 <= i < doc.root.children@.len() ==> !(
            #[trigger] doc.root.children@[i] is List),
            Some(p) => exists|k: int|
                0 <= k < doc.root.children@.len() && doc.root.children@[k] == ContentItem::List(*p)
                    && forall|i: int| 0 <= i < k ==> !(#[trigger] doc.root.children@[i] is List),
        },
{
    let items = doc.root.children();
    let mut i: usize = 0;
    while i < items.len()
        invariant
            items@ == doc.root.children@,
            i <= items@.len(),
            forall|j: int| 0 <= j < i ==> !(#[trigger] items@[j] is List),
        decreases items@.len() - i,
    {
        if let ContentItem::List(p) = &items[i] {
            return Some(p);
        }
        i = i + 1;
    }
    None
}

/// The first top-level definition of the document, if any.
pub fn get_first_definition(doc: &Document) -> (r: Option<&Definition>)
    ensures
        match r {
            None => forall|i: int| 0 <= i < doc.root.children@.len() ==> !(
            #[trigger] doc.root.children@[i] is Definition),
            Some(p) => exists|k: int|
                0 <= k < doc.root.children@.len() && doc.root.children@[k] == ContentItem::Definition(
                    *p,
                ) && forall|i: int| 0 <= i < k ==> !(#[trigger] doc.root.children@[i] is Definition),
        },
{
    let items = doc.root.children();
    let mut i: usize = 0;
    while i < items.len()
        invariant
            items@ == doc.root.children@,
            i <= items@.len(),
            forall|j: int| 0 <= j < i ==> !(#[trigger] items@[j] is Definition),
        decreases items@.len() - i,
    {
        if let ContentItem::Definition(p) = &items[i] {
            return Some(p);
        }
        i = i + 1;
    }
    None
}

/// The first top-level annotation of the document, if any.
pub fn get_first_annotation(doc: &Document) -> (r: Option<&Annotation>)
    ensures
        match r {
            None => forall|i: int| 0 <= i < doc.root.children@.len() ==> !(
            #[trigger] doc.root.children@[i] is Annotation),
            Some(p) => exists|k: int|
                0 <= k < doc.root.children@.len() && doc.root.children@[k] == ContentItem::Annotation(
                    *p,
                ) && forall|i: int| 0 <= i < k ==> !(#[trigger] doc.root.children@[i] is Annotation),
        },
{
    let items = doc.root.children();
    let mut i: usize = 0;
    while i < items.len()
        invariant
            items@ == doc.root.children@,
            i <= items@.len(),
            forall|j: int| 0 <= j < i ==> !(#[trigger] items@[j] is Annotation),
        decreases items@.len() - i,
    {
        if let ContentItem::Annotation(p) = &items[i] {
            return Some(p);
        }
        i = i + 1;
    }
    None
}

/// The first top-level verbatim block of the document, if any.
pub fn get_first_verbatim(doc: &Document) -> (r: Option<&Verbatim>)
    ensures
        match r {
            None => forall|i: int| 0 <= i < doc.root.children@.len() ==> !(
            #[trigger] doc.root.children@[i] is VerbatimBlock),
            Some(p) => exists|k: int|
                0 <= k < doc.root.children@.len() && doc.root.children@[k]
                    == ContentItem::VerbatimBlock(*p) && forall|i: int|
                    0 <= i < k ==> !(#[trigger] doc.root.children@[i] is VerbatimBlock),
        },
{
    let items = doc.root.children();
    let mut i: usize = 0;
    while i < items.len()
        invariant
            items@ == doc.root.children@,
            i <= items@.len(),
            forall|j: int| 0 <= j < i ==> !(#[trigger] items@[j] is VerbatimBlock),
        decreases items@.len() - i,
    {
        if let ContentItem::VerbatimBlock(p) = &items[i] {
            return Some(p);
        }
        i = i + 1;
    }
    None
}

/// Whether the paragraph's text starts with the given text.
pub fn paragraph_text_starts_with(paragraph: &Paragraph, expected: &str) -> (r: bool)
    ensures
        r == utf8(expected@).is_prefix_of(utf8(crate::ast::joined_lines(paragraph.lines@))),
{
    let t = paragraph.text();
    starts_with(t.as_str(), expected)
}

/// Whether the paragraph's text contains the given text.
pub fn paragraph_text_contains(paragraph: &Paragraph, expected: &str) -> (r: bool)
    ensures
        r == exists|k: int| crate::text::occurs_at(
            utf8(crate::ast::joined_lines(paragraph.lines@)),
            utf8(expected@),
            k,
        ),
{
    let t = paragraph.text();
    contains(t.as_str(), expected)
}

} // verus!
