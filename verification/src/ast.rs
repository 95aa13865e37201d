//! The document tree: positions and ranges, and the content elements
//! (paragraphs, sessions, lists, definitions, annotations, verbatim blocks).

use std::ops::Range as ByteRange;
use vstd::prelude::*;

verus! {

/// A line and column in the source, both counted from zero.
#[derive(Debug, Clone, Copy, PartialEq, Eq, PartialOrd, Ord, Structural)]
pub struct Position {
    pub line: usize,
    pub column: usize,
}

impl Position {
    pub fn new(line: usize, column: usize) -> (r: Position)
        ensures
            r.line == line,
            r.column == column,
    {
        Position { line, column }
    }
}

/// `a` comes no later than `b`: an earlier line, or the same line and a
/// column no greater.
pub open spec fn position_le(a: Position, b: Position) -> bool {
    a.line < b.line || (a.line == b.line && a.column <= b.column)
}

/// A source location: a byte span and the positions of its start and end.
#[derive(Debug, PartialEq)]
pub struct Range {
    pub span: ByteRange<usize>,
    pub start: Position,
    pub end: Position,
}

impl Clone for Range {
    fn clone(&self) -> (r: Range)
        ensures
            r == *self,
    {
        Range { span: ByteRange { start: self.span.start, end: self.span.end }, start: self.start, end: self.end }
    }
}

impl Range {
    pub fn new(span: ByteRange<usize>, start: Position, end: Position) -> (r: Range)
        ensures
            r.span == span,
            r.start == start,
            r.end == end,
    {
        Range { span, start, end }
    }

    /// Whether the position lies within the range, both ends included.
    pub fn contains(&self, pos: Position) -> (r: bool)
        ensures
            r == (position_le(self.start, pos) && position_le(pos, self.end)),
    {
        let after_start = self.start.line < pos.line || (self.start.line == pos.line
            && self.start.column <= pos.column);
        let before_end = pos.line < self.end.line || (pos.line == self.end.line && pos.column
            <= self.end.column);
        after_start && before_end
    }
}

/// The location `(0,0)..(0,0)` with an empty span.
pub open spec fn spec_default_location() -> Range {
    Range {
        span: ByteRange { start: 0usize, end: 0usize },
        start: Position { line: 0, column: 0 },
        end: Position { line: 0, column: 0 },
    }
}

/// A piece of text.
#[derive(Debug, Clone, PartialEq)]
pub struct TextContent {
    pub text: String,
}

impl TextContent {
    pub fn from_string(text: String) -> (r: TextContent)
        ensures
            r.text == text,
    {
        TextContent { text }
    }

    /// The text.
    pub fn as_string(&self) -> (r: &str)
        ensures
            r@ == self.text@,
    {
        self.text.as_str()
    }
}

/// One line of a paragraph.
#[derive(Debug, Clone, PartialEq)]
pub struct TextLine {
    pub content: TextContent,
    pub location: Range,
}

/// A paragraph: one or more lines.
#[derive(Debug, Clone, PartialEq)]
pub struct Paragraph {
    pub lines: Vec<TextLine>,
    pub location: Range,
}

/// The text of the lines, joined by newlines.
pub open spec fn joined_lines(lines: Seq<TextLine>) -> Seq<char>
    decreases lines.len(),
{
    if lines.len() == 0 {
        Seq::empty()
    } else if lines.len() == 1 {
        lines[0].content.text@
    } else {
        joined_lines(lines.drop_last()) + "\n"@ + lines.last().content.text@
    }
}

impl Paragraph {
    /// The paragraph's text: its lines joined by newlines.
    pub fn text(&self) -> (r: String)
        ensures
            r@ == joined_lines(self.lines@),
    {
        let mut out = String::new();
        let mut i: usize = 0;
        while i < self.lines.len()
            invariant
                i <= self.lines@.len(),
                out@ == joined_lines(self.lines@.take(i as int)),
            decreases self.lines@.len() - i,
        {
            proof {
                let t = self.lines@.take(i + 1);
                assert(t.drop_last() =~= self.lines@.take(i as int));
                assert(t.last() == self.lines@[i as int]);
            }
            if i > 0 {
                out.append("\n");
            }
            out.append(self.lines[i].content.text.as_str());
            i = i + 1;
        }
        proof {
            assert(self.lines@.take(self.lines@.len() as int) =~= self.lines@);
        }
        out
    }
}

/// The label of an annotation.
#[derive(Debug, Clone, PartialEq)]
pub struct Label {
    pub value: String,
    pub location: Range,
}

impl Label {
    /// A label with the default location.
    pub fn new(value: String) -> (r: Label)
        ensures
            r.value == value,
            r.location == spec_default_location(),
    {
        Label { value, location: default_range() }
    }

    /// The label moved to the given location.
    pub fn at(self, location: Range) -> (r: Label)
        ensures
            r.value == self.value,
            r.location == location,
    {
        Label { value: self.value, location }
    }
}

/// The location `(0,0)..(0,0)` with an empty span.
pub fn default_range() -> (r: Range)
    ensures
        r == spec_default_location(),
{
    Range {
        span: ByteRange { start: 0, end: 0 },
        start: Position { line: 0, column: 0 },
        end: Position { line: 0, column: 0 },
    }
}

/// A `key=value` parameter of an annotation.
#[derive(Debug, Clone, PartialEq)]
pub struct Parameter {
    pub key: String,
    pub value: String,
    pub location: Range,
}

/// An annotation: a label, parameters, and content.
#[derive(Debug, PartialEq)]
pub struct Annotation {
    pub label: Label,
    pub parameters: Vec<Parameter>,
    pub children: Vec<ContentItem>,
    pub location: Range,
}

impl Annotation {
    pub fn children(&self) -> (r: &[ContentItem])
        ensures
            r@ == self.children@,
    {
        self.children.as_slice()
    }
}

/// A session: a title and nested content.
#[derive(Debug, PartialEq)]
pub struct Session {
    pub title: TextContent,
    pub children: Vec<ContentItem>,
    pub location: Range,
}

impl Session {
    /// A session with the given title, no content and the default location.
    pub fn with_title(title: String) -> (r: Session)
        ensures
            r.title.text == title,
            r.children@.len() == 0,
            r.location == spec_default_location(),
    {
        Session { title: TextContent { text: title }, children: Vec::new(), location: default_range() }
    }

    /// The session's title.
    pub fn label(&self) -> (r: &str)
        ensures
            r@ == self.title.text@,
    {
        self.title.text.as_str()
    }

    pub fn children(&self) -> (r: &[ContentItem])
        ensures
            r@ == self.children@,
    {
        self.children.as_slice()
    }
}

/// A definition: a subject and its content.
#[derive(Debug, PartialEq)]
pub struct Definition {
    pub subject: TextContent,
    pub children: Vec<ContentItem>,
    pub location: Range,
}

impl Definition {
    pub fn children(&self) -> (r: &[ContentItem])
        ensures
            r@ == self.children@,
    {
        self.children.as_slice()
    }
}

/// A list item: its line's text (marker included) and nested content.
#[derive(Debug, PartialEq)]
pub struct ListItem {
    pub text: TextContent,
    pub children: Vec<ContentItem>,
    pub location: Range,
}

impl ListItem {
    pub fn text(&self) -> (r: &str)
        ensures
            r@ == self.text.text@,
    {
        self.text.text.as_str()
    }

    pub fn children(&self) -> (r: &[ContentItem])
        ensures
            r@ == self.children@,
    {
        self.children.as_slice()
    }
}

/// A list of list items.
#[derive(Debug, PartialEq)]
pub struct List {
    pub items: Vec<ContentItem>,
    pub location: Range,
}

/// One line of a verbatim block's content.
#[derive(Debug, Clone, PartialEq)]
pub struct VerbatimLine {
    pub content: TextContent,
    pub location: Range,
}

/// A verbatim block: a subject, content lines kept as written, and the
/// closing annotation.
#[derive(Debug, PartialEq)]
pub struct Verbatim {
    pub subject: TextContent,
    pub children: Vec<VerbatimLine>,
    pub closing_annotation: Annotation,
    pub location: Range,
}

/// An element of document content.
#[derive(Debug, PartialEq)]
pub enum ContentItem {
    Paragraph(Paragraph),
    Session(Session),
    List(List),
    ListItem(ListItem),
    Definition(Definition),
    Annotation(Annotation),
    VerbatimBlock(Verbatim),
    TextLine(TextLine),
}

/// The name of each kind of content element.
pub open spec fn node_type_name(c: ContentItem) -> Seq<char> {
    match c {
        ContentItem::Paragraph(_) => "Paragraph"@,
        ContentItem::Session(_) => "Session"@,
        ContentItem::List(_) => "List"@,
        ContentItem::ListItem(_) => "ListItem"@,
        ContentItem::Definition(_) => "Definition"@,
        ContentItem::Annotation(_) => "Annotation"@,
        ContentItem::VerbatimBlock(_) => "VerbatimBlock"@,
        ContentItem::TextLine(_) => "TextLine"@,
    }
}

impl ContentItem {
    /// The name of the element's kind, such as `Paragraph`.
    pub fn node_type(&self) -> (r: &'static str)
        ensures
            r@ == node_type_name(*self),
    {
        match self {
            ContentItem::Paragraph(_) => "Paragraph",
            ContentItem::Session(_) => "Session",
            ContentItem::List(_) => "List",
            ContentItem::ListItem(_) => "ListItem",
            ContentItem::Definition(_) => "Definition",
            ContentItem::Annotation(_) => "Annotation",
            ContentItem::VerbatimBlock(_) => "VerbatimBlock",
            ContentItem::TextLine(_) => "TextLine",
        }
    }

    /// The element's location.
    pub fn range(&self) -> (r: &Range)
        ensures
            *r == item_location(*self),
    {
        match self {
            ContentItem::Paragraph(x) => &x.location,
            ContentItem::Session(x) => &x.location,
            ContentItem::List(x) => &x.location,
            ContentItem::ListItem(x) => &x.location,
            ContentItem::Definition(x) => &x.location,
            ContentItem::Annotation(x) => &x.location,
            ContentItem::VerbatimBlock(x) => &x.location,
            ContentItem::TextLine(x) => &x.location,
        }
    }
}

/// The location of an element.
pub open spec fn item_location(c: ContentItem) -> Range {
    match c {
        ContentItem::Paragraph(x) => x.location,
        ContentItem::Session(x) => x.location,
        ContentItem::List(x) => x.location,
        ContentItem::ListItem(x) => x.location,
        ContentItem::Definition(x) => x.location,
        ContentItem::Annotation(x) => x.location,
        ContentItem::VerbatimBlock(x) => x.location,
        ContentItem::TextLine(x) => x.location,
    }
}

/// A document: metadata annotations and the root session holding its content.
#[derive(Debug, PartialEq)]
pub struct Document {
    pub metadata: Vec<Annotation>,
    pub root: Session,
}

impl Document {
    /// The location of the root session.
    pub fn root_location(&self) -> (r: &Range)
        ensures
            *r == self.root.location,
    {
        &self.root.location
    }
}

} // verus!
