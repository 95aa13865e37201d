//! Fluent assertions over documents. Every check hands its assertion object
//! back on success, so checks chain; a failed check returns its message.

use crate::ast::{
    joined_lines,
    node_type_name,
    position_le,
    Annotation,
    ContentItem,
    Definition,
    Document,
    List,
    ListItem,
    Paragraph,
    Parameter,
    Position,
    Range,
    Session,
    Verbatim,
};
use crate::messages::{cat2, cat3, cat4, cat5, cat6, cat7, decimal, decimal_string};
use crate::text::{contains, occurs_at, starts_with, str_eq, utf8};
use vstd::prelude::*;

verus! {

// ---------------------------------------------------------------------------
// Text matching
// ---------------------------------------------------------------------------

/// How a text is matched.
#[derive(Debug, Clone, PartialEq)]
pub enum TextMatch {
    /// The text equals the given one.
    Exact(String),
    /// The text starts with the given one.
    StartsWith(String),
    /// The text contains the given one.
    Contains(String),
}

/// The text meets the match.
pub open spec fn text_matches(m: TextMatch, actual: Seq<char>) -> bool {
    match m {
        TextMatch::Exact(e) => actual == e@,
        TextMatch::StartsWith(p) => has_prefix(actual, p@),
        TextMatch::Contains(s) => has_substring(actual, s@),
    }
}

/// The message of a failed exact match.
pub open spec fn exact_message(context: Seq<char>, expected: Seq<char>, actual: Seq<char>) -> Seq<char> {
    context + ": Expected text to be '"@ + expected + "', but got '"@ + actual + "'"@
}

/// The message of a failed prefix match.
pub open spec fn prefix_message(context: Seq<char>, prefix: Seq<char>, actual: Seq<char>) -> Seq<char> {
    context + ": Expected text to start with '"@ + prefix + "', but got '"@ + actual + "'"@
}

/// The message of a failed substring match.
pub open spec fn contains_message(context: Seq<char>, sub: Seq<char>, actual: Seq<char>) -> Seq<char> {
    context + ": Expected text to contain '"@ + sub + "', but got '"@ + actual + "'"@
}

/// The text is a prefix of the other, byte by byte.
pub open spec fn has_prefix(actual: Seq<char>, prefix: Seq<char>) -> bool {
    utf8(prefix).is_prefix_of(utf8(actual))
}

/// The text occurs within the other.
pub open spec fn has_substring(actual: Seq<char>, sub: Seq<char>) -> bool {
    exists|k: int| occurs_at(utf8(actual), utf8(sub), k)
}

/// The message of a failed match.
pub open spec fn text_match_message(m: TextMatch, actual: Seq<char>, context: Seq<char>) -> Seq<char> {
    match m {
        TextMatch::Exact(e) => exact_message(context, e@, actual),
        TextMatch::StartsWith(p) => prefix_message(context, p@, actual),
        TextMatch::Contains(s) => contains_message(context, s@, actual),
    }
}

impl TextMatch {
    /// Check the text against the match; a failure carries its message.
    pub fn check(&self, actual: &str, context: &str) -> (r: Result<(), String>)
        ensures
            r is Ok <==> text_matches(*self, actual@),
            r is Err ==> r->Err_0@ == text_match_message(*self, actual@, context@),
    {
        match self {
            TextMatch::Exact(e) => {
                if str_eq(actual, e.as_str()) {
                    Ok(())
                } else {
                    Err(cat6(context, ": Expected text to be '", e.as_str(), "', but got '", actual, "'"))
                }
            },
            TextMatch::StartsWith(p) => {
                if starts_with(actual, p.as_str()) {
                    Ok(())
                } else {
                    Err(
                        cat6(
                            context,
                            ": Expected text to start with '",
                            p.as_str(),
                            "', but got '",
                            actual,
                            "'",
                        ),
                    )
                }
            },
            TextMatch::Contains(s) => {
                if contains(actual, s.as_str()) {
                    Ok(())
                } else {
                    Err(
                        cat6(
                            context,
                            ": Expected text to contain '",
                            s.as_str(),
                            "', but got '",
                            actual,
                            "'",
                        ),
                    )
                }
            },
        }
    }
}

// ---------------------------------------------------------------------------
// Summaries
// ---------------------------------------------------------------------------

/// The kinds of the items, joined by `, `.
pub open spec fn summary_of(items: Seq<ContentItem>) -> Seq<char>
    decreases items.len(),
{
    if items.len() == 0 {
        Seq::empty()
    } else if items.len() == 1 {
        node_type_name(items[0])
    } else {
        summary_of(items.drop_last()) + ", "@ + node_type_name(items.last())
    }
}

/// The kinds of the items, joined by `, `.
pub fn summarize_items(items: &[ContentItem]) -> (r: String)
    ensures
        r@ == summary_of(items@),
{
    let mut out = String::new();
    let mut i: usize = 0;
    while i < items.len()
        invariant
            i <= items@.len(),
            out@ == summary_of(items@.take(i as int)),
        decreases items@.len() - i,
    {
        proof {
            let t = items@.take(i + 1);
            assert(t.drop_last() =~= items@.take(i as int));
            assert(t.last() == items@[i as int]);
        }
        if i > 0 {
            out.append(", ");
        }
        out.append(items[i].node_type());
        i = i + 1;
    }
    proof {
        assert(items@.take(items@.len() as int) =~= items@);
    }
    out
}

/// A range as `line:column..line:column`.
pub open spec fn range_text(r: Range) -> Seq<char> {
    decimal(r.start.line as nat) + ":"@ + decimal(r.start.column as nat) + ".."@ + decimal(
        r.end.line as nat,
    ) + ":"@ + decimal(r.end.column as nat)
}

fn format_range(r: &Range) -> (s: String)
    ensures
        s@ == range_text(*r),
{
    let a = decimal_string(r.start.line);
    let b = decimal_string(r.start.column);
    let c = decimal_string(r.end.line);
    let d = decimal_string(r.end.column);
    cat7(a.as_str(), ":", b.as_str(), "..", c.as_str(), ":", d.as_str())
}

// ---------------------------------------------------------------------------
// Document assertions
// ---------------------------------------------------------------------------

/// Assertions over a document.
pub struct DocumentAssertion<'a> {
    pub doc: &'a Document,
}

/// Start asserting over a document.
pub fn assert_ast(doc: &Document) -> (r: DocumentAssertion<'_>)
    ensures
        r.doc == doc,
{
    DocumentAssertion { doc }
}

/// `items[i]`
pub open spec fn index_context(prefix: Seq<char>, i: usize) -> Seq<char> {
    prefix + "["@ + decimal(i as nat) + "]"@
}

impl<'a> DocumentAssertion<'a> {
    /// The document has `expected` items at its root.
    pub fn item_count(self, expected: usize) -> (r: Result<Self, String>)
        ensures
            r is Ok <==> self.doc.root.children@.len() == expected,
            r is Ok ==> r->Ok_0 == self,
            r is Err ==> r->Err_0@ == "Expected "@ + decimal(expected as nat) + " items, found "@
                + decimal(self.doc.root.children@.len()) + " items: ["@ + summary_of(
                self.doc.root.children@,
            ) + "]"@,
    {
        let actual = self.doc.root.children.len();
        if actual == expected {
            Ok(self)
        } else {
            let e = decimal_string(expected);
            let a = decimal_string(actual);
            let s = summarize_items(self.doc.root.children.as_slice());
            Err(cat7("Expected ", e.as_str(), " items, found ", a.as_str(), " items: [", s.as_str(), "]"))
        }
    }

    /// Run the given assertions on the root item at `index`.
    pub fn item<F>(self, index: usize, assertion: F) -> (r: Result<Self, String>) where
        F: FnOnce(ContentItemAssertion<'a>),

        requires
            forall|x: ContentItemAssertion<'a>| call_requires(assertion, (x,)),
        ensures
            r is Ok <==> index < self.doc.root.children@.len(),
            r is Ok ==> r->Ok_0 == self,
            r is Ok ==> ran_on_item(
                assertion,
                self.doc.root.children@[index as int],
                "items["@ + decimal(index as nat) + "]"@,
            ),
            r is Err ==> r->Err_0@ == "Item index "@ + decimal(index as nat)
                + " out of bounds (document has "@ + decimal(self.doc.root.children@.len())
                + " items)"@,
    {
        let n = self.doc.root.children.len();
        if index < n {
            let ctx = cat3("items[", decimal_string(index).as_str(), "]");
            let x = ContentItemAssertion { item: &self.doc.root.children[index], context: ctx };
            let ghost x0 = x;
            assertion(x);
            proof {
                assert(*x0.item == self.doc.root.children@[index as int]);
            }
            Ok(self)
        } else {
            let i = decimal_string(index);
            let c = decimal_string(n);
            Err(cat5("Item index ", i.as_str(), " out of bounds (document has ", c.as_str(), " items)"))
        }
    }

    /// The root location starts at the given line and column.
    pub fn root_location_starts_at(self, expected_line: usize, expected_column: usize) -> (r:
        Result<Self, String>)
        ensures
            r is Ok <==> self.doc.root.location.start == (Position {
                line: expected_line,
                column: expected_column,
            }),
            r is Ok ==> r->Ok_0 == self,
            r is Err && self.doc.root.location.start.line != expected_line ==> r->Err_0@
                == "Expected root session location start line "@ + decimal(expected_line as nat)
                + ", found "@ + decimal(self.doc.root.location.start.line as nat),
            r is Err && self.doc.root.location.start.line == expected_line ==> r->Err_0@
                == "Expected root session location start column "@ + decimal(
                expected_column as nat,
            ) + ", found "@ + decimal(self.doc.root.location.start.column as nat),
    {
        let start = self.doc.root.location.start;
        if start.line != expected_line {
            let e = decimal_string(expected_line);
            let a = decimal_string(start.line);
            return Err(cat4("Expected root session location start line ", e.as_str(), ", found ", a.as_str()));
        }
        if start.column != expected_column {
            let e = decimal_string(expected_column);
            let a = decimal_string(start.column);
            return Err(cat4("Expected root session location start column ", e.as_str(), ", found ", a.as_str()));
        }
        Ok(self)
    }

    /// The root location ends at the given line and column.
    pub fn root_location_ends_at(self, expected_line: usize, expected_column: usize) -> (r: Result<
        Self,
        String,
    >)
        ensures
            r is Ok <==> self.doc.root.location.end == (Position {
                line: expected_line,
                column: expected_column,
            }),
            r is Ok ==> r->Ok_0 == self,
            r is Err && self.doc.root.location.end.line != expected_line ==> r->Err_0@
                == "Expected root session location end line "@ + decimal(expected_line as nat)
                + ", found "@ + decimal(self.doc.root.location.end.line as nat),
            r is Err && self.doc.root.location.end.line == expected_line ==> r->Err_0@
                == "Expected root session location end column "@ + decimal(expected_column as nat)
                + ", found "@ + decimal(self.doc.root.location.end.column as nat),
    {
        let end = self.doc.root.location.end;
        if end.line != expected_line {
            let e = decimal_string(expected_line);
            let a = decimal_string(end.line);
            return Err(cat4("Expected root session location end line ", e.as_str(), ", found ", a.as_str()));
        }
        if end.column != expected_column {
            let e = decimal_string(expected_column);
            let a = decimal_string(end.column);
            return Err(cat4("Expected root session location end column ", e.as_str(), ", found ", a.as_str()));
        }
        Ok(self)
    }

    /// The root location contains the given position.
    pub fn root_location_contains(self, line: usize, column: usize) -> (r: Result<Self, String>)
        ensures
            r is Ok <==> (position_le(self.doc.root.location.start, (Position { line, column }))
                && position_le((Position { line, column }), self.doc.root.location.end)),
            r is Ok ==> r->Ok_0 == self,
            r is Err ==> r->Err_0@ == "Expected root session location "@ + range_text(
                self.doc.root.location,
            ) + " to contain position "@ + decimal(line as nat) + ":"@ + decimal(column as nat),
    {
        let pos = Position::new(line, column);
        if self.doc.root.location.contains(pos) {
            Ok(self)
        } else {
            let loc = format_range(&self.doc.root.location);
            let l = decimal_string(line);
            let c = decimal_string(column);
            Err(cat6("Expected root session location ", loc.as_str(), " to contain position ", l.as_str(), ":", c.as_str()))
        }
    }

    /// The root location does not contain the given position.
    pub fn root_location_excludes(self, line: usize, column: usize) -> (r: Result<Self, String>)
        ensures
            r is Ok <==> !(position_le(self.doc.root.location.start, (Position { line, column }))
                && position_le((Position { line, column }), self.doc.root.location.end)),
            r is Ok ==> r->Ok_0 == self,
            r is Err ==> r->Err_0@ == "Expected root session location "@ + range_text(
                self.doc.root.location,
            ) + " to NOT contain position "@ + decimal(line as nat) + ":"@ + decimal(column as nat),
    {
        let pos = Position::new(line, column);
        if !self.doc.root.location.contains(pos) {
            Ok(self)
        } else {
            let loc = format_range(&self.doc.root.location);
            let l = decimal_string(line);
            let c = decimal_string(column);
            Err(cat6("Expected root session location ", loc.as_str(), " to NOT contain position ", l.as_str(), ":", c.as_str()))
        }
    }
}

// ---------------------------------------------------------------------------
// Content item assertions
// ---------------------------------------------------------------------------

/// Assertions over one content item, with the path that leads to it.
pub struct ContentItemAssertion<'a> {
    pub item: &'a ContentItem,
    pub context: String,
}

/// The message for an item of the wrong kind.
pub open spec fn wrong_kind_message(context: Seq<char>, wanted: Seq<char>, item: ContentItem) -> Seq<char> {
    context + ": Expected "@ + wanted + ", found "@ + node_type_name(item)
}

impl<'a> ContentItemAssertion<'a> {
    fn wrong_kind(&self, wanted: &str) -> (r: String)
        ensures
            r@ == wrong_kind_message(self.context@, wanted@, *self.item),
    {
        cat4(self.context.as_str(), ": Expected ", wanted, cat2(", found ", self.item.node_type()).as_str())
    }

    /// The item is a paragraph.
    pub fn assert_paragraph(self) -> (r: Result<ParagraphAssertion<'a>, String>)
        ensures
            r is Ok <==> self.item is Paragraph,
            r is Ok ==> r->Ok_0.para == &self.item->Paragraph_0 && r->Ok_0.context == self.context,
            r is Err ==> r->Err_0@ == wrong_kind_message(self.context@, "Paragraph"@, *self.item),
    {
        match self.item {
            ContentItem::Paragraph(p) => Ok(ParagraphAssertion { para: p, context: self.context }),
            _ => Err(self.wrong_kind("Paragraph")),
        }
    }

    /// The item is a session.
    pub fn assert_session(self) -> (r: Result<SessionAssertion<'a>, String>)
        ensures
            r is Ok <==> self.item is Session,
            r is Ok ==> r->Ok_0.session == &self.item->Session_0 && r->Ok_0.context == self.context,
            r is Err ==> r->Err_0@ == wrong_kind_message(self.context@, "Session"@, *self.item),
    {
        match self.item {
            ContentItem::Session(s) => Ok(SessionAssertion { session: s, context: self.context }),
            _ => Err(self.wrong_kind("Session")),
        }
    }

    /// The item is a list.
    pub fn assert_list(self) -> (r: Result<ListAssertion<'a>, String>)
        ensures
            r is Ok <==> self.item is List,
            r is Ok ==> r->Ok_0.list == &self.item->List_0 && r->Ok_0.context == self.context,
            r is Err ==> r->Err_0@ == wrong_kind_message(self.context@, "List"@, *self.item),
    {
        match self.item {
            ContentItem::List(l) => Ok(ListAssertion { list: l, context: self.context }),
            _ => Err(self.wrong_kind("List")),
        }
    }

    /// The item is a definition.
    pub fn assert_definition(self) -> (r: Result<DefinitionAssertion<'a>, String>)
        ensures
            r is Ok <==> self.item is Definition,
            r is Ok ==> r->Ok_0.definition == &self.item->Definition_0 && r->Ok_0.context
                == self.context,
            r is Err ==> r->Err_0@ == wrong_kind_message(self.context@, "Definition"@, *self.item),
    {
        match self.item {
            ContentItem::Definition(d) => Ok(
                DefinitionAssertion { definition: d, context: self.context },
            ),
            _ => Err(self.wrong_kind("Definition")),
        }
    }

    /// The item is an annotation.
    pub fn assert_annotation(self) -> (r: Result<AnnotationAssertion<'a>, String>)
        ensures
            r is Ok <==> self.item is Annotation,
            r is Ok ==> r->Ok_0.annotation == &self.item->Annotation_0 && r->Ok_0.context
                == self.context,
            r is Err ==> r->Err_0@ == wrong_kind_message(self.context@, "Annotation"@, *self.item),
    {
        match self.item {
            ContentItem::Annotation(a) => Ok(
                AnnotationAssertion { annotation: a, context: self.context },
            ),
            _ => Err(self.wrong_kind("Annotation")),
        }
    }

    /// The item is a verbatim block.
    pub fn assert_verbatim_block(self) -> (r: Result<VerbatimBlockkAssertion<'a>, String>)
        ensures
            r is Ok <==> self.item is VerbatimBlock,
            r is Ok ==> r->Ok_0.verbatim_block == &self.item->VerbatimBlock_0 && r->Ok_0.context
                == self.context,
            r is Err ==> r->Err_0@ == wrong_kind_message(
                self.context@,
                "VerbatimBlock"@,
                *self.item,
            ),
    {
        match self.item {
            ContentItem::VerbatimBlock(v) => Ok(
                VerbatimBlockkAssertion { verbatim_block: v, context: self.context },
            ),
            _ => Err(self.wrong_kind("VerbatimBlock")),
        }
    }
}


// ---------------------------------------------------------------------------
// Shared child checks
// ---------------------------------------------------------------------------

/// The message for a wrong number of children.
pub open spec fn child_count_message(context: Seq<char>, expected: usize, children: Seq<ContentItem>) -> Seq<char> {
    context + ": Expected "@ + decimal(expected as nat) + " children, found "@ + decimal(
        children.len(),
    ) + " children: ["@ + summary_of(children) + "]"@
}

/// The message for a child index past the end.
pub open spec fn child_bounds_message(context: Seq<char>, index: usize, owner: Seq<char>, n: nat) -> Seq<char> {
    context + ": Child index "@ + decimal(index as nat) + " out of bounds ("@ + owner + " has "@
        + decimal(n) + " children)"@
}

fn check_child_count(context: &str, children: &[ContentItem], expected: usize) -> (r: Result<(), String>)
    ensures
        r is Ok <==> children@.len() == expected,
        r is Err ==> r->Err_0@ == child_count_message(context@, expected, children@),
{
    let actual = children.len();
    if actual == expected {
        Ok(())
    } else {
        let e = decimal_string(expected);
        let a = decimal_string(actual);
        let sm = summarize_items(children);
        let head = cat4(context, ": Expected ", e.as_str(), " children, found ");
        Err(cat5(head.as_str(), a.as_str(), " children: [", sm.as_str(), "]"))
    }
}

fn run_child<'a, F>(context: &str, children: &'a [ContentItem], index: usize, owner: &str, assertion: F) -> (r: Result<(), String>) where
    F: FnOnce(ContentItemAssertion<'a>),

    requires
        forall|x: ContentItemAssertion<'a>| call_requires(assertion, (x,)),
    ensures
        r is Ok <==> index < children@.len(),
        r is Ok ==> ran_on_item(
            assertion,
            children@[index as int],
            context@ + ":children["@ + decimal(index as nat) + "]"@,
        ),
        r is Err ==> r->Err_0@ == child_bounds_message(context@, index, owner@, children@.len()),
{
    let n = children.len();
    if index < n {
        let ctx = cat4(context, ":children[", decimal_string(index).as_str(), "]");
        let x = ContentItemAssertion { item: &children[index], context: ctx };
        let ghost x0 = x;
        assertion(x);
        proof {
            assert(*x0.item == children@[index as int]);
        }
        Ok(())
    } else {
        let i = decimal_string(index);
        let c = decimal_string(n);
        let head = cat4(context, ": Child index ", i.as_str(), " out of bounds (");
        Err(cat5(head.as_str(), owner, " has ", c.as_str(), " children)"))
    }
}

fn run_children<'a, F>(context: &str, children: &'a [ContentItem], assertion: F) where
    F: FnOnce(ChildrenAssertion<'a>),

    requires
        forall|x: ChildrenAssertion<'a>| call_requires(assertion, (x,)),
    ensures
        ran_on_children(assertion, children@, context@),
{
    let ctx = cat2(context, ":children");
    let x = ChildrenAssertion { children, context: ctx };
    let ghost x0 = x;
    assertion(x);
    proof {
        assert(x0.children@ == children@);
    }
}

/// The assertion has been run, and has returned, on the item with the given
/// context.
pub open spec fn ran_on_item<'a, F: FnOnce(ContentItemAssertion<'a>)>(
    assertion: F,
    item: ContentItem,
    context: Seq<char>,
) -> bool {
    exists|x: ContentItemAssertion<'a>|
        *x.item == item && x.context@ == context && #[trigger] call_ensures(assertion, (x,), ())
}

/// The assertion has been run, and has returned, on the list item with the
/// given context.
pub open spec fn ran_on_list_item<'a, F: FnOnce(ListItemAssertion<'a>)>(
    assertion: F,
    item: ListItem,
    context: Seq<char>,
) -> bool {
    exists|x: ListItemAssertion<'a>|
        *x.item == item && x.context@ == context && #[trigger] call_ensures(assertion, (x,), ())
}

/// The assertion has been run, and has returned, on the children with the
/// context extended by `:children`.
pub open spec fn ran_on_children<'a, F: FnOnce(ChildrenAssertion<'a>)>(
    assertion: F,
    children: Seq<ContentItem>,
    context: Seq<char>,
) -> bool {
    exists|x: ChildrenAssertion<'a>|
        x.children@ == children && x.context@ == context + ":children"@ && #[trigger] call_ensures(
            assertion,
            (x,),
            (),
        )
}

// ---------------------------------------------------------------------------
// Paragraphs
// ---------------------------------------------------------------------------

/// Assertions over a paragraph.
pub struct ParagraphAssertion<'a> {
    pub para: &'a Paragraph,
    pub context: String,
}

impl<'a> ParagraphAssertion<'a> {
    /// The paragraph's text (lines joined by newlines) is exactly `expected`.
    pub fn text(self, expected: &str) -> (r: Result<Self, String>)
        ensures
            r is Ok <==> joined_lines(self.para.lines@) == expected@,
            r is Ok ==> r->Ok_0 == self,
            r is Err ==> r->Err_0@ == exact_message(
                self.context@,
                expected@,
                joined_lines(self.para.lines@),
            ),
    {
        let m = TextMatch::Exact(expected.to_owned());
        match m.check(self.para.text().as_str(), self.context.as_str()) {
            Ok(()) => Ok(self),
            Err(e) => Err(e),
        }
    }

    /// The paragraph's text starts with `prefix`.
    pub fn text_starts_with(self, prefix: &str) -> (r: Result<Self, String>)
        ensures
            r is Ok <==> has_prefix(joined_lines(self.para.lines@), prefix@),
            r is Ok ==> r->Ok_0 == self,
            r is Err ==> r->Err_0@ == prefix_message(
                self.context@,
                prefix@,
                joined_lines(self.para.lines@),
            ),
    {
        let m = TextMatch::StartsWith(prefix.to_owned());
        match m.check(self.para.text().as_str(), self.context.as_str()) {
            Ok(()) => Ok(self),
            Err(e) => Err(e),
        }
    }

    /// The paragraph's text contains `substring`.
    pub fn text_contains(self, substring: &str) -> (r: Result<Self, String>)
        ensures
            r is Ok <==> has_substring(joined_lines(self.para.lines@), substring@),
            r is Ok ==> r->Ok_0 == self,
            r is Err ==> r->Err_0@ == contains_message(
                self.context@,
                substring@,
                joined_lines(self.para.lines@),
            ),
    {
        let m = TextMatch::Contains(substring.to_owned());
        match m.check(self.para.text().as_str(), self.context.as_str()) {
            Ok(()) => Ok(self),
            Err(e) => Err(e),
        }
    }

    /// The paragraph has `expected` lines.
    pub fn line_count(self, expected: usize) -> (r: Result<Self, String>)
        ensures
            r is Ok <==> self.para.lines@.len() == expected,
            r is Ok ==> r->Ok_0 == self,
            r is Err ==> r->Err_0@ == self.context@ + ": Expected "@ + decimal(expected as nat)
                + " lines, found "@ + decimal(self.para.lines@.len()) + " lines"@,
    {
        let actual = self.para.lines.len();
        if actual == expected {
            Ok(self)
        } else {
            let e = decimal_string(expected);
            let a = decimal_string(actual);
            Err(cat6(self.context.as_str(), ": Expected ", e.as_str(), " lines, found ", a.as_str(), " lines"))
        }
    }
}


// ---------------------------------------------------------------------------
// Sessions
// ---------------------------------------------------------------------------

/// Assertions over a session.
pub struct SessionAssertion<'a> {
    pub session: &'a Session,
    pub context: String,
}

/// The message of a failed label check.
pub open spec fn label_message(context: Seq<char>, relation: Seq<char>, expected: Seq<char>, actual: Seq<char>) -> Seq<char> {
    context + ": Expected session label "@ + relation + " '"@ + expected + "', but got '"@ + actual
        + "'"@
}

impl<'a> SessionAssertion<'a> {
    /// The session's title is exactly `expected`.
    pub fn label(self, expected: &str) -> (r: Result<Self, String>)
        ensures
            r is Ok <==> self.session.title.text@ == expected@,
            r is Ok ==> r->Ok_0 == self,
            r is Err ==> r->Err_0@ == label_message(
                self.context@,
                "to be"@,
                expected@,
                self.session.title.text@,
            ),
    {
        let actual = self.session.label();
        if str_eq(actual, expected) {
            Ok(self)
        } else {
            let head = cat2(self.context.as_str(), ": Expected session label ");
            Err(cat7(head.as_str(), "to be", " '", expected, "', but got '", actual, "'"))
        }
    }

    /// The session's title starts with `prefix`.
    pub fn label_starts_with(self, prefix: &str) -> (r: Result<Self, String>)
        ensures
            r is Ok <==> has_prefix(self.session.title.text@, prefix@),
            r is Ok ==> r->Ok_0 == self,
            r is Err ==> r->Err_0@ == label_message(
                self.context@,
                "to start with"@,
                prefix@,
                self.session.title.text@,
            ),
    {
        let actual = self.session.label();
        if starts_with(actual, prefix) {
            Ok(self)
        } else {
            let head = cat2(self.context.as_str(), ": Expected session label ");
            Err(cat7(head.as_str(), "to start with", " '", prefix, "', but got '", actual, "'"))
        }
    }

    /// The session's title contains `substring`.
    pub fn label_contains(self, substring: &str) -> (r: Result<Self, String>)
        ensures
            r is Ok <==> has_substring(self.session.title.text@, substring@),
            r is Ok ==> r->Ok_0 == self,
            r is Err ==> r->Err_0@ == label_message(
                self.context@,
                "to contain"@,
                substring@,
                self.session.title.text@,
            ),
    {
        let actual = self.session.label();
        if contains(actual, substring) {
            Ok(self)
        } else {
            let head = cat2(self.context.as_str(), ": Expected session label ");
            Err(cat7(head.as_str(), "to contain", " '", substring, "', but got '", actual, "'"))
        }
    }

    /// The session has `expected` children.
    pub fn child_count(self, expected: usize) -> (r: Result<Self, String>)
        ensures
            r is Ok <==> self.session.children@.len() == expected,
            r is Ok ==> r->Ok_0 == self,
            r is Err ==> r->Err_0@ == child_count_message(
                self.context@,
                expected,
                self.session.children@,
            ),
    {
        match check_child_count(self.context.as_str(), self.session.children(), expected) {
            Ok(()) => Ok(self),
            Err(e) => Err(e),
        }
    }

    /// Run the given assertions on the child at `index`.
    pub fn child<F>(self, index: usize, assertion: F) -> (r: Result<Self, String>) where
        F: FnOnce(ContentItemAssertion<'a>),

        requires
            forall|x: ContentItemAssertion<'a>| call_requires(assertion, (x,)),
        ensures
            r is Ok <==> index < self.session.children@.len(),
            r is Ok ==> r->Ok_0 == self,
            r is Ok ==> ran_on_item(
                assertion,
                self.session.children@[index as int],
                self.context@ + ":children["@ + decimal(index as nat) + "]"@,
            ),
            r is Err ==> r->Err_0@ == child_bounds_message(
                self.context@,
                index,
                "session"@,
                self.session.children@.len(),
            ),
    {
        match run_child(self.context.as_str(), self.session.children(), index, "session", assertion) {
            Ok(()) => Ok(self),
            Err(e) => Err(e),
        }
    }

    /// Run the given assertions on all children.
    pub fn children<F>(self, assertion: F) -> (r: Self) where
        F: FnOnce(ChildrenAssertion<'a>),

        requires
            forall|x: ChildrenAssertion<'a>| call_requires(assertion, (x,)),
        ensures
            r == self,
            ran_on_children(assertion, self.session.children@, self.context@),
    {
        run_children(self.context.as_str(), self.session.children(), assertion);
        self
    }
}

// ---------------------------------------------------------------------------
// Lists
// ---------------------------------------------------------------------------

/// Assertions over a list.
pub struct ListAssertion<'a> {
    pub list: &'a List,
    pub context: String,
}

impl<'a> ListAssertion<'a> {
    /// The list has `expected` items.
    pub fn item_count(self, expected: usize) -> (r: Result<Self, String>)
        ensures
            r is Ok <==> self.list.items@.len() == expected,
            r is Ok ==> r->Ok_0 == self,
            r is Err ==> r->Err_0@ == self.context@ + ": Expected "@ + decimal(expected as nat)
                + " list items, found "@ + decimal(self.list.items@.len()) + " list items"@,
    {
        let actual = self.list.items.len();
        if actual == expected {
            Ok(self)
        } else {
            let e = decimal_string(expected);
            let a = decimal_string(actual);
            Err(cat6(self.context.as_str(), ": Expected ", e.as_str(), " list items, found ", a.as_str(), " list items"))
        }
    }

    /// Run the given assertions on the list item at `index`.
    pub fn item<F>(self, index: usize, assertion: F) -> (r: Result<Self, String>) where
        F: FnOnce(ListItemAssertion<'a>),

        requires
            forall|x: ListItemAssertion<'a>| call_requires(assertion, (x,)),
        ensures
            r is Ok <==> index < self.list.items@.len() && self.list.items@[index as int] is ListItem,
            r is Ok ==> r->Ok_0 == self,
            r is Ok ==> ran_on_list_item(
                assertion,
                self.list.items@[index as int]->ListItem_0,
                self.context@ + ":items["@ + decimal(index as nat) + "]"@,
            ),
            r is Err && index >= self.list.items@.len() ==> r->Err_0@ == self.context@
                + ": Item index "@ + decimal(index as nat) + " out of bounds (list has "@ + decimal(
                self.list.items@.len(),
            ) + " items)"@,
            r is Err && index < self.list.items@.len() ==> r->Err_0@ == self.context@
                + ": Expected ListItem at index "@ + decimal(index as nat) + ", but found \""@
                + node_type_name(self.list.items@[index as int]) + "\""@,
    {
        let n = self.list.items.len();
        if index >= n {
            let i = decimal_string(index);
            let c = decimal_string(n);
            return Err(cat6(self.context.as_str(), ": Item index ", i.as_str(), " out of bounds (list has ", c.as_str(), " items)"));
        }
        match &self.list.items[index] {
            ContentItem::ListItem(li) => {
                let ctx = cat4(self.context.as_str(), ":items[", decimal_string(index).as_str(), "]");
                let x = ListItemAssertion { item: li, context: ctx };
                let ghost x0 = x;
                assertion(x);
                proof {
                    assert(*x0.item == self.list.items@[index as int]->ListItem_0);
                }
                Ok(self)
            },
            other => {
                let i = decimal_string(index);
                Err(cat6(self.context.as_str(), ": Expected ListItem at index ", i.as_str(), ", but found \"", other.node_type(), "\""))
            },
        }
    }
}

// ---------------------------------------------------------------------------
// List items
// ---------------------------------------------------------------------------

/// Assertions over a list item.
pub struct ListItemAssertion<'a> {
    pub item: &'a ListItem,
    pub context: String,
}

impl<'a> ListItemAssertion<'a> {
    /// The item's text is exactly `expected`.
    pub fn text(self, expected: &str) -> (r: Result<Self, String>)
        ensures
            r is Ok <==> self.item.text.text@ == expected@,
            r is Ok ==> r->Ok_0 == self,
            r is Err ==> r->Err_0@ == exact_message(self.context@, expected@, self.item.text.text@),
    {
        let m = TextMatch::Exact(expected.to_owned());
        match m.check(self.item.text(), self.context.as_str()) {
            Ok(()) => Ok(self),
            Err(e) => Err(e),
        }
    }

    /// The item's text starts with `prefix`.
    pub fn text_starts_with(self, prefix: &str) -> (r: Result<Self, String>)
        ensures
            r is Ok <==> has_prefix(self.item.text.text@, prefix@),
            r is Ok ==> r->Ok_0 == self,
            r is Err ==> r->Err_0@ == prefix_message(self.context@, prefix@, self.item.text.text@),
    {
        let m = TextMatch::StartsWith(prefix.to_owned());
        match m.check(self.item.text(), self.context.as_str()) {
            Ok(()) => Ok(self),
            Err(e) => Err(e),
        }
    }

    /// The item's text contains `substring`.
    pub fn text_contains(self, substring: &str) -> (r: Result<Self, String>)
        ensures
            r is Ok <==> has_substring(self.item.text.text@, substring@),
            r is Ok ==> r->Ok_0 == self,
            r is Err ==> r->Err_0@ == contains_message(
                self.context@,
                substring@,
                self.item.text.text@,
            ),
    {
        let m = TextMatch::Contains(substring.to_owned());
        match m.check(self.item.text(), self.context.as_str()) {
            Ok(()) => Ok(self),
            Err(e) => Err(e),
        }
    }

    /// The item has `expected` children.
    pub fn child_count(self, expected: usize) -> (r: Result<Self, String>)
        ensures
            r is Ok <==> self.item.children@.len() == expected,
            r is Ok ==> r->Ok_0 == self,
            r is Err ==> r->Err_0@ == child_count_message(self.context@, expected, self.item.children@),
    {
        match check_child_count(self.context.as_str(), self.item.children(), expected) {
            Ok(()) => Ok(self),
            Err(e) => Err(e),
        }
    }

    /// Run the given assertions on the child at `index`.
    pub fn child<F>(self, index: usize, assertion: F) -> (r: Result<Self, String>) where
        F: FnOnce(ContentItemAssertion<'a>),

        requires
            forall|x: ContentItemAssertion<'a>| call_requires(assertion, (x,)),
        ensures
            r is Ok <==> index < self.item.children@.len(),
            r is Ok ==> r->Ok_0 == self,
            r is Ok ==> ran_on_item(
                assertion,
                self.item.children@[index as int],
                self.context@ + ":children["@ + decimal(index as nat) + "]"@,
            ),
            r is Err ==> r->Err_0@ == child_bounds_message(
                self.context@,
                index,
                "list item"@,
                self.item.children@.len(),
            ),
    {
        match run_child(self.context.as_str(), self.item.children(), index, "list item", assertion) {
            Ok(()) => Ok(self),
            Err(e) => Err(e),
        }
    }

    /// Run the given assertions on all children.
    pub fn children<F>(self, assertion: F) -> (r: Self) where
        F: FnOnce(ChildrenAssertion<'a>),

        requires
            forall|x: ChildrenAssertion<'a>| call_requires(assertion, (x,)),
        ensures
            r == self,
            ran_on_children(assertion, self.item.children@, self.context@),
    {
        run_children(self.context.as_str(), self.item.children(), assertion);
        self
    }
}

// ---------------------------------------------------------------------------
// Definitions
// ---------------------------------------------------------------------------

/// Assertions over a definition.
pub struct DefinitionAssertion<'a> {
    pub definition: &'a Definition,
    pub context: String,
}

impl<'a> DefinitionAssertion<'a> {
    /// The subject is exactly `expected`.
    pub fn subject(self, expected: &str) -> (r: Result<Self, String>)
        ensures
            r is Ok <==> self.definition.subject.text@ == expected@,
            r is Ok ==> r->Ok_0 == self,
            r is Err ==> r->Err_0@ == exact_message(
                self.context@,
                expected@,
                self.definition.subject.text@,
            ),
    {
        let m = TextMatch::Exact(expected.to_owned());
        match m.check(self.definition.subject.as_string(), self.context.as_str()) {
            Ok(()) => Ok(self),
            Err(e) => Err(e),
        }
    }

    /// The subject starts with `prefix`.
    pub fn subject_starts_with(self, prefix: &str) -> (r: Result<Self, String>)
        ensures
            r is Ok <==> has_prefix(self.definition.subject.text@, prefix@),
            r is Ok ==> r->Ok_0 == self,
            r is Err ==> r->Err_0@ == prefix_message(
                self.context@,
                prefix@,
                self.definition.subject.text@,
            ),
    {
        let m = TextMatch::StartsWith(prefix.to_owned());
        match m.check(self.definition.subject.as_string(), self.context.as_str()) {
            Ok(()) => Ok(self),
            Err(e) => Err(e),
        }
    }

    /// The subject contains `substring`.
    pub fn subject_contains(self, substring: &str) -> (r: Result<Self, String>)
        ensures
            r is Ok <==> has_substring(self.definition.subject.text@, substring@),
            r is Ok ==> r->Ok_0 == self,
            r is Err ==> r->Err_0@ == contains_message(
                self.context@,
                substring@,
                self.definition.subject.text@,
            ),
    {
        let m = TextMatch::Contains(substring.to_owned());
        match m.check(self.definition.subject.as_string(), self.context.as_str()) {
            Ok(()) => Ok(self),
            Err(e) => Err(e),
        }
    }

    /// The definition has `expected` children.
    pub fn child_count(self, expected: usize) -> (r: Result<Self, String>)
        ensures
            r is Ok <==> self.definition.children@.len() == expected,
            r is Ok ==> r->Ok_0 == self,
            r is Err ==> r->Err_0@ == child_count_message(
                self.context@,
                expected,
                self.definition.children@,
            ),
    {
        match check_child_count(self.context.as_str(), self.definition.children(), expected) {
            Ok(()) => Ok(self),
            Err(e) => Err(e),
        }
    }

    /// Run the given assertions on the child at `index`.
    pub fn child<F>(self, index: usize, assertion: F) -> (r: Result<Self, String>) where
        F: FnOnce(ContentItemAssertion<'a>),

        requires
            forall|x: ContentItemAssertion<'a>| call_requires(assertion, (x,)),
        ensures
            r is Ok <==> index < self.definition.children@.len(),
            r is Ok ==> r->Ok_0 == self,
            r is Ok ==> ran_on_item(
                assertion,
                self.definition.children@[index as int],
                self.context@ + ":children["@ + decimal(index as nat) + "]"@,
            ),
            r is Err ==> r->Err_0@ == child_bounds_message(
                self.context@,
                index,
                "definition"@,
                self.definition.children@.len(),
            ),
    {
        match run_child(self.context.as_str(), self.definition.children(), index, "definition", assertion) {
            Ok(()) => Ok(self),
            Err(e) => Err(e),
        }
    }

    /// Run the given assertions on all children.
    pub fn children<F>(self, assertion: F) -> (r: Self) where
        F: FnOnce(ChildrenAssertion<'a>),

        requires
            forall|x: ChildrenAssertion<'a>| call_requires(assertion, (x,)),
        ensures
            r == self,
            ran_on_children(assertion, self.definition.children@, self.context@),
    {
        run_children(self.context.as_str(), self.definition.children(), assertion);
        self
    }
}


// ---------------------------------------------------------------------------
// Annotations
// ---------------------------------------------------------------------------

/// Assertions over an annotation.
pub struct AnnotationAssertion<'a> {
    pub annotation: &'a Annotation,
    pub context: String,
}

/// Some parameter has the key.
pub open spec fn has_key(ps: Seq<Parameter>, key: Seq<char>) -> bool {
    exists|i: int| 0 <= i < ps.len() && (#[trigger] ps[i]).key@ == key
}

/// `i` is the first parameter with the key.
pub open spec fn first_key(ps: Seq<Parameter>, key: Seq<char>, i: int) -> bool {
    &&& 0 <= i < ps.len()
    &&& ps[i].key@ == key
    &&& forall|j: int| 0 <= j < i ==> (#[trigger] ps[j]).key@ != key
}

/// The parameters as `key=value`, joined by `, `.
pub open spec fn params_text(ps: Seq<Parameter>) -> Seq<char>
    decreases ps.len(),
{
    if ps.len() == 0 {
        Seq::empty()
    } else if ps.len() == 1 {
        ps[0].key@ + "="@ + ps[0].value@
    } else {
        params_text(ps.drop_last()) + ", "@ + ps.last().key@ + "="@ + ps.last().value@
    }
}

/// The position of the first parameter with the key.
fn find_param(ps: &Vec<Parameter>, key: &str) -> (r: Option<usize>)
    ensures
        r is None <==> !has_key(ps@, key@),
        r is Some ==> first_key(ps@, key@, r->0 as int),
{
    let mut i: usize = 0;
    while i < ps.len()
        invariant
            i <= ps@.len(),
            forall|j: int| 0 <= j < i ==> (#[trigger] ps@[j]).key@ != key@,
        decreases ps@.len() - i,
    {
        if str_eq(ps[i].key.as_str(), key) {
            return Some(i);
        }
        i = i + 1;
    }
    None
}

/// The parameters as `key=value`, joined by `, `.
fn format_params(ps: &Vec<Parameter>) -> (r: String)
    ensures
        r@ == params_text(ps@),
{
    let mut out = String::new();
    let mut i: usize = 0;
    while i < ps.len()
        invariant
            i <= ps@.len(),
            out@ == params_text(ps@.take(i as int)),
        decreases ps@.len() - i,
    {
        proof {
            let t = ps@.take(i + 1);
            assert(t.drop_last() =~= ps@.take(i as int));
            assert(t.last() == ps@[i as int]);
        }
        if i > 0 {
            out.append(", ");
        }
        out.append(ps[i].key.as_str());
        out.append("=");
        out.append(ps[i].value.as_str());
        i = i + 1;
    }
    proof {
        assert(ps@.take(ps@.len() as int) =~= ps@);
    }
    out
}

impl<'a> AnnotationAssertion<'a> {
    /// The label is exactly `expected`.
    pub fn label(self, expected: &str) -> (r: Result<Self, String>)
        ensures
            r is Ok <==> self.annotation.label.value@ == expected@,
            r is Ok ==> r->Ok_0 == self,
            r is Err ==> r->Err_0@ == self.context@ + ": Expected annotation label to be '"@
                + expected@ + "', but got '"@ + self.annotation.label.value@ + "'"@,
    {
        let actual = self.annotation.label.value.as_str();
        if str_eq(actual, expected) {
            Ok(self)
        } else {
            Err(cat6(self.context.as_str(), ": Expected annotation label to be '", expected, "', but got '", actual, "'"))
        }
    }

    /// The annotation has `expected` parameters.
    pub fn parameter_count(self, expected: usize) -> (r: Result<Self, String>)
        ensures
            r is Ok <==> self.annotation.parameters@.len() == expected,
            r is Ok ==> r->Ok_0 == self,
            r is Err ==> r->Err_0@ == self.context@ + ": Expected "@ + decimal(expected as nat)
                + " parameters, found "@ + decimal(self.annotation.parameters@.len())
                + " parameters"@,
    {
        let actual = self.annotation.parameters.len();
        if actual == expected {
            Ok(self)
        } else {
            let e = decimal_string(expected);
            let a = decimal_string(actual);
            Err(cat6(self.context.as_str(), ": Expected ", e.as_str(), " parameters, found ", a.as_str(), " parameters"))
        }
    }

    /// A parameter with the key exists.
    pub fn has_parameter(self, key: &str) -> (r: Result<Self, String>)
        ensures
            r is Ok <==> has_key(self.annotation.parameters@, key@),
            r is Ok ==> r->Ok_0 == self,
            r is Err ==> r->Err_0@ == self.context@ + ": Expected parameter with key '"@ + key@
                + "' to exist, but found parameters: ["@ + params_text(self.annotation.parameters@)
                + "]"@,
    {
        match find_param(&self.annotation.parameters, key) {
            Some(_) => Ok(self),
            None => {
                let ps = format_params(&self.annotation.parameters);
                Err(cat6(self.context.as_str(), ": Expected parameter with key '", key, "' to exist, but found parameters: [", ps.as_str(), "]"))
            },
        }
    }

    /// No parameter has the key.
    pub fn no_parameter(self, key: &str) -> (r: Result<Self, String>)
        ensures
            r is Ok <==> !has_key(self.annotation.parameters@, key@),
            r is Ok ==> r->Ok_0 == self,
            r is Err ==> exists|i: int|
                first_key(self.annotation.parameters@, key@, i) && r->Err_0@ == self.context@
                    + ": Expected no parameter with key '"@ + key@ + "', but found it with value '"@
                    + self.annotation.parameters@[i].value@ + "'"@,
    {
        match find_param(&self.annotation.parameters, key) {
            None => Ok(self),
            Some(i) => {
                let v = self.annotation.parameters[i].value.as_str();
                Err(cat6(self.context.as_str(), ": Expected no parameter with key '", key, "', but found it with value '", v, "'"))
            },
        }
    }

    /// The first parameter with the key has the value `value`.
    pub fn has_parameter_with_value(self, key: &str, value: &str) -> (r: Result<Self, String>)
        ensures
            r is Ok <==> exists|i: int|
                first_key(self.annotation.parameters@, key@, i)
                    && self.annotation.parameters@[i].value@ == value@,
            r is Ok ==> r->Ok_0 == self,
            r is Err && has_key(self.annotation.parameters@, key@) ==> exists|i: int|
                first_key(self.annotation.parameters@, key@, i) && r->Err_0@ == self.context@
                    + ": Expected parameter '"@ + key@ + "' to have value '"@ + value@
                    + "', but got '"@ + self.annotation.parameters@[i].value@ + "'"@,
            r is Err && !has_key(self.annotation.parameters@, key@) ==> r->Err_0@ == self.context@
                + ": Expected parameter '"@ + key@ + "="@ + value@
                + "' to exist, but parameter '"@ + key@ + "' not found. Available parameters: ["@
                + params_text(self.annotation.parameters@) + "]"@,
    {
        match find_param(&self.annotation.parameters, key) {
            Some(i) => {
                let pv = self.annotation.parameters[i].value.as_str();
                if str_eq(pv, value) {
                    Ok(self)
                } else {
                    let head = cat4(self.context.as_str(), ": Expected parameter '", key, "' to have value '");
                    Err(cat5(head.as_str(), value, "', but got '", pv, "'"))
                }
            },
            None => {
                let ps = format_params(&self.annotation.parameters);
                let head = cat6(self.context.as_str(), ": Expected parameter '", key, "=", value, "' to exist, but parameter '");
                Err(cat5(head.as_str(), key, "' not found. Available parameters: [", ps.as_str(), "]"))
            },
        }
    }

    /// The parameter at `index` has the key and the value.
    pub fn parameter(self, index: usize, expected_key: &str, expected_value: &str) -> (r: Result<
        Self,
        String,
    >)
        ensures
            r is Ok <==> index < self.annotation.parameters@.len()
                && self.annotation.parameters@[index as int].key@ == expected_key@
                && self.annotation.parameters@[index as int].value@ == expected_value@,
            r is Ok ==> r->Ok_0 == self,
            r is Err && index >= self.annotation.parameters@.len() ==> r->Err_0@ == self.context@
                + ": Parameter index "@ + decimal(index as nat) + " out of bounds (annotation has "@
                + decimal(self.annotation.parameters@.len()) + " parameters)"@,
            r is Err && index < self.annotation.parameters@.len()
                && self.annotation.parameters@[index as int].key@ != expected_key@ ==> r->Err_0@
                == self.context@ + ": Expected parameter["@ + decimal(index as nat)
                + "].key to be '"@ + expected_key@ + "', but got '"@
                + self.annotation.parameters@[index as int].key@ + "'"@,
            r is Err && index < self.annotation.parameters@.len()
                && self.annotation.parameters@[index as int].key@ == expected_key@ ==> r->Err_0@
                == self.context@ + ": Expected parameter["@ + decimal(index as nat)
                + "].value to be '"@ + expected_value@ + "', but got '"@
                + self.annotation.parameters@[index as int].value@ + "'"@,
    {
        let n = self.annotation.parameters.len();
        if index >= n {
            let i = decimal_string(index);
            let c = decimal_string(n);
            return Err(cat6(self.context.as_str(), ": Parameter index ", i.as_str(), " out of bounds (annotation has ", c.as_str(), " parameters)"));
        }
        let pk = self.annotation.parameters[index].key.as_str();
        let i = decimal_string(index);
        if !str_eq(pk, expected_key) {
            let head = cat4(self.context.as_str(), ": Expected parameter[", i.as_str(), "].key to be '");
            return Err(cat5(head.as_str(), expected_key, "', but got '", pk, "'"));
        }
        let pv = self.annotation.parameters[index].value.as_str();
        if !str_eq(pv, expected_value) {
            let head = cat4(self.context.as_str(), ": Expected parameter[", i.as_str(), "].value to be '");
            return Err(cat5(head.as_str(), expected_value, "', but got '", pv, "'"));
        }
        Ok(self)
    }

    /// The parameter at `index` has the key (any value).
    pub fn parameter_key(self, index: usize, expected_key: &str) -> (r: Result<Self, String>)
        ensures
            r is Ok <==> index < self.annotation.parameters@.len()
                && self.annotation.parameters@[index as int].key@ == expected_key@,
            r is Ok ==> r->Ok_0 == self,
            r is Err && index >= self.annotation.parameters@.len() ==> r->Err_0@ == self.context@
                + ": Parameter index "@ + decimal(index as nat) + " out of bounds (annotation has "@
                + decimal(self.annotation.parameters@.len()) + " parameters)"@,
            r is Err && index < self.annotation.parameters@.len() ==> r->Err_0@ == self.context@
                + ": Expected parameter["@ + decimal(index as nat) + "].key to be '"@
                + expected_key@ + "', but got '"@ + self.annotation.parameters@[index as int].key@
                + "'"@,
    {
        let n = self.annotation.parameters.len();
        if index >= n {
            let i = decimal_string(index);
            let c = decimal_string(n);
            return Err(cat6(self.context.as_str(), ": Parameter index ", i.as_str(), " out of bounds (annotation has ", c.as_str(), " parameters)"));
        }
        let pk = self.annotation.parameters[index].key.as_str();
        if !str_eq(pk, expected_key) {
            let i = decimal_string(index);
            let head = cat4(self.context.as_str(), ": Expected parameter[", i.as_str(), "].key to be '");
            return Err(cat5(head.as_str(), expected_key, "', but got '", pk, "'"));
        }
        Ok(self)
    }

    /// The annotation has `expected` children.
    pub fn child_count(self, expected: usize) -> (r: Result<Self, String>)
        ensures
            r is Ok <==> self.annotation.children@.len() == expected,
            r is Ok ==> r->Ok_0 == self,
            r is Err ==> r->Err_0@ == child_count_message(
                self.context@,
                expected,
                self.annotation.children@,
            ),
    {
        match check_child_count(self.context.as_str(), self.annotation.children(), expected) {
            Ok(()) => Ok(self),
            Err(e) => Err(e),
        }
    }

    /// Run the given assertions on the child at `index`.
    pub fn child<F>(self, index: usize, assertion: F) -> (r: Result<Self, String>) where
        F: FnOnce(ContentItemAssertion<'a>),

        requires
            forall|x: ContentItemAssertion<'a>| call_requires(assertion, (x,)),
        ensures
            r is Ok <==> index < self.annotation.children@.len(),
            r is Ok ==> r->Ok_0 == self,
            r is Ok ==> ran_on_item(
                assertion,
                self.annotation.children@[index as int],
                self.context@ + ":children["@ + decimal(index as nat) + "]"@,
            ),
            r is Err ==> r->Err_0@ == child_bounds_message(
                self.context@,
                index,
                "annotation"@,
                self.annotation.children@.len(),
            ),
    {
        match run_child(self.context.as_str(), self.annotation.children(), index, "annotation", assertion) {
            Ok(()) => Ok(self),
            Err(e) => Err(e),
        }
    }
}

// ---------------------------------------------------------------------------
// Verbatim blocks
// ---------------------------------------------------------------------------

/// Assertions over a verbatim block.
pub struct VerbatimBlockkAssertion<'a> {
    pub verbatim_block: &'a Verbatim,
    pub context: String,
}

/// The content lines' texts joined by newlines.
pub open spec fn verbatim_text(lines: Seq<crate::ast::VerbatimLine>) -> Seq<char>
    decreases lines.len(),
{
    if lines.len() == 0 {
        Seq::empty()
    } else if lines.len() == 1 {
        lines[0].content.text@
    } else {
        verbatim_text(lines.drop_last()) + "\n"@ + lines.last().content.text@
    }
}

impl<'a> VerbatimBlockkAssertion<'a> {
    /// The subject is exactly `expected`.
    pub fn subject(self, expected: &str) -> (r: Result<Self, String>)
        ensures
            r is Ok <==> self.verbatim_block.subject.text@ == expected@,
            r is Ok ==> r->Ok_0 == self,
            r is Err ==> r->Err_0@ == self.context@ + ": Expected foreign block subject to be '"@
                + expected@ + "', but got '"@ + self.verbatim_block.subject.text@ + "'"@,
    {
        let actual = self.verbatim_block.subject.as_string();
        if str_eq(actual, expected) {
            Ok(self)
        } else {
            Err(cat6(self.context.as_str(), ": Expected foreign block subject to be '", expected, "', but got '", actual, "'"))
        }
    }

    /// The content (lines joined by newlines) contains `substring`.
    pub fn content_contains(self, substring: &str) -> (r: Result<Self, String>)
        ensures
            r is Ok <==> has_substring(verbatim_text(self.verbatim_block.children@), substring@),
            r is Ok ==> r->Ok_0 == self,
            r is Err ==> r->Err_0@ == self.context@ + ": Expected foreign block content to contain '"@
                + substring@ + "', but got '"@ + verbatim_text(self.verbatim_block.children@)
                + "'"@,
    {
        let lines = &self.verbatim_block.children;
        let mut actual = String::new();
        let mut i: usize = 0;
        while i < lines.len()
            invariant
                i <= lines@.len(),
                actual@ == verbatim_text(lines@.take(i as int)),
            decreases lines@.len() - i,
        {
            proof {
                let t = lines@.take(i + 1);
                assert(t.drop_last() =~= lines@.take(i as int));
                assert(t.last() == lines@[i as int]);
            }
            if i > 0 {
                actual.append("\n");
            }
            actual.append(lines[i].content.as_string());
            i = i + 1;
        }
        proof {
            assert(lines@.take(lines@.len() as int) =~= lines@);
        }
        if contains(actual.as_str(), substring) {
            Ok(self)
        } else {
            Err(cat6(self.context.as_str(), ": Expected foreign block content to contain '", substring, "', but got '", actual.as_str(), "'"))
        }
    }

    /// The block has no content lines.
    pub fn is_marker_form(self) -> (r: Result<Self, String>)
        ensures
            r is Ok <==> self.verbatim_block.children@.len() == 0,
            r is Ok ==> r->Ok_0 == self,
            r is Err ==> r->Err_0@ == self.context@
                + ": Expected foreign block to be marker form (empty children), but got "@
                + decimal(self.verbatim_block.children@.len()) + " children"@,
    {
        let n = self.verbatim_block.children.len();
        if n == 0 {
            Ok(self)
        } else {
            let c = decimal_string(n);
            Err(cat4(self.context.as_str(), ": Expected foreign block to be marker form (empty children), but got ", c.as_str(), " children"))
        }
    }

    /// The closing annotation's label is exactly `expected`.
    pub fn closing_label(self, expected: &str) -> (r: Result<Self, String>)
        ensures
            r is Ok <==> self.verbatim_block.closing_annotation.label.value@ == expected@,
            r is Ok ==> r->Ok_0 == self,
            r is Err ==> r->Err_0@ == self.context@ + ": Expected closing annotation label to be '"@
                + expected@ + "', but got '"@ + self.verbatim_block.closing_annotation.label.value@
                + "'"@,
    {
        let actual = self.verbatim_block.closing_annotation.label.value.as_str();
        if str_eq(actual, expected) {
            Ok(self)
        } else {
            Err(cat6(self.context.as_str(), ": Expected closing annotation label to be '", expected, "', but got '", actual, "'"))
        }
    }

    /// Some parameter of the closing annotation has the key and the value.
    pub fn has_closing_parameter_with_value(self, key: &str, value: &str) -> (r: Result<
        Self,
        String,
    >)
        ensures
            r is Ok <==> exists|i: int|
                0 <= i < self.verbatim_block.closing_annotation.parameters@.len() && (#[trigger] self.verbatim_block.closing_annotation.parameters@[i]).key@ == key@
                    && self.verbatim_block.closing_annotation.parameters@[i].value@ == value@,
            r is Ok ==> r->Ok_0 == self,
            r is Err ==> r->Err_0@ == self.context@
                + ": Expected closing annotation to have parameter '"@ + key@ + "="@ + value@
                + "'"@,
    {
        let ps = &self.verbatim_block.closing_annotation.parameters;
        let mut i: usize = 0;
        while i < ps.len()
            invariant
                i <= ps@.len(),
                ps@ == self.verbatim_block.closing_annotation.parameters@,
                forall|j: int|
                    0 <= j < i ==> !((#[trigger] ps@[j]).key@ == key@ && ps@[j].value@ == value@),
            decreases ps@.len() - i,
        {
            if str_eq(ps[i].key.as_str(), key) && str_eq(ps[i].value.as_str(), value) {
                proof {
                    assert(self.verbatim_block.closing_annotation.parameters@[i as int].key@ == key@);
                }
                return Ok(self);
            }
            i = i + 1;
        }
        Err(cat6(self.context.as_str(), ": Expected closing annotation to have parameter '", key, "=", value, "'"))
    }
}

// ---------------------------------------------------------------------------
// Children
// ---------------------------------------------------------------------------

/// Assertions over a list of children.
pub struct ChildrenAssertion<'a> {
    pub children: &'a [ContentItem],
    pub context: String,
}

impl<'a> ChildrenAssertion<'a> {
    /// There are `expected` children.
    pub fn count(self, expected: usize) -> (r: Result<Self, String>)
        ensures
            r is Ok <==> self.children@.len() == expected,
            r is Ok ==> r->Ok_0 == self,
            r is Err ==> r->Err_0@ == child_count_message(self.context@, expected, self.children@),
    {
        match check_child_count(self.context.as_str(), self.children, expected) {
            Ok(()) => Ok(self),
            Err(e) => Err(e),
        }
    }

    /// Run the given assertions on the child at `index`.
    pub fn item<F>(self, index: usize, assertion: F) -> (r: Result<Self, String>) where
        F: FnOnce(ContentItemAssertion<'a>),

        requires
            forall|x: ContentItemAssertion<'a>| call_requires(assertion, (x,)),
        ensures
            r is Ok <==> index < self.children@.len(),
            r is Ok ==> r->Ok_0 == self,
            r is Ok ==> ran_on_item(
                assertion,
                self.children@[index as int],
                self.context@ + "["@ + decimal(index as nat) + "]"@,
            ),
            r is Err ==> r->Err_0@ == self.context@ + ": Child index "@ + decimal(index as nat)
                + " out of bounds ("@ + decimal(self.children@.len()) + " children)"@,
    {
        let n = self.children.len();
        if index < n {
            let ctx = cat4(self.context.as_str(), "[", decimal_string(index).as_str(), "]");
            let x = ContentItemAssertion { item: &self.children[index], context: ctx };
            let ghost x0 = x;
            assertion(x);
            proof {
                assert(*x0.item == self.children@[index as int]);
            }
            Ok(self)
        } else {
            let i = decimal_string(index);
            let c = decimal_string(n);
            Err(cat6(self.context.as_str(), ": Child index ", i.as_str(), " out of bounds (", c.as_str(), " children)"))
        }
    }

    /// Every child is a paragraph.
    pub fn all_paragraphs(self) -> (r: Result<Self, String>)
        ensures
            r is Ok <==> forall|i: int| 0 <= i < self.children@.len() ==> (#[trigger] self.children@[i]) is Paragraph,
            r is Ok ==> r->Ok_0 == self,
            r is Err ==> exists|i: int|
                0 <= i < self.children@.len() && !(self.children@[i] is Paragraph) && (forall|j: int|
                    0 <= j < i ==> (#[trigger] self.children@[j]) is Paragraph) && r->Err_0@
                    == index_context(self.context@, i as usize) + ": Expected Paragraph, found "@
                    + node_type_name(self.children@[i]),
    {
        let mut i: usize = 0;
        while i < self.children.len()
            invariant
                i <= self.children@.len(),
                forall|j: int| 0 <= j < i ==> (#[trigger] self.children@[j]) is Paragraph,
            decreases self.children@.len() - i,
        {
            match &self.children[i] {
                ContentItem::Paragraph(_) => {},
                other => {
                    let d = decimal_string(i);
                    let r = cat6(self.context.as_str(), "[", d.as_str(), "]", ": Expected Paragraph, found ", other.node_type());
                    proof {
                        assert(!(self.children@[i as int] is Paragraph));
                        assert(r@ == index_context(self.context@, i) + ": Expected Paragraph, found "@ + node_type_name(self.children@[i as int]));
                    }
                    return Err(r);
                },
            }
            i = i + 1;
        }
        Ok(self)
    }

    /// Every child is a session.
    pub fn all_sessions(self) -> (r: Result<Self, String>)
        ensures
            r is Ok <==> forall|i: int| 0 <= i < self.children@.len() ==> (#[trigger] self.children@[i]) is Session,
            r is Ok ==> r->Ok_0 == self,
            r is Err ==> exists|i: int|
                0 <= i < self.children@.len() && !(self.children@[i] is Session) && (forall|j: int|
                    0 <= j < i ==> (#[trigger] self.children@[j]) is Session) && r->Err_0@
                    == index_context(self.context@, i as usize) + ": Expected Session, found "@
                    + node_type_name(self.children@[i]),
    {
        let mut i: usize = 0;
        while i < self.children.len()
            invariant
                i <= self.children@.len(),
                forall|j: int| 0 <= j < i ==> (#[trigger] self.children@[j]) is Session,
            decreases self.children@.len() - i,
        {
            match &self.children[i] {
                ContentItem::Session(_) => {},
                other => {
                    let d = decimal_string(i);
                    let r = cat6(self.context.as_str(), "[", d.as_str(), "]", ": Expected Session, found ", other.node_type());
                    proof {
                        assert(!(self.children@[i as int] is Session));
                        assert(r@ == index_context(self.context@, i) + ": Expected Session, found "@ + node_type_name(self.children@[i as int]));
                    }
                    return Err(r);
                },
            }
            i = i + 1;
        }
        Ok(self)
    }
}

} // verus!
