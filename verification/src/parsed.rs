//! A loaded sample, tokenized or parsed, ready for inspection: token
//! searches over its tokens, and the first element of each kind in its
//! document.

use crate::ast::{Annotation, ContentItem, Definition, Document, List, Paragraph, Session, Verbatim};
use crate::harness::{
    get_first_annotation, get_first_definition, get_first_list, get_first_paragraph,
    get_first_session, get_first_verbatim, ElementType,
};
use crate::samples::DocumentType;
use crate::tokens::Token;
use std::ops::Range;
use vstd::prelude::*;

verus! {

/// Where a sample came from: an element sample, a sample document, or a
/// file path.
#[derive(Debug, Clone, PartialEq)]
pub enum SourceType {
    Element(ElementType),
    Document(DocumentType),
    Path(String),
}

/// The tokens of a sample.
#[derive(Debug)]
pub struct ParsedTokens {
    source_type: SourceType,
    tokens: Vec<(Token, Range<usize>)>,
}

/// How many of the flags are set.
pub open spec fn count_true(bs: Seq<bool>) -> nat
    decreases bs.len(),
{
    if bs.len() == 0 {
        0
    } else {
        count_true(bs.drop_last()) + if bs.last() {
            1nat
        } else {
            0nat
        }
    }
}

impl ParsedTokens {
    /// The tokens of a sample from the given source.
    pub fn new(source_type: SourceType, tokens: Vec<(Token, Range<usize>)>) -> (r: ParsedTokens)
        ensures
            r.spec_tokens() == tokens@,
            r.spec_source() == source_type,
    {
        ParsedTokens { source_type, tokens }
    }

    /// The tokens.
    pub closed spec fn spec_tokens(&self) -> Seq<(Token, Range<usize>)> {
        self.tokens@
    }

    /// Where the sample came from.
    pub closed spec fn spec_source(&self) -> SourceType {
        self.source_type
    }

    /// The tokens, with their ranges.
    pub fn tokens(&self) -> (r: &[(Token, Range<usize>)])
        ensures
            r@ == self.spec_tokens(),
    {
        self.tokens.as_slice()
    }

    /// The number of tokens.
    pub fn len(&self) -> (r: usize)
        ensures
            r == self.spec_tokens().len(),
    {
        self.tokens.len()
    }

    /// Whether there are no tokens.
    pub fn is_empty(&self) -> (r: bool)
        ensures
            r == (self.spec_tokens().len() == 0),
    {
        self.tokens.len() == 0
    }

    /// The first token the predicate accepts: the predicate answered `true`
    /// for it and `false` for every token before it; `None` when it answered
    /// `false` for every token.
    pub fn find_token<F: Fn(&Token) -> bool>(&self, predicate: F) -> (r: Option<&Token>)
        requires
            forall|i: int|
                0 <= i < self.spec_tokens().len() ==> predicate.requires(
                    (&#[trigger] self.spec_tokens()[i].0,),
                ),
        ensures
            match r {
                Some(t) => exists|k: int|
                    0 <= k < self.spec_tokens().len() && *t == self.spec_tokens()[k].0
                        && predicate.ensures((&self.spec_tokens()[k].0,), true) && forall|j: int|
                        0 <= j < k ==> predicate.ensures(
                            (&#[trigger] self.spec_tokens()[j].0,),
                            false,
                        ),
                None => forall|j: int|
                    0 <= j < self.spec_tokens().len() ==> predicate.ensures(
                        (&#[trigger] self.spec_tokens()[j].0,),
                        false,
                    ),
            },
    {
        let mut i: usize = 0;
        while i < self.tokens.len()
            invariant
                i <= self.tokens@.len(),
                forall|j: int|
                    0 <= j < self.spec_tokens().len() ==> predicate.requires(
                        (&#[trigger] self.spec_tokens()[j].0,),
                    ),
                forall|j: int|
                    0 <= j < i ==> predicate.ensures((&#[trigger] self.spec_tokens()[j].0,), false),
            decreases self.tokens@.len() - i,
        {
            let t = &self.tokens[i].0;
            proof {
                assert(*t == self.spec_tokens()[i as int].0);
                assert(predicate.requires((&self.spec_tokens()[i as int].0,)));
            }
            let hit = predicate(t);
            if hit {
                proof {
                    assert(predicate.ensures((&self.spec_tokens()[i as int].0,), true));
                }
                return Some(t);
            }
            i = i + 1;
        }
        None
    }

    /// The number of tokens the predicate accepts, counting one answer of
    /// the predicate per token.
    pub fn count_tokens<F: Fn(&Token) -> bool>(&self, predicate: F) -> (r: usize)
        requires
            forall|i: int|
                0 <= i < self.spec_tokens().len() ==> predicate.requires(
                    (&#[trigger] self.spec_tokens()[i].0,),
                ),
        ensures
            exists|bs: Seq<bool>|
                #![trigger count_true(bs)]
                bs.len() == self.spec_tokens().len() && (forall|j: int|
                    0 <= j < bs.len() ==> predicate.ensures(
                        (&#[trigger] self.spec_tokens()[j].0,),
                        bs[j],
                    )) && r == count_true(bs),
    {
        let ghost mut bs: Seq<bool> = Seq::empty();
        let mut n: usize = 0;
        let mut i: usize = 0;
        while i < self.tokens.len()
            invariant
                i <= self.tokens@.len(),
                bs.len() == i,
                n <= i,
                n == count_true(bs),
                forall|j: int|
                    0 <= j < self.spec_tokens().len() ==> predicate.requires(
                        (&#[trigger] self.spec_tokens()[j].0,),
                    ),
                forall|j: int|
                    0 <= j < i ==> predicate.ensures((&#[trigger] self.spec_tokens()[j].0,), bs[j]),
            decreases self.tokens@.len() - i,
        {
            let hit = predicate(&self.tokens[i].0);
            proof {
                assert(bs.push(hit).drop_last() =~= bs);
                bs = bs.push(hit);
            }
            if hit {
                n = n + 1;
            }
            i = i + 1;
        }
        n
    }

    /// Whether the predicate accepts some token: `true` once it answered
    /// `true`, `false` when it answered `false` for every token.
    pub fn has_token<F: Fn(&Token) -> bool>(&self, predicate: F) -> (r: bool)
        requires
            forall|i: int|
                0 <= i < self.spec_tokens().len() ==> predicate.requires(
                    (&#[trigger] self.spec_tokens()[i].0,),
                ),
        ensures
            r ==> exists|k: int|
                0 <= k < self.spec_tokens().len() && predicate.ensures(
                    (&#[trigger] self.spec_tokens()[k].0,),
                    true,
                ),
            !r ==> forall|j: int|
                0 <= j < self.spec_tokens().len() ==> predicate.ensures(
                    (&#[trigger] self.spec_tokens()[j].0,),
                    false,
                ),
    {
        let mut i: usize = 0;
        while i < self.tokens.len()
            invariant
                i <= self.tokens@.len(),
                forall|j: int|
                    0 <= j < self.spec_tokens().len() ==> predicate.requires(
                        (&#[trigger] self.spec_tokens()[j].0,),
                    ),
                forall|j: int|
                    0 <= j < i ==> predicate.ensures((&#[trigger] self.spec_tokens()[j].0,), false),
            decreases self.tokens@.len() - i,
        {
            proof {
                assert(predicate.requires((&self.spec_tokens()[i as int].0,)));
            }
            let hit = predicate(&self.tokens[i].0);
            if hit {
                proof {
                    assert(predicate.ensures((&self.spec_tokens()[i as int].0,), true));
                }
                return true;
            }
            i = i + 1;
        }
        false
    }
}

/// The document of a parsed sample.
#[derive(Debug)]
pub struct ParsedElement {
    source_type: SourceType,
    doc: Document,
}

impl ParsedElement {
    /// The parsed document of a sample from the given source.
    pub fn new(source_type: SourceType, doc: Document) -> (r: ParsedElement)
        ensures
            r.spec_document() == doc,
            r.spec_source() == source_type,
    {
        ParsedElement { source_type, doc }
    }

    /// The document.
    pub closed spec fn spec_document(&self) -> Document {
        self.doc
    }

    /// Where the sample came from.
    pub closed spec fn spec_source(&self) -> SourceType {
        self.source_type
    }

    /// The document.
    pub fn document(&self) -> (r: &Document)
        ensures
            *r == self.spec_document(),
    {
        &self.doc
    }

    /// The first top-level paragraph (see `get_first_paragraph`).
    pub fn first_paragraph(&self) -> (r: Option<&Paragraph>)
        ensures
            match r {
                None => forall|i: int|
                    0 <= i < self.spec_document().root.children@.len() ==> !(
                    #[trigger] self.spec_document().root.children@[i] is Paragraph),
                Some(p) => exists|k: int|
                    0 <= k < self.spec_document().root.children@.len()
                        && self.spec_document().root.children@[k] == ContentItem::Paragraph(*p)
                        && forall|i: int|
                        0 <= i < k ==> !(#[trigger] self.spec_document().root.children@[i] is Paragraph),
            },
    {
        get_first_paragraph(&self.doc)
    }

    /// The first top-level session (see `get_first_session`).
    pub fn first_session(&self) -> (r: Option<&Session>)
        ensures
            match r {
                None => forall|i: int|
                    0 <= i < self.spec_document().root.children@.len() ==> !(
                    #[trigger] self.spec_document().root.children@[i] is Session),
                Some(p) => exists|k: int|
                    0 <= k < self.spec_document().root.children@.len()
                        && self.spec_document().root.children@[k] == ContentItem::Session(*p)
                        && forall|i: int|
                        0 <= i < k ==> !(#[trigger] self.spec_document().root.children@[i] is Session),
            },
    {
        get_first_session(&self.doc)
    }

    /// The first top-level list (see `get_first_list`).
    pub fn first_list(&self) -> (r: Option<&List>)
        ensures
            match r {
                None => forall|i: int|
                    0 <= i < self.spec_document().root.children@.len() ==> !(
                    #[trigger] self.spec_document().root.children@[i] is List),
                Some(p) => exists|k: int|
                    0 <= k < self.spec_document().root.children@.len()
                        && self.spec_document().root.children@[k] == ContentItem::List(*p)
                        && forall|i: int|
                        0 <= i < k ==> !(#[trigger] self.spec_document().root.children@[i] is List),
            },
    {
        get_first_list(&self.doc)
    }

    /// The first top-level definition (see `get_first_definition`).
    pub fn first_definition(&self) -> (r: Option<&Definition>)
        ensures
            match r {
                None => forall|i: int|
                    0 <= i < self.spec_document().root.children@.len() ==> !(
                    #[trigger] self.spec_document().root.children@[i] is Definition),
                Some(p) => exists|k: int|
                    0 <= k < self.spec_document().root.children@.len()
                        && self.spec_document().root.children@[k] == ContentItem::Definition(*p)
                        && forall|i: int|
                        0 <= i < k ==> !(
                        #[trigger] self.spec_document().root.children@[i] is Definition),
            },
    {
        get_first_definition(&self.doc)
    }

    /// The first top-level annotation (see `get_first_annotation`).
    pub fn first_annotation(&self) -> (r: Option<&Annotation>)
        ensures
            match r {
                None => forall|i: int|
                    0 <= i < self.spec_document().root.children@.len() ==> !(
                    #[trigger] self.spec_document().root.children@[i] is Annotation),
                Some(p) => exists|k: int|
                    0 <= k < self.spec_document().root.children@.len()
                        && self.spec_document().root.children@[k] == ContentItem::Annotation(*p)
                        && forall|i: int|
                        0 <= i < k ==> !(
                        #[trigger] self.spec_document().root.children@[i] is Annotation),
            },
    {
        get_first_annotation(&self.doc)
    }

    /// The first top-level verbatim block (see `get_first_verbatim`).
    pub fn first_verbatim(&self) -> (r: Option<&Verbatim>)
        ensures
            match r {
                None => forall|i: int|
                    0 <= i < self.spec_document().root.children@.len() ==> !(
                    #[trigger] self.spec_document().root.children@[i] is VerbatimBlock),
                Some(p) => exists|k: int|
                    0 <= k < self.spec_document().root.children@.len()
                        && self.spec_document().root.children@[k] == ContentItem::VerbatimBlock(*p)
                        && forall|i: int|
                        0 <= i < k ==> !(
                        #[trigger] self.spec_document().root.children@[i] is VerbatimBlock),
            },
    {
        get_first_verbatim(&self.doc)
    }

    /// The first top-level paragraph, which must exist.
    pub fn expect_paragraph(&self) -> (r: &Paragraph)
        requires
            exists|i: int|
                0 <= i < self.spec_document().root.children@.len()
                    && #[trigger] self.spec_document().root.children@[i] is Paragraph,
        ensures
            exists|k: int|
                0 <= k < self.spec_document().root.children@.len()
                    && self.spec_document().root.children@[k] == ContentItem::Paragraph(*r)
                    && forall|i: int|
                    0 <= i < k ==> !(#[trigger] self.spec_document().root.children@[i] is Paragraph),
    {
        match self.first_paragraph() {
            Some(p) => p,
            None => vstd::pervasive::unreached(),
        }
    }

    /// The first top-level session, which must exist.
    pub fn expect_session(&self) -> (r: &Session)
        requires
            exists|i: int|
                0 <= i < self.spec_document().root.children@.len()
                    && #[trigger] self.spec_document().root.children@[i] is Session,
        ensures
            exists|k: int|
                0 <= k < self.spec_document().root.children@.len()
                    && self.spec_document().root.children@[k] == ContentItem::Session(*r)
                    && forall|i: int|
                    0 <= i < k ==> !(#[trigger] self.spec_document().root.children@[i] is Session),
    {
        match self.first_session() {
            Some(p) => p,
            None => vstd::pervasive::unreached(),
        }
    }

    /// The first top-level list, which must exist.
    pub fn expect_list(&self) -> (r: &List)
        requires
            exists|i: int|
                0 <= i < self.spec_document().root.children@.len()
                    && #[trigger] self.spec_document().root.children@[i] is List,
        ensures
            exists|k: int|
                0 <= k < self.spec_document().root.children@.len()
                    && self.spec_document().root.children@[k] == ContentItem::List(*r)
                    && forall|i: int|
                    0 <= i < k ==> !(#[trigger] self.spec_document().root.children@[i] is List),
    {
        match self.first_list() {
            Some(p) => p,
            None => vstd::pervasive::unreached(),
        }
    }

    /// The first top-level definition, which must exist.
    pub fn expect_definition(&self) -> (r: &Definition)
        requires
            exists|i: int|
                0 <= i < self.spec_document().root.children@.len()
                    && #[trigger] self.spec_document().root.children@[i] is Definition,
        ensures
            exists|k: int|
                0 <= k < self.spec_document().root.children@.len()
                    && self.spec_document().root.children@[k] == ContentItem::Definition(*r)
                    && forall|i: int|
                    0 <= i < k ==> !(#[trigger] self.spec_document().root.children@[i] is Definition),
    {
        match self.first_definition() {
            Some(p) => p,
            None => vstd::pervasive::unreached(),
        }
    }

    /// The first top-level annotation, which must exist.
    pub fn expect_annotation(&self) -> (r: &Annotation)
        requires
            exists|i: int|
                0 <= i < self.spec_document().root.children@.len()
                    && #[trigger] self.spec_document().root.children@[i] is Annotation,
        ensures
            exists|k: int|
                0 <= k < self.spec_document().root.children@.len()
                    && self.spec_document().root.children@[k] == ContentItem::Annotation(*r)
                    && forall|i: int|
                    0 <= i < k ==> !(#[trigger] self.spec_document().root.children@[i] is Annotation),
    {
        match self.first_annotation() {
            Some(p) => p,
            None => vstd::pervasive::unreached(),
        }
    }

    /// The first top-level verbatim block, which must exist.
    pub fn expect_verbatim(&self) -> (r: &Verbatim)
        requires
            exists|i: int|
                0 <= i < self.spec_document().root.children@.len()
                    && #[trigger] self.spec_document().root.children@[i] is VerbatimBlock,
        ensures
            exists|k: int|
                0 <= k < self.spec_document().root.children@.len()
                    && self.spec_document().root.children@[k] == ContentItem::VerbatimBlock(*r)
                    && forall|i: int|
                    0 <= i < k ==> !(
                    #[trigger] self.spec_document().root.children@[i] is VerbatimBlock),
    {
        match self.first_verbatim() {
            Some(p) => p,
            None => vstd::pervasive::unreached(),
        }
    }
}

} // verus!
