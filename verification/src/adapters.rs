//! Conversions between flat token vectors and `TokenStream`.

use crate::ast::Document;
use crate::ir::{pnodes_model, tree_value, NodeType, ParseNode};
use crate::ir_to_ast::{all_built, check_nodes, nodes_ok, AstBuilder};
use crate::reference::{lemma_document_buildable, lemma_values_buildable, one_subject, parse, spec_document};
use crate::ir_to_ast::pairs_ok;
use crate::stream::{stream_tokens, TokenStream};
use crate::text::utf8;
use crate::tokens::Token;
use std::ops::Range;
use vstd::prelude::*;

verus! {

/// Why an adapter refused its input.
#[derive(Debug, Clone, PartialEq)]
pub enum AdapterError {
    /// A tree stream was given where a flat one was expected.
    ExpectedFlat,
    /// A flat stream was given where a tree was expected.
    ExpectedTree,
    /// Any other failure, with its message.
    Error(String),
}

impl AdapterError {
    /// The human-readable description of the error.
    pub fn message(&self) -> (r: String)
        ensures
            self is ExpectedFlat ==> r@ == "Expected TokenStream::Flat, but found TokenStream::Tree"@,
            self is ExpectedTree ==> r@ == "Expected TokenStream::Tree, but found TokenStream::Flat"@,
            self is Error ==> r@ == "Adapter error: "@ + self->Error_0@,
    {
        match self {
            AdapterError::ExpectedFlat => {
                "Expected TokenStream::Flat, but found TokenStream::Tree".to_owned()
            },
            AdapterError::ExpectedTree => {
                "Expected TokenStream::Tree, but found TokenStream::Flat".to_owned()
            },
            AdapterError::Error(msg) => {
                let mut s = "Adapter error: ".to_owned();
                s.append(msg.as_str());
                s
            },
        }
    }
}

/// Wrap a flat vector of pairs as a flat stream.
pub fn flat_to_token_stream(tokens: Vec<(Token, Range<usize>)>) -> (r: TokenStream)
    ensures
        r is Flat,
        r->Flat_0@ == tokens@,
{
    TokenStream::Flat(tokens)
}

/// The pairs of a flat stream; a tree stream is refused with `ExpectedFlat`.
pub fn token_stream_to_flat(stream: TokenStream) -> (r: Result<
    Vec<(Token, Range<usize>)>,
    AdapterError,
>)
    ensures
        stream is Flat <==> r is Ok,
        stream is Flat ==> r->Ok_0@ == stream->Flat_0@,
        stream is Tree ==> r == Err::<Vec<(Token, Range<usize>)>, AdapterError>(
            AdapterError::ExpectedFlat,
        ),
{
    match stream {
        TokenStream::Flat(tokens) => Ok(tokens),
        TokenStream::Tree(_) => Err(AdapterError::ExpectedFlat),
    }
}

/// All pairs of any stream, in document order.
pub fn flatten_token_stream(stream: TokenStream) -> (r: Vec<(Token, Range<usize>)>)
    ensures
        r@ == stream_tokens(stream),
{
    stream.unroll()
}

/// Wrapping a flat vector and taking it back out again gives the same pairs.
pub proof fn lemma_flat_round_trip(tokens: Seq<(Token, Range<usize>)>, stream: TokenStream)
    requires
        stream is Flat,
        stream->Flat_0@ == tokens,
    ensures
        stream_tokens(stream) == tokens,
{
}

/// The pairs tile the source: their byte ranges follow each other without
/// gap or overlap from the start of the source to its end (no pairs for an
/// empty source). This is how a tokenization of the source lies on it.
pub open spec fn tiles_source(source: Seq<char>, s: Seq<(Token, Range<usize>)>) -> bool {
    &&& s.len() == 0 ==> utf8(source).len() == 0
    &&& s.len() > 0 ==> {
        &&& s[0].1.start == 0
        &&& s[s.len() - 1].1.end == utf8(source).len()
        &&& forall|i: int| 0 <= i < s.len() - 1 ==> (#[trigger] s[i]).1.end == s[i + 1].1.start
    }
}

/// Parse a flat token stream with the reference parser and build the
/// document from its tree. A nested stream is refused with `ExpectedFlat`.
/// The stream stands for the tokenization of `source`: the tokens are parsed
/// (tokenizing the source is the lexer's work, a separate stage), so a flat
/// stream must tile the source.
/// The result is an `Error` where the parser finds no content, or where the
/// tree holds what the AST builder cannot build (a token range outside the
/// source, a verbatim block with more than one subject). A stream that the
/// parser accepts, whose token ranges lie in the source and whose verbatim
/// blocks have one subject each, is always built.
pub fn adapt_reference_parser(stream: TokenStream, source: &str) -> (r: Result<Document, AdapterError>)
    requires
        stream is Flat ==> tiles_source(source@, stream->Flat_0@),
    ensures
        stream is Flat && pairs_ok(source@, stream->Flat_0@) && spec_document(stream->Flat_0@) is Some
            && one_subject(spec_document(stream->Flat_0@)->0) ==> r is Ok,
        stream is Tree ==> r == Err::<Document, AdapterError>(AdapterError::ExpectedFlat),
        stream is Flat ==> match spec_document(stream->Flat_0@) {
            None => r is Err && r->Err_0 is Error && r->Err_0->Error_0@
                == "Parsing failed: no content item at the start of the token stream"@,
            Some(d) => exists|t: ParseNode|
                #![trigger tree_value(t)]
                tree_value(t) == d && if nodes_ok(pnodes_model(t.children@), source@) {
                    &&& r is Ok
                    &&& r->Ok_0.metadata@.len() == 0
                    &&& r->Ok_0.root.title.text@ == Seq::<char>::empty()
                    &&& all_built(r->Ok_0.root.children@, pnodes_model(t.children@), source@)
                } else {
                    r is Err && r->Err_0 is Error && r->Err_0->Error_0@
                        == "Parsing failed: the parse tree cannot be built into a document"@
                },
        },
{
    let tokens = match token_stream_to_flat(stream) {
        Ok(t) => t,
        Err(e) => {
            return Err(e);
        },
    };
    let tree = match parse(tokens, source) {
        Ok(t) => t,
        Err(e) => {
            let mut m = "Parsing failed: ".to_owned();
            m.append(e.message.as_str());
            proof {
                reveal_strlit("Parsing failed: ");
                reveal_strlit("no content item at the start of the token stream");
                reveal_strlit("Parsing failed: no content item at the start of the token stream");
                assert(m@ =~= "Parsing failed: no content item at the start of the token stream"@);
            }
            return Err(AdapterError::Error(m));
        },
    };
    let ghost t0 = tree;
    proof {
        let s0 = stream->Flat_0@;
        if pairs_ok(source@, s0) && one_subject(spec_document(s0)->0) {
            lemma_document_buildable(s0, source@);
            assert(tree_value(t0).children == crate::ir::trees_value(t0.children@));
            lemma_values_buildable(t0.children@, source@);
        }
    }
    if !check_nodes(&tree.children, source) {
        return Err(
            AdapterError::Error("Parsing failed: the parse tree cannot be built into a document".to_owned()),
        );
    }
    proof {
        assert(tree_value(t0) == spec_document(stream->Flat_0@)->0);
        assert(tree.node_type == NodeType::Document);
    }
    Ok(AstBuilder::new(source).build(tree))
}

} // verus!
