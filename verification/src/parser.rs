//! The interface shared by parser implementations: a parser turns a token
//! stream and its source text into a document, or fails with an error.

use crate::ast::Document;
use crate::stream::TokenStream;
use vstd::prelude::*;

verus! {

/// A failed parse.
#[derive(Debug, Clone)]
pub enum ParseError {
    /// Any failure, with its message.
    Error(String),
}

impl ParseError {
    /// The human-readable description of the error.
    pub fn message(&self) -> (r: String)
        ensures
            r@ == "Parse error: "@ + self->Error_0@,
    {
        match self {
            ParseError::Error(msg) => {
                let mut s = "Parse error: ".to_owned();
                s.append(msg.as_str());
                s
            },
        }
    }
}

/// What parsers take: a token stream.
pub type ParserInput = TokenStream;

/// A parser implementation.
pub trait Parser {
    /// Parse the input into a document.
    fn parse(&self, input: ParserInput, source: &str) -> Result<Document, ParseError>;
}

} // verus!
