//! The parser choices of the document loader and the processing
//! configurations that run them.

use vstd::prelude::*;

verus! {

/// The parser used to parse or tokenize a document.
#[derive(Debug, Clone, Copy, PartialEq, Eq, Structural)]
pub enum Parser {
    Linebased,
}

impl Parser {
    /// The name of the configuration that parses with this parser.
    pub fn config_name(&self) -> (r: &'static str)
        ensures
            r@ == "linebased"@,
    {
        match self {
            Parser::Linebased => "linebased",
        }
    }

    /// The name of the configuration that tokenizes for this parser.
    pub fn token_config_name(&self) -> (r: &'static str)
        ensures
            r@ == "tokens-indentation"@,
    {
        match self {
            Parser::Linebased => "tokens-indentation",
        }
    }
}

} // verus!
