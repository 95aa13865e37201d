use lex_parser::adapters::adapt_reference_parser;
use lex_parser::ast::Document;
use lex_parser::parser::{ParseError, Parser, ParserInput};
use lex_parser::tokens::Token;

struct ReferenceParser;

impl Parser for ReferenceParser {
    fn parse(&self, input: ParserInput, source: &str) -> Result<Document, ParseError> {
        adapt_reference_parser(input, source).map_err(|e| ParseError::Error(e.message()))
    }
}

#[test]
fn parse_error_message_names_the_failure() {
    let e = ParseError::Error("bad token".to_string());
    assert_eq!(e.message(), "Parse error: bad token");
}

#[test]
fn a_parser_implementation_parses_a_stream() {
    let tokens = vec![
        (Token::Text("Hello".to_string()), 0..5),
        (Token::BlankLine(vec![(Token::Newline, 5..6)]), 5..6),
    ];
    let stream = lex_parser::stream::TokenStream::Flat(tokens);
    let doc = ReferenceParser.parse(stream, "Hello\n").unwrap();
    assert_eq!(doc.root.children.len(), 1);
}
