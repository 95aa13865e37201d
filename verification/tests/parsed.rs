use lex_parser::adapters::{adapt_reference_parser, flat_to_token_stream};
use lex_parser::harness::ElementType;
use lex_parser::parsed::{ParsedElement, ParsedTokens, SourceType};
use lex_parser::tokens::Token;

fn paragraph_tokens() -> Vec<(Token, std::ops::Range<usize>)> {
    // "Hello world\n"
    vec![
        (Token::Text("Hello".to_string()), 0..5),
        (Token::Whitespace, 5..6),
        (Token::Text("world".to_string()), 6..11),
        (Token::Newline, 11..12),
    ]
}

#[test]
fn parsed_tokens_inspection() {
    let parsed = ParsedTokens::new(SourceType::Element(ElementType::Paragraph), paragraph_tokens());
    assert!(!parsed.is_empty());
    assert_eq!(parsed.len(), 4);
    assert_eq!(parsed.tokens().len(), 4);
    assert_eq!(
        parsed.find_token(|t| matches!(t, Token::Text(_))),
        Some(&Token::Text("Hello".to_string()))
    );
    assert_eq!(parsed.find_token(|t| matches!(t, Token::Colon)), None);
    assert_eq!(parsed.count_tokens(|t| matches!(t, Token::Text(_))), 2);
    assert_eq!(parsed.count_tokens(|t| matches!(t, Token::Colon)), 0);
    assert!(parsed.has_token(|t| matches!(t, Token::Newline)));
    assert!(!parsed.has_token(|t| matches!(t, Token::LexMarker)));
    let empty = ParsedTokens::new(SourceType::Path("empty.lex".to_string()), vec![]);
    assert!(empty.is_empty());
}

#[test]
fn parsed_element_first_and_expect() {
    let tokens = vec![
        (Token::Text("Hello".to_string()), 0..5),
        (Token::Whitespace, 5..6),
        (Token::Text("world".to_string()), 6..11),
        (Token::BlankLine(vec![(Token::Newline, 11..12)]), 11..12),
    ];
    let doc = adapt_reference_parser(flat_to_token_stream(tokens), "Hello world\n").unwrap();
    let parsed = ParsedElement::new(SourceType::Element(ElementType::Paragraph), doc);
    assert_eq!(parsed.document().root.children.len(), 1);
    assert!(parsed.first_paragraph().is_some());
    assert!(parsed.first_session().is_none());
    assert!(parsed.first_list().is_none());
    assert!(parsed.first_definition().is_none());
    assert!(parsed.first_annotation().is_none());
    assert!(parsed.first_verbatim().is_none());
    assert_eq!(parsed.expect_paragraph().lines.len(), 1);
}
