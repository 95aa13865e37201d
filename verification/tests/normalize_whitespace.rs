use lex_parser::mapper::StreamMapper;
use lex_parser::normalize_whitespace::NormalizeWhitespaceMapper;
use lex_parser::stream::TokenStream;
use lex_parser::tokens::Token;

#[test]
fn test_normalize_whitespace_with_indentation() {
    // Test: Indentation followed by whitespace followed by text
    // The whitespace should be removed
    let tokens = vec![
        (Token::Indentation, 0..4),
        (Token::Whitespace, 4..5),
        (Token::Text("hello".to_string()), 5..10),
    ];

    let mut mapper = NormalizeWhitespaceMapper::new();
    let result = mapper.map_flat(tokens).unwrap();

    match result {
        TokenStream::Flat(output) => {
            assert_eq!(output.len(), 2);
            assert!(matches!(output[0].0, Token::Indentation));
            assert!(matches!(output[1].0, Token::Text(_)));
            // Whitespace should be removed
        }
        _ => panic!("Expected Flat stream"),
    }
}

#[test]
fn test_normalize_whitespace_without_indentation() {
    // Test: Whitespace not preceded by indentation should be preserved
    let tokens = vec![
        (Token::Text("hello".to_string()), 0..5),
        (Token::Whitespace, 5..6),
        (Token::Text("world".to_string()), 6..11),
    ];

    let mut mapper = NormalizeWhitespaceMapper::new();
    let result = mapper.map_flat(tokens).unwrap();

    match result {
        TokenStream::Flat(output) => {
            assert_eq!(output.len(), 3);
            assert!(matches!(output[0].0, Token::Text(_)));
            assert!(matches!(output[1].0, Token::Whitespace));
            assert!(matches!(output[2].0, Token::Text(_)));
        }
        _ => panic!("Expected Flat stream"),
    }
}

#[test]
fn test_normalize_whitespace_multiple_indent_levels() {
    // Test: Multiple indentation tokens followed by whitespace and text
    let tokens = vec![
        (Token::Indentation, 0..4),
        (Token::Indentation, 4..8),
        (Token::Whitespace, 8..9),
        (Token::Text("nested".to_string()), 9..15),
    ];

    let mut mapper = NormalizeWhitespaceMapper::new();
    let result = mapper.map_flat(tokens).unwrap();

    match result {
        TokenStream::Flat(output) => {
            assert_eq!(output.len(), 3);
            assert!(matches!(output[0].0, Token::Indentation));
            assert!(matches!(output[1].0, Token::Indentation));
            assert!(matches!(output[2].0, Token::Text(_)));
            // Whitespace should be removed
        }
        _ => panic!("Expected Flat stream"),
    }
}

#[test]
fn test_normalize_whitespace_not_followed_by_text() {
    // Test: Indentation followed by whitespace NOT followed by text
    // The whitespace should be preserved
    let tokens = vec![
        (Token::Indentation, 0..4),
        (Token::Whitespace, 4..5),
        (Token::Newline, 5..6),
    ];

    let mut mapper = NormalizeWhitespaceMapper::new();
    let result = mapper.map_flat(tokens).unwrap();

    match result {
        TokenStream::Flat(output) => {
            assert_eq!(output.len(), 3);
            assert!(matches!(output[0].0, Token::Indentation));
            assert!(matches!(output[1].0, Token::Whitespace));
            assert!(matches!(output[2].0, Token::Newline));
        }
        _ => panic!("Expected Flat stream"),
    }
}

#[test]
fn test_normalize_whitespace_preserves_ranges() {
    // Test: Verify that byte ranges are preserved exactly
    let tokens = vec![
        (Token::Indentation, 0..4),
        (Token::Whitespace, 4..5),
        (Token::Text("test".to_string()), 5..9),
    ];

    let mut mapper = NormalizeWhitespaceMapper::new();
    let result = mapper.map_flat(tokens).unwrap();

    match result {
        TokenStream::Flat(output) => {
            assert_eq!(output[0].1, 0..4);
            assert_eq!(output[1].1, 5..9);
        }
        _ => panic!("Expected Flat stream"),
    }
}

#[test]
fn test_normalize_whitespace_empty_input() {
    let tokens = vec![];

    let mut mapper = NormalizeWhitespaceMapper::new();
    let result = mapper.map_flat(tokens).unwrap();

    match result {
        TokenStream::Flat(output) => {
            assert_eq!(output.len(), 0);
        }
        _ => panic!("Expected Flat stream"),
    }
}

#[test]
fn test_normalize_whitespace_no_whitespace_tokens() {
    // Test: No whitespace tokens to process
    let tokens = vec![
        (Token::Indentation, 0..4),
        (Token::Text("hello".to_string()), 4..9),
        (Token::Newline, 9..10),
    ];

    let mut mapper = NormalizeWhitespaceMapper::new();
    let result = mapper.map_flat(tokens).unwrap();

    match result {
        TokenStream::Flat(output) => {
            assert_eq!(output.len(), 3);
            assert!(matches!(output[0].0, Token::Indentation));
            assert!(matches!(output[1].0, Token::Text(_)));
            assert!(matches!(output[2].0, Token::Newline));
        }
        _ => panic!("Expected Flat stream"),
    }
}
