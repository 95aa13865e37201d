use lex_parser::mapper::StreamMapper;
use lex_parser::stream::TokenStream;
use lex_parser::to_line_tokens::{classify_line_tokens, ToLineTokensMapper};
use lex_parser::tokens::{LineType, Token};
use std::ops::Range as ByteRange;

// Test helper: Convert Vec<Token> to Vec<(Token, Range)> with dummy spans
fn with_dummy_spans(tokens: Vec<Token>) -> Vec<(Token, ByteRange<usize>)> {
    tokens
        .into_iter()
        .enumerate()
        .map(|(i, t)| (t, i..i + 1))
        .collect()
}

#[test]
fn test_blank_line_classification() {
    let tokens = vec![Token::Whitespace, Token::Newline];
    let line = classify_line_tokens(&tokens);
    assert_eq!(line, LineType::BlankLine);
}

#[test]
fn test_annotation_start_line_classification() {
    let tokens = vec![
        Token::LexMarker,
        Token::Whitespace,
        Token::Text("note".to_string()),
        Token::Whitespace,
        Token::LexMarker,
        Token::Newline,
    ];
    let line = classify_line_tokens(&tokens);
    assert_eq!(line, LineType::AnnotationStartLine);
}

#[test]
fn test_annotation_end_line_classification() {
    let tokens = vec![Token::LexMarker, Token::Newline];
    let line = classify_line_tokens(&tokens);
    assert_eq!(line, LineType::AnnotationEndLine);
}

#[test]
fn test_annotation_end_line_with_whitespace() {
    let tokens = vec![
        Token::Whitespace,
        Token::LexMarker,
        Token::Whitespace,
        Token::Newline,
    ];
    let line = classify_line_tokens(&tokens);
    assert_eq!(line, LineType::AnnotationEndLine);
}

#[test]
fn test_subject_line_classification() {
    let tokens = vec![
        Token::Text("Title".to_string()),
        Token::Colon,
        Token::Newline,
    ];
    let line = classify_line_tokens(&tokens);
    assert_eq!(line, LineType::SubjectLine);
}

#[test]
fn test_subject_line_with_spaces() {
    let tokens = vec![
        Token::Text("Title".to_string()),
        Token::Whitespace,
        Token::Text("with".to_string()),
        Token::Whitespace,
        Token::Text("spaces".to_string()),
        Token::Colon,
        Token::Whitespace,
        Token::Newline,
    ];
    let line = classify_line_tokens(&tokens);
    assert_eq!(line, LineType::SubjectLine);
}

#[test]
fn test_list_line_dash_marker() {
    let tokens = vec![
        Token::Dash,
        Token::Whitespace,
        Token::Text("Item".to_string()),
        Token::Newline,
    ];
    let line = classify_line_tokens(&tokens);
    assert_eq!(line, LineType::ListLine);
}

#[test]
fn test_list_line_number_marker() {
    let tokens = vec![
        Token::Number("1".to_string()),
        Token::Period,
        Token::Whitespace,
        Token::Text("First".to_string()),
        Token::Newline,
    ];
    let line = classify_line_tokens(&tokens);
    assert_eq!(line, LineType::ListLine);
}

#[test]
fn test_list_line_paren_marker() {
    let tokens = vec![
        Token::Number("1".to_string()),
        Token::CloseParen,
        Token::Whitespace,
        Token::Text("First".to_string()),
        Token::Newline,
    ];
    let line = classify_line_tokens(&tokens);
    assert_eq!(line, LineType::ListLine);
}

#[test]
fn test_list_line_with_indentation() {
    let tokens = vec![
        Token::Indentation,
        Token::Dash,
        Token::Whitespace,
        Token::Text("Item".to_string()),
        Token::Newline,
    ];
    let line = classify_line_tokens(&tokens);
    assert_eq!(line, LineType::ListLine);
}

#[test]
fn test_list_line_letter_marker() {
    let tokens = vec![
        Token::Text("a".to_string()),
        Token::Period,
        Token::Whitespace,
        Token::Text("First".to_string()),
        Token::Newline,
    ];
    let line = classify_line_tokens(&tokens);
    assert_eq!(line, LineType::ListLine);
}

#[test]
fn test_list_line_letter_marker_uppercase() {
    let tokens = vec![
        Token::Text("A".to_string()),
        Token::CloseParen,
        Token::Whitespace,
        Token::Text("Item".to_string()),
        Token::Newline,
    ];
    let line = classify_line_tokens(&tokens);
    assert_eq!(line, LineType::ListLine);
}

#[test]
fn test_list_line_roman_numeral_marker() {
    let tokens = vec![
        Token::Text("I".to_string()),
        Token::Period,
        Token::Whitespace,
        Token::Text("First".to_string()),
        Token::Newline,
    ];
    let line = classify_line_tokens(&tokens);
    assert_eq!(line, LineType::ListLine);
}

#[test]
fn test_list_line_roman_numeral_multi_char() {
    let tokens = vec![
        Token::Text("III".to_string()),
        Token::CloseParen,
        Token::Whitespace,
        Token::Text("Third".to_string()),
        Token::Newline,
    ];
    let line = classify_line_tokens(&tokens);
    assert_eq!(line, LineType::ListLine);
}

#[test]
fn test_paragraph_line() {
    let tokens = vec![
        Token::Text("Just".to_string()),
        Token::Whitespace,
        Token::Text("some".to_string()),
        Token::Whitespace,
        Token::Text("text".to_string()),
        Token::Newline,
    ];
    let line = classify_line_tokens(&tokens);
    assert_eq!(line, LineType::ParagraphLine);
}

#[test]
fn test_transform_preserves_source_tokens() {
    // Create realistic tokens with actual source tokens like production code does
    let tokens = vec![
        (Token::Text("Title".to_string()), 0..5),
        (Token::Colon, 5..6),
        (Token::Newline, 6..7),
        // Indent with real source token (like sem_indentation creates)
        (Token::Indent(vec![(Token::Indentation, 7..11)]), 0..0),
        (Token::Text("Content".to_string()), 11..18),
        (Token::Newline, 18..19),
    ];

    let mut mapper = ToLineTokensMapper::new();
    let result = mapper.map_flat(tokens).unwrap();

    match result {
        TokenStream::Tree(nodes) => {
            assert_eq!(nodes.len(), 3);

            // First line: subject line with source tokens preserved
            assert_eq!(nodes[0].line_type, Some(LineType::SubjectLine));
            assert_eq!(nodes[0].tokens.len(), 3);
            assert!(matches!(nodes[0].tokens[0].0, Token::Text(_)));
            assert!(matches!(nodes[0].tokens[1].0, Token::Colon));
            assert!(matches!(nodes[0].tokens[2].0, Token::Newline));

            // Second: Indent extracts its source token (Token::Indentation)
            assert_eq!(nodes[1].line_type, Some(LineType::Indent));
            assert_eq!(nodes[1].tokens.len(), 1);
            assert!(matches!(nodes[1].tokens[0].0, Token::Indentation));
            assert_eq!(nodes[1].tokens[0].1, 7..11);

            // Third: paragraph line
            assert_eq!(nodes[2].line_type, Some(LineType::ParagraphLine));
            assert_eq!(nodes[2].tokens.len(), 2);
            assert!(matches!(nodes[2].tokens[0].0, Token::Text(_)));
            assert!(matches!(nodes[2].tokens[1].0, Token::Newline));
        }
        _ => panic!("Expected Tree stream"),
    }
}

#[test]
fn test_transform_multiple_lines() {
    let tokens = vec![
        Token::Text("Para".to_string()),
        Token::Newline,
        Token::Whitespace,
        Token::Newline,
        Token::Dash,
        Token::Whitespace,
        Token::Text("Item".to_string()),
        Token::Newline,
    ];

    let mut mapper = ToLineTokensMapper::new();
    let result = mapper.map_flat(with_dummy_spans(tokens)).unwrap();

    match result {
        TokenStream::Tree(nodes) => {
            // Should produce: paragraph, blank line, list line
            assert_eq!(nodes.len(), 3);
            assert_eq!(nodes[0].line_type, Some(LineType::ParagraphLine));
            assert_eq!(nodes[1].line_type, Some(LineType::BlankLine));
            assert_eq!(nodes[2].line_type, Some(LineType::ListLine));
        }
        _ => panic!("Expected Tree stream"),
    }
}

#[test]
fn test_subject_or_list_item_line() {
    // A line that is both list marker AND ends with colon
    // e.g., "1. This is great, see:"
    let tokens = vec![
        Token::Number("1".to_string()),
        Token::Period,
        Token::Whitespace,
        Token::Text("This".to_string()),
        Token::Whitespace,
        Token::Text("is".to_string()),
        Token::Whitespace,
        Token::Text("great".to_string()),
        Token::Colon,
        Token::Newline,
    ];

    let line = classify_line_tokens(&tokens);
    // Should be classified as SubjectOrListItemLine
    assert_eq!(line, LineType::SubjectOrListItemLine);
}

#[test]
fn test_colon_in_middle_is_not_subject_line() {
    let tokens = vec![
        Token::Text("Some".to_string()),
        Token::Colon,
        Token::Text("text".to_string()),
        Token::Newline,
    ];
    let line = classify_line_tokens(&tokens);
    // Colon is not at end, so not a subject line
    assert_eq!(line, LineType::ParagraphLine);
}

#[test]
fn test_annotation_start_and_subject_line_precedence() {
    // A line that looks like both annotation (has ::) and subject (ends with :)
    // Annotation check comes BEFORE subject check, so AnnotationStartLine should win
    let tokens = vec![
        Token::LexMarker,
        Token::Whitespace,
        Token::Text("note".to_string()),
        Token::Whitespace,
        Token::LexMarker,
        Token::Whitespace,
        Token::Text("description".to_string()),
        Token::Colon,
        Token::Newline,
    ];

    let line = classify_line_tokens(&tokens);
    // ANNOTATION_START_LINE takes precedence (checked before SUBJECT_LINE)
    assert_eq!(line, LineType::AnnotationStartLine);
}

#[test]
fn test_mapper_produces_shallow_tree() {
    // Verify that all nodes have children: None (shallow tree)
    let tokens = vec![
        (Token::Text("Line1".to_string()), 0..5),
        (Token::Newline, 5..6),
        (Token::Text("Line2".to_string()), 6..11),
        (Token::Newline, 11..12),
    ];

    let mut mapper = ToLineTokensMapper::new();
    let result = mapper.map_flat(tokens).unwrap();

    match result {
        TokenStream::Tree(nodes) => {
            assert_eq!(nodes.len(), 2);
            // All nodes should have no children (shallow tree)
            for node in &nodes {
                assert!(node.children.is_none());
            }
        }
        _ => panic!("Expected Tree stream"),
    }
}

#[test]
fn to_line_tokens_test_preserves_token_ranges() {
    // Verify that byte ranges are preserved exactly
    let tokens = vec![
        (Token::Text("hello".to_string()), 0..5),
        (Token::Whitespace, 5..6),
        (Token::Text("world".to_string()), 6..11),
        (Token::Newline, 11..12),
    ];

    let mut mapper = ToLineTokensMapper::new();
    let result = mapper.map_flat(tokens).unwrap();

    match result {
        TokenStream::Tree(nodes) => {
            assert_eq!(nodes.len(), 1);
            let node = &nodes[0];
            // Verify each range is preserved exactly
            assert_eq!(node.tokens[0].1, 0..5);
            assert_eq!(node.tokens[1].1, 5..6);
            assert_eq!(node.tokens[2].1, 6..11);
            assert_eq!(node.tokens[3].1, 11..12);
        }
        _ => panic!("Expected Tree stream"),
    }
}
