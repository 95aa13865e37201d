use lex_parser::data_extraction::{calculate_indentation_wall, extract_foreign_block_data, extract_paragraph_data};
use lex_parser::tokens::Token;

#[test]
fn test_extract_paragraph_data() {
    let source = "hello world";
    let token_lines = vec![vec![(Token::Text("hello".to_string()), 0..5)]];

    let data = extract_paragraph_data(token_lines, source);

    assert_eq!(data.text_lines.len(), 1);
    assert_eq!(data.text_lines[0].0, "hello");
    assert_eq!(data.text_lines[0].1, 0..5);
    assert_eq!(data.overall_byte_range, 0..5);
}

#[test]
fn test_calculate_indentation_wall() {
    // Two lines, one with 1 indent, one with 2 indents -> wall is 1
    let lines = vec![
        vec![(Token::Indentation, 0..4), (Token::Text("a".into()), 4..5)],
        vec![
            (Token::Indentation, 0..4),
            (Token::Indentation, 4..8),
            (Token::Text("b".into()), 8..9),
        ],
    ];

    let wall = calculate_indentation_wall(&lines);
    assert_eq!(wall, 1);
}

#[test]
fn test_extract_foreign_block_data_strips_wall() {
    let source = "Code:\n    line1\n        line2";

    let subject_tokens = vec![(Token::Text("Code".to_string()), 0..4)];

    let content_lines = vec![
        vec![
            (Token::Indentation, 6..10),
            (Token::Text("line1".to_string()), 10..15),
        ],
        vec![
            (Token::Indentation, 16..20),
            (Token::Indentation, 20..24),
            (Token::Text("line2".to_string()), 24..29),
        ],
    ];

    let data = extract_foreign_block_data(subject_tokens, content_lines, source);

    assert_eq!(data.subject_text, "Code");
    // Wall of 1 indent should be stripped from both lines
    // So line1 has no indent, line2 has 1 indent left
    assert_eq!(data.content_text, "line1\n    line2");
}
