use lex_parser::ir::{NodeType, ParseNode};
use lex_parser::ir_to_ast::AstBuilder;
use lex_parser::reference::parse;
use lex_parser::adapters::{
    adapt_reference_parser, flat_to_token_stream, flatten_token_stream, token_stream_to_flat,
    AdapterError,
};
use lex_parser::stream::{TokenStream, TokenStreamNode};
use lex_parser::tokens::Token;

#[test]
fn test_flat_to_token_stream() {
    let tokens = vec![
        (Token::Text("hello".to_string()), 0..5),
        (Token::Whitespace, 5..6),
        (Token::Text("world".to_string()), 6..11),
    ];

    let stream = flat_to_token_stream(tokens.clone());

    match stream {
        TokenStream::Flat(result_tokens) => {
            assert_eq!(result_tokens, tokens);
        }
        _ => panic!("Expected TokenStream::Flat"),
    }
}

#[test]
fn test_flat_to_token_stream_empty() {
    let tokens = vec![];
    let stream = flat_to_token_stream(tokens);

    match stream {
        TokenStream::Flat(result_tokens) => {
            assert_eq!(result_tokens.len(), 0);
        }
        _ => panic!("Expected TokenStream::Flat"),
    }
}

#[test]
fn test_token_stream_to_flat() {
    let tokens = vec![
        (Token::Text("hello".to_string()), 0..5),
        (Token::Whitespace, 5..6),
    ];

    let stream = TokenStream::Flat(tokens.clone());
    let result = token_stream_to_flat(stream).unwrap();

    assert_eq!(result, tokens);
}

#[test]
fn test_token_stream_to_flat_empty() {
    let stream = TokenStream::Flat(vec![]);
    let result = token_stream_to_flat(stream).unwrap();

    assert_eq!(result.len(), 0);
}

#[test]
fn test_token_stream_to_flat_rejects_tree() {

    let node = TokenStreamNode {
        tokens: vec![(Token::Text("test".to_string()), 0..4)],
        children: None,
        line_type: None,
    };
    let stream = TokenStream::Tree(vec![node]);

    let result = token_stream_to_flat(stream);

    assert!(result.is_err());
    assert_eq!(result.unwrap_err(), AdapterError::ExpectedFlat);
}

#[test]
fn test_round_trip_flat() {
    let original = vec![
        (Token::Text("hello".to_string()), 0..5),
        (Token::Whitespace, 5..6),
        (Token::Text("world".to_string()), 6..11),
        (Token::Newline, 11..12),
    ];

    // Convert to stream
    let stream = flat_to_token_stream(original.clone());

    // Convert back to flat
    let result = token_stream_to_flat(stream).unwrap();

    assert_eq!(result, original);
}

#[test]
fn test_round_trip_preserves_ranges() {
    let original = vec![
        (Token::Text("hello".to_string()), 0..5),
        (Token::Whitespace, 5..6),
        (Token::Text("world".to_string()), 6..11),
    ];

    let stream = flat_to_token_stream(original.clone());
    let result = token_stream_to_flat(stream).unwrap();

    // Verify ranges are preserved exactly
    assert_eq!(result[0].1, 0..5);
    assert_eq!(result[1].1, 5..6);
    assert_eq!(result[2].1, 6..11);
}

#[test]
fn test_round_trip_preserves_token_types() {
    let original = vec![
        (Token::Text("test".to_string()), 0..4),
        (Token::Newline, 4..5),
        (Token::Whitespace, 5..6),
        (Token::Dash, 6..7),
        (Token::Colon, 7..8),
    ];

    let stream = flat_to_token_stream(original.clone());
    let result = token_stream_to_flat(stream).unwrap();

    // Verify all token types preserved
    assert_eq!(result.len(), original.len());
    for (orig, res) in original.iter().zip(result.iter()) {
        assert_eq!(orig.0, res.0);
    }
}

#[test]
fn test_adapter_with_synthetic_tokens() {
    // Test with tokens that have embedded source tokens (like Indent, Dedent, BlankLine)
    let original = vec![
        (Token::Text("hello".to_string()), 0..5),
        (Token::Newline, 5..6),
        (
            Token::Indent(vec![(Token::Indentation, 6..10)]),
            0..0, // Placeholder span
        ),
        (Token::Text("indented".to_string()), 10..18),
        (Token::Newline, 18..19),
        (
            Token::Dedent(vec![]), // No source tokens
            0..0,                  // Placeholder span
        ),
    ];

    let stream = flat_to_token_stream(original.clone());
    let result = token_stream_to_flat(stream).unwrap();

    assert_eq!(result, original);
}

#[test]
fn test_adapter_with_blank_line_tokens() {
    let original = vec![
        (Token::Text("line1".to_string()), 0..5),
        (Token::Newline, 5..6),
        (
            Token::BlankLine(vec![(Token::Newline, 6..7)]),
            0..0, // Placeholder span
        ),
        (Token::Text("line2".to_string()), 7..12),
    ];

    let stream = flat_to_token_stream(original.clone());
    let result = token_stream_to_flat(stream).unwrap();

    assert_eq!(result, original);
}

#[test]
fn test_multiple_round_trips() {
    // Verify that multiple conversions don't corrupt data
    let original = vec![
        (Token::Text("test".to_string()), 0..4),
        (Token::Whitespace, 4..5),
    ];

    let mut current = original.clone();

    // Do 5 round trips
    for _ in 0..5 {
        let stream = flat_to_token_stream(current.clone());
        current = token_stream_to_flat(stream).unwrap();
    }

    assert_eq!(current, original);
}

#[test]
fn test_flatten_token_stream_with_flat() {
    // flatten_token_stream should work with Flat variant
    let tokens = vec![
        (Token::Text("hello".to_string()), 0..5),
        (Token::Whitespace, 5..6),
    ];

    let stream = TokenStream::Flat(tokens.clone());
    let result = flatten_token_stream(stream);

    assert_eq!(result, tokens);
}

#[test]
fn test_flatten_token_stream_with_tree() {

    // flatten_token_stream should flatten Tree using unroll
    let node = TokenStreamNode {
        tokens: vec![(Token::Text("parent".to_string()), 0..6)],
        children: Some(Box::new(TokenStream::Flat(vec![(
            Token::Text("child".to_string()),
            10..15,
        )]))),
        line_type: None,
    };
    let stream = TokenStream::Tree(vec![node]);

    let result = flatten_token_stream(stream);

    // Should get all tokens in document order
    assert_eq!(result.len(), 2);
    assert_eq!(result[0].0, Token::Text("parent".to_string()));
    assert_eq!(result[0].1, 0..6);
    assert_eq!(result[1].0, Token::Text("child".to_string()));
    assert_eq!(result[1].1, 10..15);
}

#[test]
fn test_flatten_token_stream_with_nested_tree() {

    // Test deeply nested structure
    let grandchild = TokenStream::Flat(vec![(Token::Text("grandchild".to_string()), 20..30)]);

    let child = TokenStreamNode {
        tokens: vec![(Token::Text("child".to_string()), 10..15)],
        children: Some(Box::new(grandchild)),
        line_type: None,
    };

    let root = TokenStreamNode {
        tokens: vec![(Token::Text("root".to_string()), 0..4)],
        children: Some(Box::new(TokenStream::Tree(vec![child]))),
        line_type: None,
    };

    let stream = TokenStream::Tree(vec![root]);
    let result = flatten_token_stream(stream);

    // Should get all three tokens in document order
    assert_eq!(result.len(), 3);
    assert_eq!(result[0].0, Token::Text("root".to_string()));
    assert_eq!(result[1].0, Token::Text("child".to_string()));
    assert_eq!(result[2].0, Token::Text("grandchild".to_string()));
}

#[test]
fn test_flatten_preserves_all_ranges() {

    // Verify that flatten preserves exact ranges from nested structure
    let node = TokenStreamNode {
        tokens: vec![
            (Token::Text("a".to_string()), 0..1),
            (Token::Whitespace, 1..2),
        ],
        children: Some(Box::new(TokenStream::Flat(vec![
            (Token::Text("b".to_string()), 10..11),
            (Token::Newline, 11..12),
        ]))),
        line_type: None,
    };

    let stream = TokenStream::Tree(vec![node]);
    let result = flatten_token_stream(stream);

    assert_eq!(result[0].1, 0..1);
    assert_eq!(result[1].1, 1..2);
    assert_eq!(result[2].1, 10..11);
    assert_eq!(result[3].1, 11..12);
}

// Parser adapter tests

// Token streams as the lexer produces them for the reference parser: each
// line ends in a `BlankLine` token that carries its newline.
fn line_end(start: usize) -> (Token, std::ops::Range<usize>) {
    (Token::BlankLine(vec![(Token::Newline, start..start + 1)]), start..start + 1)
}

fn hello_world_tokens() -> Vec<(Token, std::ops::Range<usize>)> {
    vec![
        (Token::Text("Hello".to_string()), 0..5),
        (Token::Whitespace, 5..6),
        (Token::Text("world".to_string()), 6..11),
        line_end(11),
    ]
}

#[test]
fn test_adapt_reference_parser_simple() {
    // Test parsing a simple paragraph through the adapter
    let source = "Hello world\n";
    let tokens = hello_world_tokens();
    let stream = flat_to_token_stream(tokens);

    let result = adapt_reference_parser(stream, source);

    assert!(result.is_ok(), "Failed to parse: {:?}", result);
    let doc = result.unwrap();
    assert_eq!(doc.root.children.len(), 1);
}

#[test]
fn test_adapt_reference_parser_rejects_tree() {
    let node = TokenStreamNode {
        tokens: vec![(Token::Text("test".to_string()), 0..4)],
        children: None,
        line_type: None,
    };
    let stream = TokenStream::Tree(vec![node]);

    let result = adapt_reference_parser(stream, "test");

    assert!(result.is_err());
    assert_eq!(result.unwrap_err(), AdapterError::ExpectedFlat);
}

#[test]
fn test_adapt_reference_parser_complex_document() {
    // Test a more complex document with sessions and lists
    let source = "1. Session Title\n\n    Session content.\n\n";
    let tokens = vec![
        (Token::Number("1".to_string()), 0..1),
        (Token::Period, 1..2),
        (Token::Whitespace, 2..3),
        (Token::Text("Session".to_string()), 3..10),
        (Token::Whitespace, 10..11),
        (Token::Text("Title".to_string()), 11..16),
        line_end(16),
        line_end(17),
        (Token::Indent(vec![(Token::Indentation, 18..22)]), 18..22),
        (Token::Text("Session".to_string()), 22..29),
        (Token::Whitespace, 29..30),
        (Token::Text("content".to_string()), 30..37),
        (Token::Period, 37..38),
        line_end(38),
        line_end(39),
        (Token::Dedent(vec![]), 40..40),
    ];
    let stream = flat_to_token_stream(tokens);

    let result = adapt_reference_parser(stream, source);

    assert!(result.is_ok(), "Failed to parse: {:?}", result);
    let doc = result.unwrap();

    // Should have one session
    assert_eq!(doc.root.children.len(), 1);
}

#[test]
fn test_adapt_reference_parser_preserves_locations() {
    // Verify that locations are preserved through the adapter
    let source = "Hello world\n";
    let tokens = hello_world_tokens();
    let stream = flat_to_token_stream(tokens);

    let result = adapt_reference_parser(stream, source);

    assert!(result.is_ok());
    let doc = result.unwrap();

    // Verify document has location information
    let root_loc = doc.root_location();
    assert!(root_loc.start < root_loc.end);
}

#[test]
fn test_adapt_reference_parser_error_formatting() {
    // An incomplete annotation marker (just "::") will trigger parser errors
    let source = "::\n";
    let tokens = vec![(Token::LexMarker, 0..2), line_end(2)];
    let stream = flat_to_token_stream(tokens);

    let result = adapt_reference_parser(stream, source);

    // Should return an error
    assert!(
        result.is_err(),
        "Expected parser error for incomplete annotation"
    );

    // Verify the error is formatted correctly
    match result.unwrap_err() {
        AdapterError::Error(msg) => {
            assert!(
                msg.starts_with("Parsing failed:"),
                "Error message should start with 'Parsing failed:', got: {}",
                msg
            );
            assert!(!msg.is_empty(), "Error message should not be empty");
            assert!(
                msg.len() > "Parsing failed:".len(),
                "Error message should contain details, got: {}",
                msg
            );
        }
        other => panic!("Expected AdapterError::Error, got: {:?}", other),
    }
}

fn two_subject_verbatim_tokens() -> Vec<(Token, std::ops::Range<usize>)> {
    // "A:\n    x\nB:\n    y\n:: t ::\n"
    vec![
        (Token::Text("A".to_string()), 0..1),
        (Token::Colon, 1..2),
        line_end(2),
        (Token::Indent(vec![(Token::Indentation, 3..7)]), 3..7),
        (Token::Text("x".to_string()), 7..8),
        line_end(8),
        (Token::Dedent(vec![]), 9..9),
        (Token::Text("B".to_string()), 9..10),
        (Token::Colon, 10..11),
        line_end(11),
        (Token::Indent(vec![(Token::Indentation, 12..16)]), 12..16),
        (Token::Text("y".to_string()), 16..17),
        line_end(17),
        (Token::Dedent(vec![]), 18..18),
        (Token::LexMarker, 18..20),
        (Token::Whitespace, 20..21),
        (Token::Text("t".to_string()), 21..22),
        (Token::Whitespace, 22..23),
        (Token::LexMarker, 23..25),
        line_end(25),
    ]
}

#[test]
fn reference_parser_groups_verbatim_subjects() {
    let doc = lex_parser::reference::parse(two_subject_verbatim_tokens(), "A:\n    x\nB:\n    y\n:: t ::\n").unwrap();
    assert_eq!(doc.children.len(), 1);
    let kinds: Vec<NodeType> = doc.children[0].children.iter().map(|n| n.node_type).collect();
    assert_eq!(
        kinds,
        vec![
            NodeType::ForeignBlockSubject,
            NodeType::ForeignBlockContent,
            NodeType::ForeignBlockSubject,
            NodeType::ForeignBlockContent,
            NodeType::ForeignBlockClosing
        ]
    );
}

#[test]
fn adapt_reference_parser_refuses_verbatim_with_two_subjects() {
    let stream = flat_to_token_stream(two_subject_verbatim_tokens());
    let result = adapt_reference_parser(stream, "A:\n    x\nB:\n    y\n:: t ::\n");
    assert_eq!(
        result.unwrap_err(),
        AdapterError::Error("Parsing failed: the parse tree cannot be built into a document".to_string())
    );
}

#[test]
fn adapt_reference_parser_builds_one_subject_verbatim() {
    // "Code:\n    x\n:: t ::\n"
    let tokens = vec![
        (Token::Text("Code".to_string()), 0..4),
        (Token::Colon, 4..5),
        line_end(5),
        (Token::Indent(vec![(Token::Indentation, 6..10)]), 6..10),
        (Token::Text("x".to_string()), 10..11),
        line_end(11),
        (Token::Dedent(vec![]), 12..12),
        (Token::LexMarker, 12..14),
        (Token::Whitespace, 14..15),
        (Token::Text("t".to_string()), 15..16),
        (Token::Whitespace, 16..17),
        (Token::LexMarker, 17..19),
        line_end(19),
    ];
    let doc = adapt_reference_parser(flat_to_token_stream(tokens), "Code:\n    x\n:: t ::\n").unwrap();
    assert_eq!(doc.root.children.len(), 1);
    assert_eq!(doc.root.children[0].node_type(), "VerbatimBlock");
}

#[test]
fn test_adapt_reference_parser_round_trip() {
    // Test that we can go: tokens -> stream -> parser -> document
    let source = "Paragraph one\n\nParagraph two\n";
    let tokens = vec![
        (Token::Text("Paragraph".to_string()), 0..9),
        (Token::Whitespace, 9..10),
        (Token::Text("one".to_string()), 10..13),
        line_end(13),
        line_end(14),
        (Token::Text("Paragraph".to_string()), 15..24),
        (Token::Whitespace, 24..25),
        (Token::Text("two".to_string()), 25..28),
        line_end(28),
    ];

    // Direct path: reference parser, then the AST builder
    let tree = parse(tokens.clone(), source).unwrap();
    let doc1 = AstBuilder::new(source).build(tree);

    // TokenStream path
    let stream = flat_to_token_stream(tokens);
    let doc2 = adapt_reference_parser(stream, source).unwrap();

    // Both should produce the same number of items
    assert_eq!(doc1.root.children.len(), doc2.root.children.len());
}

#[test]
fn adapt_reference_parser_annotation_label_and_parameters() {
    let source = ":: warning severity=high ::\n";
    let tokens = vec![
        (Token::LexMarker, 0..2),
        (Token::Whitespace, 2..3),
        (Token::Text("warning".to_string()), 3..10),
        (Token::Whitespace, 10..11),
        (Token::Text("severity".to_string()), 11..19),
        (Token::Equals, 19..20),
        (Token::Text("high".to_string()), 20..24),
        (Token::Whitespace, 24..25),
        (Token::LexMarker, 25..27),
        line_end(27),
    ];
    let doc = adapt_reference_parser(flat_to_token_stream(tokens), source).unwrap();
    assert_eq!(doc.root.children.len(), 1);
    match &doc.root.children[0] {
        lex_parser::ast::ContentItem::Annotation(a) => {
            assert_eq!(a.label.value, "warning");
            assert_eq!(a.parameters.len(), 1);
            assert_eq!(a.parameters[0].key, "severity");
            assert_eq!(a.parameters[0].value, "high");
        }
        other => panic!("Expected annotation, got {:?}", other),
    }
}

#[test]
fn ast_builder_splits_paragraph_lines_at_newlines() {
    let source = "a\nb\n";
    let tokens = vec![
        (Token::Text("a".to_string()), 0..1),
        (Token::Newline, 1..2),
        (Token::Text("b".to_string()), 2..3),
        (Token::Newline, 3..4),
    ];
    let para = ParseNode::new(NodeType::Paragraph, tokens, vec![]);
    let root = ParseNode::new(NodeType::Document, vec![], vec![para]);
    let doc = AstBuilder::new(source).build(root);
    match &doc.root.children[0] {
        lex_parser::ast::ContentItem::Paragraph(p) => {
            assert_eq!(p.lines.len(), 2);
            assert_eq!(p.lines[0].content.text, "a");
            assert_eq!(p.lines[1].content.text, "b");
        }
        other => panic!("Expected paragraph, got {:?}", other),
    }
}
