use lex_parser::adapters::AdapterError;
use lex_parser::adapters_linebased::{adapt_linebased_parser, line_container_to_token_stream, token_stream_to_line_container, token_stream_to_line_tokens};
use lex_parser::engine::parse_experimental_v2;
use lex_parser::stream::{TokenStream, TokenStreamNode};
use lex_parser::tokens::{LineContainer, LineToken, LineType, Token};

// Tree adapter tests
#[test]
fn test_line_container_to_token_stream_single_token() {

    // Create a simple LineContainer with one token
    #[allow(clippy::single_range_in_vec_init)]
    let line_token = LineToken {
        source_tokens: vec![Token::Text("hello".to_string())],
        token_spans: vec![0..5], // Single range in vec - intentional for LineToken
        line_type: LineType::ParagraphLine,
    };
    let container = LineContainer::Token(line_token);

    let stream = line_container_to_token_stream(container);

    match stream {
        TokenStream::Tree(nodes) => {
            assert_eq!(nodes.len(), 1);
            assert_eq!(nodes[0].tokens.len(), 1);
            assert_eq!(nodes[0].tokens[0].0, Token::Text("hello".to_string()));
            assert!(nodes[0].children.is_none());
        }
        _ => panic!("Expected TokenStream::Tree"),
    }
}

#[test]
fn test_line_container_to_token_stream_container() {

    // Create a container with multiple children
    #[allow(clippy::single_range_in_vec_init)]
    let child1 = LineContainer::Token(LineToken {
        source_tokens: vec![Token::Text("line1".to_string())],
        token_spans: vec![0..5], // Single range - intentional
        line_type: LineType::ParagraphLine,
    });
    #[allow(clippy::single_range_in_vec_init)]
    let child2 = LineContainer::Token(LineToken {
        source_tokens: vec![Token::Text("line2".to_string())],
        token_spans: vec![6..11], // Single range - intentional
        line_type: LineType::ParagraphLine,
    });

    let container = LineContainer::Container {
        children: vec![child1, child2],
    };

    let stream = line_container_to_token_stream(container);

    match stream {
        TokenStream::Tree(nodes) => {
            assert_eq!(nodes.len(), 2);
            assert_eq!(nodes[0].tokens[0].0, Token::Text("line1".to_string()));
            assert_eq!(nodes[1].tokens[0].0, Token::Text("line2".to_string()));
        }
        _ => panic!("Expected TokenStream::Tree"),
    }
}

#[test]
fn test_token_stream_to_line_container_simple() {
    let node = TokenStreamNode {
        tokens: vec![(Token::Text("hello".to_string()), 0..5)],
        children: None,
        line_type: None,
    };
    let stream = TokenStream::Tree(vec![node]);

    let result = token_stream_to_line_container(stream);
    assert!(result.is_ok());

    let container = result.unwrap();
    // Result is always wrapped in Container at root
    match container {
        LineContainer::Container { children } => {
            assert_eq!(children.len(), 1);
            match &children[0] {
                LineContainer::Token(line_token) => {
                    assert_eq!(line_token.source_tokens.len(), 1);
                    assert_eq!(
                        line_token.source_tokens[0],
                        Token::Text("hello".to_string())
                    );
                }
                _ => panic!("Expected LineContainer::Token inside"),
            }
        }
        _ => panic!("Expected LineContainer::Container at root"),
    }
}

#[test]
fn test_token_stream_to_line_container_rejects_flat() {
    let stream = TokenStream::Flat(vec![(Token::Text("test".to_string()), 0..4)]);
    let result = token_stream_to_line_container(stream);

    assert!(result.is_err());
    assert_eq!(result.unwrap_err(), AdapterError::ExpectedTree);
}

#[test]
fn test_tree_adapter_round_trip() {

    // Create original LineContainer (wrapped in Container as root)
    #[allow(clippy::single_range_in_vec_init)]
    let original = LineContainer::Container {
        children: vec![LineContainer::Token(LineToken {
            source_tokens: vec![
                Token::Text("hello".to_string()),
                Token::Whitespace,
                Token::Text("world".to_string()),
            ],
            token_spans: vec![0..5, 5..6, 6..11],
            line_type: LineType::ParagraphLine,
        })],
    };

    // Convert to TokenStream
    let stream = line_container_to_token_stream(original.clone());

    // Convert back to LineContainer
    let result = token_stream_to_line_container(stream).unwrap();

    // Verify tokens match (note: LineType will be ParagraphLine as default)
    match (original, result) {
        (
            LineContainer::Container {
                children: orig_children,
            },
            LineContainer::Container {
                children: res_children,
            },
        ) => {
            assert_eq!(orig_children.len(), res_children.len());
            match (&orig_children[0], &res_children[0]) {
                (LineContainer::Token(orig), LineContainer::Token(converted)) => {
                    assert_eq!(orig.source_tokens, converted.source_tokens);
                    assert_eq!(orig.token_spans, converted.token_spans);
                }
                _ => panic!("Expected both to contain Token"),
            }
        }
        _ => panic!("Expected both to be Container variants"),
    }
}

#[test]
fn test_tree_adapter_preserves_ranges() {

    #[allow(clippy::single_range_in_vec_init)]
    let line_token = LineToken {
        source_tokens: vec![Token::Text("test".to_string()), Token::Newline],
        token_spans: vec![0..4, 4..5],
        line_type: LineType::ParagraphLine,
    };
    let container = LineContainer::Container {
        children: vec![LineContainer::Token(line_token)],
    };

    let stream = line_container_to_token_stream(container);
    let result = token_stream_to_line_container(stream).unwrap();

    match result {
        LineContainer::Container { children } => match &children[0] {
            LineContainer::Token(line_token) => {
                assert_eq!(line_token.token_spans[0], 0..4);
                assert_eq!(line_token.token_spans[1], 4..5);
            }
            _ => panic!("Expected Token inside Container"),
        },
        _ => panic!("Expected Container at root"),
    }
}

#[test]
fn test_tree_adapter_nested_structure() {

    // Create nested structure: container with children
    #[allow(clippy::single_range_in_vec_init)]
    let child = LineContainer::Token(LineToken {
        source_tokens: vec![Token::Text("child".to_string())],
        token_spans: vec![10..15], // Single range - intentional
        line_type: LineType::ParagraphLine,
    });

    let parent = LineContainer::Container {
        children: vec![child],
    };

    let stream = line_container_to_token_stream(parent);

    match stream {
        TokenStream::Tree(nodes) => {
            // Container becomes one node in the tree
            assert_eq!(nodes.len(), 1);
            // The node represents the child token
            assert_eq!(nodes[0].tokens.len(), 1);
            assert_eq!(nodes[0].tokens[0].0, Token::Text("child".to_string()));
        }
        _ => panic!("Expected TokenStream::Tree"),
    }
}

// LineBased parser adapter tests






// LineType preservation tests
#[test]
fn test_line_type_preservation_paragraph() {

    #[allow(clippy::single_range_in_vec_init)]
    let line_token = LineToken {
        source_tokens: vec![Token::Text("hello".to_string())],
        token_spans: vec![0..5],
        line_type: LineType::ParagraphLine,
    };

    let container = LineContainer::Token(line_token);

    // Convert to TokenStream
    let stream = line_container_to_token_stream(container);

    // Verify LineType is preserved in TokenStream
    match stream {
        TokenStream::Tree(nodes) => {
            assert_eq!(nodes.len(), 1);
            assert_eq!(nodes[0].line_type, Some(LineType::ParagraphLine));
        }
        _ => panic!("Expected Tree variant"),
    }
}

#[test]
fn test_line_type_preservation_subject() {

    #[allow(clippy::single_range_in_vec_init)]
    let line_token = LineToken {
        source_tokens: vec![Token::Text("Title:".to_string())],
        token_spans: vec![0..6],
        line_type: LineType::SubjectLine,
    };

    let container = LineContainer::Token(line_token);

    // Convert to TokenStream
    let stream = line_container_to_token_stream(container);

    // Verify SubjectLine is preserved
    match stream {
        TokenStream::Tree(nodes) => {
            assert_eq!(nodes.len(), 1);
            assert_eq!(nodes[0].line_type, Some(LineType::SubjectLine));
        }
        _ => panic!("Expected Tree variant"),
    }
}

#[test]
fn test_line_type_preservation_list() {

    #[allow(clippy::single_range_in_vec_init)]
    let line_token = LineToken {
        source_tokens: vec![Token::Text("- item".to_string())],
        token_spans: vec![0..6],
        line_type: LineType::ListLine,
    };

    let container = LineContainer::Token(line_token);

    // Convert to TokenStream
    let stream = line_container_to_token_stream(container);

    // Verify ListLine is preserved
    match stream {
        TokenStream::Tree(nodes) => {
            assert_eq!(nodes.len(), 1);
            assert_eq!(nodes[0].line_type, Some(LineType::ListLine));
        }
        _ => panic!("Expected Tree variant"),
    }
}

#[test]
fn test_line_type_round_trip_preservation() {

    // Test all LineType variants round-trip correctly
    let line_types = vec![
        LineType::ParagraphLine,
        LineType::SubjectLine,
        LineType::ListLine,
        LineType::BlankLine,
        LineType::AnnotationStartLine,
        LineType::AnnotationEndLine,
        LineType::SubjectOrListItemLine,
    ];

    for original_line_type in line_types {
        #[allow(clippy::single_range_in_vec_init)]
        let line_token = LineToken {
            source_tokens: vec![Token::Text("test".to_string())],
            token_spans: vec![0..4],
            line_type: original_line_type,
        };

        let original_container = LineContainer::Token(line_token);

        // Convert to TokenStream
        let stream = line_container_to_token_stream(original_container);

        // Convert back to LineContainer
        let result_container = token_stream_to_line_container(stream).unwrap();

        // Extract the LineType from the result
        match result_container {
            LineContainer::Container { children } => {
                assert_eq!(children.len(), 1);
                match &children[0] {
                    LineContainer::Token(line_token) => {
                        assert_eq!(
                            line_token.line_type, original_line_type,
                            "LineType {:?} was not preserved during round trip",
                            original_line_type
                        );
                    }
                    _ => panic!("Expected Token variant"),
                }
            }
            _ => panic!("Expected Container at root"),
        }
    }
}

#[test]
fn test_line_type_container_has_none() {

    // When a Container has nested Containers, those inner containers should have line_type = None
    #[allow(clippy::single_range_in_vec_init)]
    let line_token = LineToken {
        source_tokens: vec![Token::Text("hello".to_string())],
        token_spans: vec![0..5],
        line_type: LineType::ParagraphLine,
    };

    // Create nested containers: Container -> Container -> Token
    let inner_container = LineContainer::Container {
        children: vec![LineContainer::Token(line_token)],
    };

    let outer_container = LineContainer::Container {
        children: vec![inner_container],
    };

    // Convert to TokenStream
    let stream = line_container_to_token_stream(outer_container);

    // Verify structure
    match stream {
        TokenStream::Tree(nodes) => {
            assert_eq!(nodes.len(), 1);
            // The container node should have line_type = None
            assert_eq!(nodes[0].line_type, None);
            assert_eq!(nodes[0].tokens.len(), 0); // Container nodes have no tokens

            // The inner child should have the ParagraphLine type
            match &nodes[0].children {
                Some(children_stream) => match &**children_stream {
                    TokenStream::Tree(child_nodes) => {
                        assert_eq!(child_nodes.len(), 1);
                        assert_eq!(child_nodes[0].line_type, Some(LineType::ParagraphLine));
                    }
                    _ => panic!("Expected Tree children"),
                },
                None => panic!("Expected children for container"),
            }
        }
        _ => panic!("Expected Tree variant"),
    }
}

#[test]
fn test_adapt_linebased_parser_simple() {

    // Create a simple paragraph
    let source = "Hello world\n";

    #[allow(clippy::single_range_in_vec_init)]
    let line_token = LineToken {
        source_tokens: vec![
            Token::Text("Hello".to_string()),
            Token::Whitespace,
            Token::Text("world".to_string()),
            Token::Newline,
        ],
        token_spans: vec![0..5, 5..6, 6..11, 11..12],
        line_type: LineType::ParagraphLine,
    };

    let container = LineContainer::Container {
        children: vec![LineContainer::Token(line_token)],
    };

    // Convert to TokenStream
    let stream = line_container_to_token_stream(container);

    // Parse through adapter
    let result = adapt_linebased_parser(stream, source);

    assert!(result.is_ok(), "Failed to parse: {:?}", result);
    let doc = result.unwrap();
    assert_eq!(doc.root.children.len(), 1); // Should have one paragraph
}

#[test]
fn test_adapt_linebased_parser_rejects_flat() {
    // Flat streams should be rejected
    let stream = TokenStream::Flat(vec![(Token::Text("test".to_string()), 0..4)]);

    let result = adapt_linebased_parser(stream, "test");

    assert!(result.is_err());
    assert_eq!(result.unwrap_err(), AdapterError::ExpectedTree);
}

#[test]
fn test_adapt_linebased_parser_round_trip() {

    // Create a simple structure
    let source = "Paragraph text\n";

    #[allow(clippy::single_range_in_vec_init)]
    let line_token = LineToken {
        source_tokens: vec![
            Token::Text("Paragraph".to_string()),
            Token::Whitespace,
            Token::Text("text".to_string()),
            Token::Newline,
        ],
        token_spans: vec![0..9, 9..10, 10..14, 14..15],
        line_type: LineType::ParagraphLine,
    };

    let container = LineContainer::Container {
        children: vec![LineContainer::Token(line_token)],
    };

    // Original path
    let doc1 = parse_experimental_v2(container.clone(), source)
        .unwrap();

    // TokenStream path
    let stream = line_container_to_token_stream(container);
    let doc2 = adapt_linebased_parser(stream, source).unwrap();

    // Both should produce the same number of items
    assert_eq!(doc1.root.children.len(), doc2.root.children.len());
}

#[test]
fn test_token_stream_to_line_tokens_shallow_and_nested() {
    let line = TokenStreamNode {
        tokens: vec![(Token::Text("a".to_string()), 0..1), (Token::Newline, 1..2)],
        children: None,
        line_type: Some(LineType::SubjectLine),
    };
    let lines = token_stream_to_line_tokens(TokenStream::Tree(vec![line])).unwrap();
    assert_eq!(lines.len(), 1);
    assert_eq!(lines[0].source_tokens, vec![Token::Text("a".to_string()), Token::Newline]);
    assert_eq!(lines[0].token_spans, vec![0..1, 1..2]);
    assert_eq!(lines[0].line_type, LineType::SubjectLine);

    let nested = TokenStreamNode {
        tokens: vec![(Token::Text("a".to_string()), 0..1)],
        children: Some(Box::new(TokenStream::Tree(vec![]))),
        line_type: None,
    };
    assert!(matches!(
        token_stream_to_line_tokens(TokenStream::Tree(vec![nested])),
        Err(AdapterError::Error(_))
    ));
    assert_eq!(
        token_stream_to_line_tokens(TokenStream::Flat(vec![])),
        Err(AdapterError::ExpectedTree)
    );
}
