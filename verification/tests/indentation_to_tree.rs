use lex_parser::mapper::{walk_stream, TransformationError};
use lex_parser::indentation_to_tree::IndentationToTreeMapper;
use lex_parser::stream::{TokenStream, TokenStreamNode};
use lex_parser::tokens::{LineType, Token};

fn make_node(
    line_type: LineType,
    tokens: Vec<(Token, std::ops::Range<usize>)>,
) -> TokenStreamNode {
    TokenStreamNode {
        tokens,
        children: None,
        line_type: Some(line_type),
    }
}

fn make_token_pair(token: Token, start: usize) -> (Token, std::ops::Range<usize>) {
    (token, start..start + 1)
}

#[test]
fn test_single_node_no_indentation() {
    let input = vec![make_node(
        LineType::ParagraphLine,
        vec![make_token_pair(Token::Text("hello".to_string()), 0)],
    )];

    let mut mapper = IndentationToTreeMapper::new();
    let result = mapper.transform(TokenStream::Tree(input)).unwrap();

    // Verify the result is a tree with one node
    match result {
        TokenStream::Tree(nodes) => {
            assert_eq!(nodes.len(), 1);
            assert_eq!(nodes[0].line_type, Some(LineType::ParagraphLine));
            assert!(nodes[0].children.is_none());
        }
        _ => panic!("Expected Tree stream"),
    }
}

#[test]
fn test_multiple_nodes_same_level() {
    let input = vec![
        make_node(
            LineType::SubjectLine,
            vec![make_token_pair(Token::Text("Title".to_string()), 0)],
        ),
        make_node(
            LineType::ParagraphLine,
            vec![make_token_pair(Token::Text("Para1".to_string()), 10)],
        ),
        make_node(
            LineType::ParagraphLine,
            vec![make_token_pair(Token::Text("Para2".to_string()), 20)],
        ),
    ];

    let mut mapper = IndentationToTreeMapper::new();
    let result = mapper.transform(TokenStream::Tree(input)).unwrap();

    // All nodes at same level should remain as siblings at root
    match result {
        TokenStream::Tree(nodes) => {
            assert_eq!(nodes.len(), 3);
            assert!(nodes.iter().all(|n| n.children.is_none()));
        }
        _ => panic!("Expected Tree stream"),
    }
}

#[test]
fn test_single_indent_level() {
    let input = vec![
        make_node(
            LineType::SubjectLine,
            vec![make_token_pair(Token::Text("Title".to_string()), 0)],
        ),
        make_node(
            LineType::Indent,
            vec![make_token_pair(Token::Indentation, 10)],
        ),
        make_node(
            LineType::ParagraphLine,
            vec![make_token_pair(Token::Text("Indented".to_string()), 20)],
        ),
        make_node(
            LineType::Dedent,
            vec![make_token_pair(Token::Dedent(vec![]), 30)],
        ),
    ];

    let mut mapper = IndentationToTreeMapper::new();
    let result = mapper.transform(TokenStream::Tree(input)).unwrap();

    // Root should have title node with nested children
    match result {
        TokenStream::Tree(nodes) => {
            assert_eq!(nodes.len(), 1);
            assert_eq!(nodes[0].line_type, Some(LineType::SubjectLine));

            // Verify the title has children
            assert!(nodes[0].children.is_some());

            if let Some(ref children_stream) = nodes[0].children {
                match children_stream.as_ref() {
                    TokenStream::Tree(child_nodes) => {
                        assert_eq!(child_nodes.len(), 1);
                        assert_eq!(child_nodes[0].line_type, Some(LineType::ParagraphLine));
                    }
                    _ => panic!("Expected Tree for children"),
                }
            }
        }
        _ => panic!("Expected Tree stream"),
    }
}

#[test]
fn test_multiple_indent_levels() {
    let input = vec![
        make_node(
            LineType::SubjectLine,
            vec![make_token_pair(Token::Text("Title".to_string()), 0)],
        ),
        make_node(
            LineType::Indent,
            vec![make_token_pair(Token::Indentation, 10)],
        ),
        make_node(
            LineType::ParagraphLine,
            vec![make_token_pair(Token::Text("Level1".to_string()), 20)],
        ),
        make_node(
            LineType::Indent,
            vec![make_token_pair(Token::Indentation, 30)],
        ),
        make_node(
            LineType::ParagraphLine,
            vec![make_token_pair(Token::Text("Level2".to_string()), 40)],
        ),
        make_node(
            LineType::Dedent,
            vec![make_token_pair(Token::Dedent(vec![]), 50)],
        ),
        make_node(
            LineType::Dedent,
            vec![make_token_pair(Token::Dedent(vec![]), 60)],
        ),
    ];

    let mut mapper = IndentationToTreeMapper::new();
    let result = mapper.transform(TokenStream::Tree(input)).unwrap();

    // Verify nested structure: Title -> Level1 -> Level2
    match result {
        TokenStream::Tree(nodes) => {
            assert_eq!(nodes.len(), 1);
            assert_eq!(nodes[0].line_type, Some(LineType::SubjectLine));

            // Check first level children
            if let Some(ref level1_stream) = nodes[0].children {
                match level1_stream.as_ref() {
                    TokenStream::Tree(level1_nodes) => {
                        assert_eq!(level1_nodes.len(), 1);
                        assert_eq!(level1_nodes[0].line_type, Some(LineType::ParagraphLine));

                        // Check second level children
                        if let Some(ref level2_stream) = level1_nodes[0].children {
                            match level2_stream.as_ref() {
                                TokenStream::Tree(level2_nodes) => {
                                    assert_eq!(level2_nodes.len(), 1);
                                    assert_eq!(
                                        level2_nodes[0].line_type,
                                        Some(LineType::ParagraphLine)
                                    );
                                }
                                _ => panic!("Expected Tree for level2"),
                            }
                        } else {
                            panic!("Expected children at level1");
                        }
                    }
                    _ => panic!("Expected Tree for level1"),
                }
            } else {
                panic!("Expected children at root");
            }
        }
        _ => panic!("Expected Tree stream"),
    }
}

#[test]
fn test_multiple_children_at_same_level() {
    let input = vec![
        make_node(
            LineType::SubjectLine,
            vec![make_token_pair(Token::Text("Title".to_string()), 0)],
        ),
        make_node(
            LineType::Indent,
            vec![make_token_pair(Token::Indentation, 10)],
        ),
        make_node(
            LineType::ParagraphLine,
            vec![make_token_pair(Token::Text("Child1".to_string()), 20)],
        ),
        make_node(
            LineType::ParagraphLine,
            vec![make_token_pair(Token::Text("Child2".to_string()), 30)],
        ),
        make_node(
            LineType::ParagraphLine,
            vec![make_token_pair(Token::Text("Child3".to_string()), 40)],
        ),
        make_node(
            LineType::Dedent,
            vec![make_token_pair(Token::Dedent(vec![]), 50)],
        ),
    ];

    let mut mapper = IndentationToTreeMapper::new();
    let result = mapper.transform(TokenStream::Tree(input)).unwrap();

    // Title should have 3 children at the same level
    match result {
        TokenStream::Tree(nodes) => {
            assert_eq!(nodes.len(), 1);

            if let Some(ref children_stream) = nodes[0].children {
                match children_stream.as_ref() {
                    TokenStream::Tree(child_nodes) => {
                        assert_eq!(child_nodes.len(), 3);
                        assert!(child_nodes
                            .iter()
                            .all(|n| n.line_type == Some(LineType::ParagraphLine)));
                    }
                    _ => panic!("Expected Tree for children"),
                }
            }
        }
        _ => panic!("Expected Tree stream"),
    }
}

#[test]
fn test_siblings_after_dedent() {
    let input = vec![
        make_node(
            LineType::SubjectLine,
            vec![make_token_pair(Token::Text("Title1".to_string()), 0)],
        ),
        make_node(
            LineType::Indent,
            vec![make_token_pair(Token::Indentation, 10)],
        ),
        make_node(
            LineType::ParagraphLine,
            vec![make_token_pair(Token::Text("Nested".to_string()), 20)],
        ),
        make_node(
            LineType::Dedent,
            vec![make_token_pair(Token::Dedent(vec![]), 30)],
        ),
        make_node(
            LineType::SubjectLine,
            vec![make_token_pair(Token::Text("Title2".to_string()), 40)],
        ),
    ];

    let mut mapper = IndentationToTreeMapper::new();
    let result = mapper.transform(TokenStream::Tree(input)).unwrap();

    // Should have 2 siblings at root level: Title1 (with children) and Title2
    match result {
        TokenStream::Tree(nodes) => {
            assert_eq!(nodes.len(), 2);
            assert_eq!(nodes[0].line_type, Some(LineType::SubjectLine));
            assert!(nodes[0].children.is_some());
            assert_eq!(nodes[1].line_type, Some(LineType::SubjectLine));
            assert!(nodes[1].children.is_none());
        }
        _ => panic!("Expected Tree stream"),
    }
}

#[test]
fn indentation_to_tree_test_preserves_token_ranges() {
    // Verify that byte ranges are preserved exactly through the transformation
    let input = vec![
        make_node(
            LineType::SubjectLine,
            vec![(Token::Text("Title".to_string()), 0..5)],
        ),
        make_node(LineType::Indent, vec![(Token::Indentation, 10..14)]),
        make_node(
            LineType::ParagraphLine,
            vec![(Token::Text("Content".to_string()), 20..27)],
        ),
        make_node(LineType::Dedent, vec![(Token::Dedent(vec![]), 30..30)]),
    ];

    let mut mapper = IndentationToTreeMapper::new();
    let result = mapper.transform(TokenStream::Tree(input)).unwrap();

    match result {
        TokenStream::Tree(nodes) => {
            // Verify root node token range
            assert_eq!(nodes[0].tokens[0].1, 0..5);

            // Verify nested child token range
            if let Some(ref children_stream) = nodes[0].children {
                match children_stream.as_ref() {
                    TokenStream::Tree(child_nodes) => {
                        assert_eq!(child_nodes[0].tokens[0].1, 20..27);
                    }
                    _ => panic!("Expected Tree for children"),
                }
            }
        }
        _ => panic!("Expected Tree stream"),
    }
}

#[test]
fn test_preserves_line_type_information() {
    // Verify that LineType is preserved through the transformation
    let input = vec![
        make_node(
            LineType::SubjectLine,
            vec![make_token_pair(Token::Text("Subject".to_string()), 0)],
        ),
        make_node(
            LineType::Indent,
            vec![make_token_pair(Token::Indentation, 10)],
        ),
        make_node(LineType::ListLine, vec![make_token_pair(Token::Dash, 20)]),
        make_node(
            LineType::ParagraphLine,
            vec![make_token_pair(Token::Text("Para".to_string()), 30)],
        ),
        make_node(
            LineType::Dedent,
            vec![make_token_pair(Token::Dedent(vec![]), 40)],
        ),
    ];

    let mut mapper = IndentationToTreeMapper::new();
    let result = mapper.transform(TokenStream::Tree(input)).unwrap();

    match result {
        TokenStream::Tree(nodes) => {
            assert_eq!(nodes[0].line_type, Some(LineType::SubjectLine));

            if let Some(ref children_stream) = nodes[0].children {
                match children_stream.as_ref() {
                    TokenStream::Tree(child_nodes) => {
                        assert_eq!(child_nodes.len(), 2);
                        assert_eq!(child_nodes[0].line_type, Some(LineType::ListLine));
                        assert_eq!(child_nodes[1].line_type, Some(LineType::ParagraphLine));
                    }
                    _ => panic!("Expected Tree for children"),
                }
            }
        }
        _ => panic!("Expected Tree stream"),
    }
}

#[test]
fn test_error_on_flat_input() {
    let tokens = vec![(Token::Text("hello".to_string()), 0..5)];
    let mut mapper = IndentationToTreeMapper::new();
    let result = mapper.transform(TokenStream::Flat(tokens));

    assert!(result.is_err());
    if let Err(TransformationError::Error(msg)) = result {
        assert!(msg.contains("requires Tree input"));
    }
}

#[test]
fn indentation_to_tree_keeps_every_line_in_order() {
    // A / Indent / B / Indent / C / Dedent / D / Dedent / E
    let t = |s: &str, at: usize| vec![(Token::Text(s.to_string()), at..at + 1)];
    let input = vec![
        make_node(LineType::ParagraphLine, t("A", 0)),
        make_node(LineType::Indent, vec![(Token::Indentation, 2..6)]),
        make_node(LineType::ParagraphLine, t("B", 6)),
        make_node(LineType::Indent, vec![(Token::Indentation, 8..16)]),
        make_node(LineType::ParagraphLine, t("C", 16)),
        make_node(LineType::Dedent, vec![]),
        make_node(LineType::ParagraphLine, t("D", 22)),
        make_node(LineType::Dedent, vec![]),
        make_node(LineType::ParagraphLine, t("E", 24)),
    ];
    let mut mapper = IndentationToTreeMapper::new();
    let result = mapper.transform(TokenStream::Tree(input)).unwrap();
    match &result {
        TokenStream::Tree(nodes) => assert_eq!(nodes.len(), 2),
        _ => panic!("Expected Tree stream"),
    }
    let texts: Vec<String> = result
        .unroll()
        .into_iter()
        .map(|(tok, _)| match tok {
            Token::Text(s) => s,
            other => format!("{:?}", other),
        })
        .collect();
    assert_eq!(texts, vec!["A", "B", "C", "D", "E"]);
}

#[test]
fn indentation_to_tree_refuses_a_flat_stream_when_walked() {
    let tokens = vec![(Token::Text("hello".to_string()), 0..5)];
    let mut mapper = IndentationToTreeMapper::new();
    let result = walk_stream(TokenStream::Flat(tokens), &mut mapper);
    assert_eq!(
        result,
        Err(TransformationError::Error(
            "IndentationToTreeMapper requires Tree input, not Flat".to_string()
        ))
    );
}
