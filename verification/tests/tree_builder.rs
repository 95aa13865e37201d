use lex_parser::tokens::{LineContainer, LineToken, LineType, Token};
use lex_parser::tree_builder::build_line_container;

#[allow(clippy::single_range_in_vec_init)]
#[test]
fn test_build_hierarchy_simple() {
    // Test with already-grouped LineTokens
    let line_tokens = vec![LineToken {
        source_tokens: vec![
            Token::Text("Hello".to_string()),
            Token::Whitespace,
            Token::Text("world".to_string()),
            Token::Newline,
        ],
        token_spans: vec![0..5, 5..6, 6..11, 11..12],
        line_type: LineType::ParagraphLine,
    }];

    let container = build_line_container(line_tokens);

    match container {
        LineContainer::Container { children } => {
            assert_eq!(children.len(), 1);
            match &children[0] {
                LineContainer::Token(line_token) => {
                    assert_eq!(line_token.line_type, LineType::ParagraphLine);
                    assert_eq!(line_token.source_tokens.len(), 4);
                }
                _ => panic!("Expected Token"),
            }
        }
        _ => panic!("Expected Container at root"),
    }
}

#[allow(clippy::single_range_in_vec_init)]
#[test]
fn test_build_hierarchy_with_indentation() {
    // Test hierarchy building with Indent/Dedent markers
    let line_tokens = vec![
        LineToken {
            source_tokens: vec![
                Token::Text("Title".to_string()),
                Token::Colon,
                Token::Newline,
            ],
            token_spans: vec![0..5, 5..6, 6..7],
            line_type: LineType::SubjectLine,
        },
        LineToken {
            source_tokens: vec![Token::Indentation],
            token_spans: vec![7..11],
            line_type: LineType::Indent,
        },
        LineToken {
            source_tokens: vec![Token::Text("Content".to_string()), Token::Newline],
            token_spans: vec![11..18, 18..19],
            line_type: LineType::ParagraphLine,
        },
        LineToken {
            source_tokens: vec![Token::Dedent(vec![])],
            token_spans: vec![0..0],
            line_type: LineType::Dedent,
        },
    ];

    let container = build_line_container(line_tokens);

    match container {
        LineContainer::Container { children } => {
            // Should have title token and then a container with the indented content
            assert!(!children.is_empty());

            // First child should be the title
            match &children[0] {
                LineContainer::Token(line_token) => {
                    assert_eq!(line_token.line_type, LineType::SubjectLine);
                }
                _ => panic!("Expected Token for title"),
            }
        }
        _ => panic!("Expected Container at root"),
    }
}

fn line(text: &str, start: usize, line_type: LineType) -> LineToken {
    LineToken {
        source_tokens: vec![Token::Text(text.to_string()), Token::Newline],
        token_spans: vec![start..start + text.len(), start + text.len()..start + text.len() + 1],
        line_type,
    }
}

fn marker(line_type: LineType) -> LineToken {
    LineToken { source_tokens: vec![], token_spans: vec![], line_type }
}

#[test]
fn test_build_hierarchy_nests_after_line() {
    let lines = vec![
        line("A", 0, LineType::SubjectLine),
        marker(LineType::Indent),
        line("B", 2, LineType::ParagraphLine),
        line("C", 4, LineType::ParagraphLine),
        marker(LineType::Dedent),
        line("D", 6, LineType::ParagraphLine),
    ];
    match build_line_container(lines) {
        LineContainer::Container { children } => {
            assert_eq!(children.len(), 3);
            assert!(matches!(&children[0], LineContainer::Token(t) if t.line_type == LineType::SubjectLine));
            match &children[1] {
                LineContainer::Container { children: inner } => assert_eq!(inner.len(), 2),
                _ => panic!("Expected nested container"),
            }
            assert!(matches!(&children[2], LineContainer::Token(_)));
        }
        _ => panic!("Expected root container"),
    }
}

#[test]
fn test_build_hierarchy_extends_previous_container() {
    let lines = vec![
        line("A", 0, LineType::SubjectLine),
        marker(LineType::Indent),
        line("B", 2, LineType::ParagraphLine),
        marker(LineType::Dedent),
        marker(LineType::Indent),
        line("C", 4, LineType::ParagraphLine),
        marker(LineType::Dedent),
    ];
    match build_line_container(lines) {
        LineContainer::Container { children } => {
            assert_eq!(children.len(), 2);
            match &children[1] {
                LineContainer::Container { children: inner } => assert_eq!(inner.len(), 2),
                _ => panic!("Expected nested container"),
            }
        }
        _ => panic!("Expected root container"),
    }
}

#[test]
fn test_build_hierarchy_empty_input() {
    match build_line_container(vec![]) {
        LineContainer::Container { children } => assert!(children.is_empty()),
        _ => panic!("Expected root container"),
    }
}

#[test]
fn test_line_container_clone_copies_every_line() {
    let container = LineContainer::Container {
        children: vec![
            LineContainer::Token(line("Title:", 0, LineType::SubjectLine)),
            LineContainer::Container {
                children: vec![LineContainer::Token(LineToken {
                    source_tokens: vec![
                        Token::Indent(vec![(Token::Indentation, 7..11)]),
                        Token::Text("body".to_string()),
                    ],
                    token_spans: vec![7..11, 11..15],
                    line_type: LineType::ParagraphLine,
                })],
            },
        ],
    };
    let copy = container.clone();
    assert_eq!(copy, container);
    let line_copy = match &container {
        LineContainer::Container { children } => match &children[0] {
            LineContainer::Token(t) => t.deep_clone(),
            _ => panic!("expected a line"),
        },
        _ => panic!("expected a container"),
    };
    assert_eq!(line_copy.token_spans, vec![0..6, 6..7]);
    assert_eq!(line_copy.line_type, LineType::SubjectLine);
}
