use lex_parser::ast::ContentItem;
use lex_parser::declarative_grammar::{parse_with_declarative_grammar, GrammarMatcher, PatternMatch};
use lex_parser::engine::parse_experimental_v2;
use lex_parser::ir::NodeType;
use lex_parser::tokens::{LineContainer, LineToken, LineType, Token};

/// A line of words separated by single spaces, starting at byte `start`,
/// ending with a newline.
fn text_line(text: &str, start: usize, line_type: LineType) -> LineContainer {
    let mut source_tokens = Vec::new();
    let mut token_spans = Vec::new();
    let mut pos = start;
    for (i, word) in text.split(' ').enumerate() {
        if i > 0 {
            source_tokens.push(Token::Whitespace);
            token_spans.push(pos..pos + 1);
            pos += 1;
        }
        source_tokens.push(Token::Text(word.to_string()));
        token_spans.push(pos..pos + word.len());
        pos += word.len();
    }
    source_tokens.push(Token::Newline);
    token_spans.push(pos..pos + 1);
    LineContainer::Token(LineToken { source_tokens, token_spans, line_type })
}

fn blank_line(start: usize) -> LineContainer {
    LineContainer::Token(LineToken {
        source_tokens: vec![Token::Newline],
        token_spans: vec![start..start + 1],
        line_type: LineType::BlankLine,
    })
}

fn container(children: Vec<LineContainer>) -> LineContainer {
    LineContainer::Container { children }
}

fn subject_line(word: &str, start: usize, line_type: LineType) -> LineContainer {
    let end = start + word.len();
    LineContainer::Token(LineToken {
        source_tokens: vec![Token::Text(word.to_string()), Token::Colon, Token::Newline],
        token_spans: vec![start..end, end..end + 1, end + 1..end + 2],
        line_type,
    })
}

#[test]
fn test_grammar_paragraph_of_consecutive_lines() {
    // "Hello world\nSecond line\n"
    let lines = vec![
        text_line("Hello world", 0, LineType::ParagraphLine),
        text_line("Second line", 12, LineType::ParagraphLine),
    ];
    let nodes = parse_with_declarative_grammar(lines, "Hello world\nSecond line\n").unwrap();
    assert_eq!(nodes.len(), 1);
    assert_eq!(nodes[0].node_type, NodeType::Paragraph);
    assert_eq!(nodes[0].tokens.len(), 8);
    assert!(nodes[0].children.is_empty());
}

#[test]
fn test_grammar_definition_and_session() {
    // "Term:\n    body\nTitle:\n\n    text\n"
    let source = "Term:\n    body\nTitle:\n\n    text\n";
    let lines = vec![
        subject_line("Term", 0, LineType::SubjectLine),
        container(vec![text_line("body", 10, LineType::ParagraphLine)]),
        subject_line("Title", 15, LineType::SubjectLine),
        blank_line(22),
        container(vec![text_line("text", 27, LineType::ParagraphLine)]),
    ];
    let nodes = parse_with_declarative_grammar(lines, source).unwrap();
    assert_eq!(nodes.len(), 2);
    assert_eq!(nodes[0].node_type, NodeType::Definition);
    // Colons are left out of a definition subject.
    assert!(nodes[0].tokens.iter().all(|(t, _)| *t != Token::Colon));
    assert_eq!(nodes[0].children.len(), 1);
    assert_eq!(nodes[0].children[0].node_type, NodeType::Paragraph);
    assert_eq!(nodes[1].node_type, NodeType::Session);
    assert_eq!(nodes[1].children.len(), 1);
}

#[test]
fn test_grammar_list_needs_two_items() {
    // "- a\n- b\n" is a list; a single list line is a paragraph.
    let lines = vec![
        text_line("- a", 0, LineType::ListLine),
        text_line("- b", 4, LineType::ListLine),
    ];
    let nodes = parse_with_declarative_grammar(lines, "- a\n- b\n").unwrap();
    assert_eq!(nodes.len(), 1);
    assert_eq!(nodes[0].node_type, NodeType::List);
    assert_eq!(nodes[0].children.len(), 2);
    assert_eq!(nodes[0].children[0].node_type, NodeType::ListItem);

    let single = vec![text_line("- a", 0, LineType::ListLine)];
    let nodes = parse_with_declarative_grammar(single, "- a\n").unwrap();
    assert_eq!(nodes.len(), 1);
    assert_eq!(nodes[0].node_type, NodeType::Paragraph);
}

#[test]
fn test_grammar_list_after_blank_line_with_nested_content() {
    // "\n- a\n    x\n- b\n"
    let lines = vec![
        blank_line(0),
        text_line("- a", 1, LineType::ListLine),
        container(vec![text_line("x", 9, LineType::ParagraphLine)]),
        text_line("- b", 11, LineType::ListLine),
    ];
    let nodes = parse_with_declarative_grammar(lines, "\n- a\n    x\n- b\n").unwrap();
    assert_eq!(nodes.len(), 1);
    assert_eq!(nodes[0].node_type, NodeType::List);
    assert_eq!(nodes[0].children.len(), 2);
    assert_eq!(nodes[0].children[0].children.len(), 1);
    assert!(nodes[0].children[1].children.is_empty());
}

#[test]
fn test_grammar_single_line_annotation() {
    // ":: note :: text\n"
    let line = LineContainer::Token(LineToken {
        source_tokens: vec![
            Token::LexMarker,
            Token::Whitespace,
            Token::Text("note".to_string()),
            Token::Whitespace,
            Token::LexMarker,
            Token::Whitespace,
            Token::Text("text".to_string()),
            Token::Newline,
        ],
        token_spans: vec![0..2, 2..3, 3..7, 7..8, 8..10, 10..11, 11..15, 15..16],
        line_type: LineType::AnnotationStartLine,
    });
    let nodes = parse_with_declarative_grammar(vec![line], ":: note :: text\n").unwrap();
    assert_eq!(nodes.len(), 1);
    assert_eq!(nodes[0].node_type, NodeType::Annotation);
    // Header: the tokens between the markers.
    assert_eq!(nodes[0].tokens.len(), 3);
    assert_eq!(nodes[0].tokens[1].0, Token::Text("note".to_string()));
    // Inline content becomes one paragraph.
    assert_eq!(nodes[0].children.len(), 1);
    assert_eq!(nodes[0].children[0].node_type, NodeType::Paragraph);
    assert_eq!(nodes[0].children[0].tokens.len(), 3);
}

#[test]
fn test_grammar_verbatim_block() {
    // "Code:\n    x\n:: lang ::\n"
    let closing = LineContainer::Token(LineToken {
        source_tokens: vec![
            Token::LexMarker,
            Token::Whitespace,
            Token::Text("lang".to_string()),
            Token::Whitespace,
            Token::LexMarker,
            Token::Newline,
        ],
        token_spans: vec![12..14, 14..15, 15..19, 19..20, 20..22, 22..23],
        line_type: LineType::AnnotationStartLine,
    });
    let lines = vec![
        subject_line("Code", 0, LineType::SubjectLine),
        container(vec![text_line("x", 10, LineType::ParagraphLine)]),
        closing,
    ];
    let nodes = parse_with_declarative_grammar(lines, "Code:\n    x\n:: lang ::\n").unwrap();
    assert_eq!(nodes.len(), 1);
    assert_eq!(nodes[0].node_type, NodeType::VerbatimBlock);
    assert_eq!(nodes[0].children.len(), 3);
    assert_eq!(nodes[0].children[0].node_type, NodeType::ForeignBlockSubject);
    assert_eq!(nodes[0].children[1].node_type, NodeType::ForeignBlockContent);
    assert_eq!(nodes[0].children[1].tokens.len(), 2);
    assert_eq!(nodes[0].children[2].node_type, NodeType::ForeignBlockClosing);
}

#[test]
fn test_grammar_blank_lines_give_no_node() {
    let lines = vec![blank_line(0), blank_line(1)];
    let nodes = parse_with_declarative_grammar(lines, "\n\n").unwrap();
    assert!(nodes.is_empty());
}

#[test]
fn test_try_match_reports_rule_and_range() {
    let lines = vec![
        blank_line(0),
        subject_line("Term", 1, LineType::SubjectLine),
        container(vec![text_line("body", 11, LineType::ParagraphLine)]),
    ];
    match GrammarMatcher::try_match(&lines, 1) {
        Some((PatternMatch::Definition { subject_idx, content_idx }, range)) => {
            assert_eq!((subject_idx, content_idx), (0, 1));
            assert_eq!(range, 1..3);
        }
        other => panic!("Expected a definition, found {:?}", other),
    }
    match GrammarMatcher::try_match(&lines, 0) {
        Some((PatternMatch::BlankLineGroup { start_idx, end_idx }, range)) => {
            assert_eq!((start_idx, end_idx), (0, 0));
            assert_eq!(range, 0..1);
        }
        other => panic!("Expected a blank line group, found {:?}", other),
    }
    assert!(GrammarMatcher::try_match(&lines, 3).is_none());
}

#[test]
fn test_engine_builds_document() {
    let source = "Term:\n    body\n";
    let tree = container(vec![
        subject_line("Term", 0, LineType::SubjectLine),
        container(vec![text_line("body", 10, LineType::ParagraphLine)]),
    ]);
    let doc = parse_experimental_v2(tree, source).unwrap();
    assert_eq!(doc.root.title.as_string(), "root");
    assert_eq!(doc.root.children.len(), 1);
    match &doc.root.children[0] {
        ContentItem::Definition(d) => {
            assert_eq!(d.subject.as_string(), "Term:\n");
            assert_eq!(d.children.len(), 1);
            match &d.children[0] {
                ContentItem::Paragraph(p) => assert_eq!(p.text(), "body"),
                _ => panic!("Expected a paragraph"),
            }
        }
        _ => panic!("Expected a definition"),
    }
}

#[test]
fn test_engine_rejects_single_line() {
    let line = text_line("Hello", 0, LineType::ParagraphLine);
    let result = parse_experimental_v2(line, "Hello\n");
    assert_eq!(result.unwrap_err(), "Expected root container, found single token");
}
