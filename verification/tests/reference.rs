use lex_parser::ir::{NodeType, ParseNode};
use lex_parser::reference::{is_text_token, parse};
use lex_parser::tokens::Token;
use std::ops::Range;

type Pair = (Token, Range<usize>);

fn text(s: &str, start: usize) -> Pair {
    (Token::Text(s.to_string()), start..start + s.len())
}

fn ws(start: usize) -> Pair {
    (Token::Whitespace, start..start + 1)
}

fn nl(start: usize) -> Pair {
    (Token::BlankLine(vec![(Token::Newline, start..start + 1)]), start..start + 1)
}

fn indent(start: usize) -> Pair {
    (Token::Indent(vec![(Token::Indentation, start..start + 4)]), start..start + 4)
}

fn dedent(at: usize) -> Pair {
    (Token::Dedent(vec![]), at..at)
}

fn kinds(nodes: &[ParseNode]) -> Vec<NodeType> {
    nodes.iter().map(|n| n.node_type).collect()
}

#[test]
fn reference_parses_a_paragraph() {
    // "Hello world\n"
    let tokens = vec![text("Hello", 0), ws(5), text("world", 6), nl(11)];
    let doc = parse(tokens.clone(), "Hello world\n").unwrap();
    assert_eq!(doc.node_type, NodeType::Document);
    assert_eq!(kinds(&doc.children), vec![NodeType::Paragraph]);
    assert_eq!(doc.children[0].tokens, tokens);
    assert!(doc.children[0].children.is_empty());
}

#[test]
fn reference_paragraph_spans_several_lines() {
    // "a\nb\n"
    let tokens = vec![text("a", 0), nl(1), text("b", 2), nl(3)];
    let doc = parse(tokens.clone(), "a\nb\n").unwrap();
    assert_eq!(kinds(&doc.children), vec![NodeType::Paragraph]);
    assert_eq!(doc.children[0].tokens, tokens);
}

#[test]
fn reference_blank_line_separates_paragraphs() {
    // "a\n\nb\n"
    let tokens = vec![text("a", 0), nl(1), nl(2), text("b", 3), nl(4)];
    let doc = parse(tokens, "a\n\nb\n").unwrap();
    assert_eq!(kinds(&doc.children), vec![NodeType::Paragraph, NodeType::Paragraph]);
    assert_eq!(doc.children[1].tokens, vec![text("b", 3), nl(4)]);
}

#[test]
fn reference_parses_a_session() {
    // "Title\n\n    Body\n"
    let tokens = vec![
        text("Title", 0),
        nl(5),
        nl(6),
        indent(7),
        text("Body", 11),
        nl(15),
        dedent(16),
    ];
    let doc = parse(tokens, "Title\n\n    Body\n").unwrap();
    assert_eq!(kinds(&doc.children), vec![NodeType::Session]);
    let session = &doc.children[0];
    assert_eq!(session.tokens, vec![text("Title", 0)]);
    assert_eq!(kinds(&session.children), vec![NodeType::Paragraph]);
    assert_eq!(session.children[0].tokens, vec![text("Body", 11), nl(15)]);
}

#[test]
fn reference_parses_a_definition() {
    // "Term:\n    Meaning\n"
    let tokens = vec![
        text("Term", 0),
        (Token::Colon, 4..5),
        nl(5),
        indent(6),
        text("Meaning", 10),
        nl(17),
        dedent(18),
    ];
    let doc = parse(tokens, "Term:\n    Meaning\n").unwrap();
    assert_eq!(kinds(&doc.children), vec![NodeType::Definition]);
    assert_eq!(doc.children[0].tokens, vec![text("Term", 0)]);
    assert_eq!(kinds(&doc.children[0].children), vec![NodeType::Paragraph]);
}

#[test]
fn reference_parses_a_list_of_two_items() {
    // "- a\n- b\n"
    let tokens = vec![
        (Token::Dash, 0..1),
        ws(1),
        text("a", 2),
        nl(3),
        (Token::Dash, 4..5),
        ws(5),
        text("b", 6),
        nl(7),
    ];
    let doc = parse(tokens, "- a\n- b\n").unwrap();
    assert_eq!(kinds(&doc.children), vec![NodeType::List]);
    let list = &doc.children[0];
    assert!(list.tokens.is_empty());
    assert_eq!(kinds(&list.children), vec![NodeType::ListItem, NodeType::ListItem]);
    assert_eq!(list.children[1].tokens, vec![(Token::Dash, 4..5), ws(5), text("b", 6)]);
}

#[test]
fn reference_single_list_line_is_a_paragraph() {
    // "- a\n": a list needs two items
    let tokens = vec![(Token::Dash, 0..1), ws(1), text("a", 2), nl(3)];
    let doc = parse(tokens, "- a\n").unwrap();
    assert_eq!(kinds(&doc.children), vec![NodeType::Paragraph]);
}

#[test]
fn reference_dialog_lines_are_not_a_list() {
    // "- Hi!!\n- Yo?!\n"
    let tokens = vec![
        (Token::Dash, 0..1),
        ws(1),
        text("Hi", 2),
        (Token::ExclamationMark, 4..5),
        (Token::ExclamationMark, 5..6),
        nl(6),
        (Token::Dash, 7..8),
        ws(8),
        text("Yo", 9),
        (Token::QuestionMark, 11..12),
        (Token::ExclamationMark, 12..13),
        nl(13),
    ];
    let doc = parse(tokens, "- Hi!!\n- Yo?!\n").unwrap();
    assert_eq!(kinds(&doc.children), vec![NodeType::Paragraph]);
    assert_eq!(doc.children[0].tokens.len(), 12);
}

#[test]
fn reference_parses_numbered_and_parenthesized_markers() {
    // "1. a\n(2) b\n"
    let tokens = vec![
        (Token::Number("1".to_string()), 0..1),
        (Token::Period, 1..2),
        ws(2),
        text("a", 3),
        nl(4),
        (Token::OpenParen, 5..6),
        (Token::Number("2".to_string()), 6..7),
        (Token::CloseParen, 7..8),
        ws(8),
        text("b", 9),
        nl(10),
    ];
    let doc = parse(tokens, "1. a\n(2) b\n").unwrap();
    assert_eq!(kinds(&doc.children), vec![NodeType::List]);
    assert_eq!(doc.children[0].children.len(), 2);
}

#[test]
fn reference_parses_a_single_line_annotation() {
    // ":: note :: text\n"
    let tokens = vec![
        (Token::LexMarker, 0..2),
        ws(2),
        text("note", 3),
        ws(7),
        (Token::LexMarker, 8..10),
        ws(10),
        text("text", 11),
        nl(15),
    ];
    let doc = parse(tokens, ":: note :: text\n").unwrap();
    assert_eq!(kinds(&doc.children), vec![NodeType::Annotation]);
    let ann = &doc.children[0];
    assert_eq!(ann.tokens, vec![ws(2), text("note", 3), ws(7)]);
    assert_eq!(kinds(&ann.children), vec![NodeType::Paragraph]);
    assert_eq!(ann.children[0].tokens, vec![text("text", 11)]);
}

#[test]
fn reference_parses_a_marker_annotation() {
    // ":: note ::\n"
    let tokens = vec![
        (Token::LexMarker, 0..2),
        ws(2),
        text("note", 3),
        ws(7),
        (Token::LexMarker, 8..10),
        nl(10),
    ];
    let doc = parse(tokens, ":: note ::\n").unwrap();
    assert_eq!(kinds(&doc.children), vec![NodeType::Annotation]);
    assert!(doc.children[0].children.is_empty());
}

#[test]
fn reference_parses_a_block_annotation() {
    // ":: note ::\n    Body\n::\n"
    let tokens = vec![
        (Token::LexMarker, 0..2),
        ws(2),
        text("note", 3),
        ws(7),
        (Token::LexMarker, 8..10),
        nl(10),
        indent(11),
        text("Body", 15),
        nl(19),
        dedent(20),
        (Token::LexMarker, 20..22),
        nl(22),
    ];
    let doc = parse(tokens, ":: note ::\n    Body\n::\n").unwrap();
    assert_eq!(kinds(&doc.children), vec![NodeType::Annotation]);
    assert_eq!(kinds(&doc.children[0].children), vec![NodeType::Paragraph]);
}

#[test]
fn reference_parses_a_verbatim_block() {
    // "Code:\n    x = 1\n:: python ::\n"
    let tokens = vec![
        text("Code", 0),
        (Token::Colon, 4..5),
        nl(5),
        indent(6),
        text("x", 10),
        ws(11),
        (Token::Equals, 12..13),
        ws(13),
        (Token::Number("1".to_string()), 14..15),
        nl(15),
        dedent(16),
        (Token::LexMarker, 16..18),
        ws(18),
        text("python", 19),
        ws(25),
        (Token::LexMarker, 26..28),
        nl(28),
    ];
    let doc = parse(tokens, "Code:\n    x = 1\n:: python ::\n").unwrap();
    assert_eq!(kinds(&doc.children), vec![NodeType::VerbatimBlock]);
    let block = &doc.children[0];
    assert_eq!(
        kinds(&block.children),
        vec![
            NodeType::ForeignBlockSubject,
            NodeType::ForeignBlockContent,
            NodeType::ForeignBlockClosing
        ]
    );
    assert_eq!(block.children[0].tokens, vec![text("Code", 0)]);
    assert_eq!(block.children[1].tokens.len(), 6);
    assert_eq!(block.children[2].tokens, vec![ws(18), text("python", 19), ws(25)]);
}

#[test]
fn reference_verbatim_subjects_must_share_indentation() {
    // Two subject/content pairs whose subjects differ in indentation do not
    // form one block: the first line is read as a paragraph and the block
    // starts at the second subject.
    let tokens = vec![
        text("A", 0),
        (Token::Colon, 1..2),
        nl(2),
        (Token::Indentation, 3..7),
        text("B", 7),
        (Token::Colon, 8..9),
        nl(9),
        (Token::LexMarker, 10..12),
        ws(12),
        text("x", 13),
        ws(14),
        (Token::LexMarker, 15..17),
        nl(17),
    ];
    let doc = parse(tokens, "A:\n    B:\n:: x ::\n").unwrap();
    assert_eq!(kinds(&doc.children), vec![NodeType::Paragraph, NodeType::VerbatimBlock]);
    assert_eq!(doc.children[1].children[0].tokens, vec![(Token::Indentation, 3..7), text("B", 7)]);
}

#[test]
fn reference_empty_stream_fails() {
    assert!(parse(vec![], "").is_err());
}

#[test]
fn reference_lone_marker_fails() {
    let tokens = vec![(Token::LexMarker, 0..2), nl(2)];
    assert!(parse(tokens, "::\n").is_err());
}

#[test]
fn reference_text_tokens() {
    assert!(is_text_token(&Token::Text("a".to_string())));
    assert!(is_text_token(&Token::Colon));
    assert!(is_text_token(&Token::Whitespace));
    assert!(!is_text_token(&Token::LexMarker));
    assert!(!is_text_token(&Token::Newline));
    assert!(!is_text_token(&Token::BlankLine(vec![])));
    assert!(!is_text_token(&Token::Indentation));
}
