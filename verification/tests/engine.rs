use lex_parser::ast::ContentItem;
use lex_parser::engine::parse_experimental_v2;
use lex_parser::to_line_tokens::classify_line_tokens;
use lex_parser::tokens::{LineContainer, LineToken, LineType, Token};

// The line-based lexer turns a source into a container of classified lines,
// with nested containers for indented blocks; each test writes that
// container out for its source text.

fn line(tokens: Vec<(Token, std::ops::Range<usize>)>, line_type: LineType) -> LineContainer {
    let (source_tokens, token_spans) = tokens.into_iter().unzip();
    LineContainer::Token(LineToken { source_tokens, token_spans, line_type })
}

fn text(s: &str, start: usize) -> (Token, std::ops::Range<usize>) {
    (Token::Text(s.to_string()), start..start + s.len())
}

#[test]
fn test_parse_simple_paragraphs() {
    let source = "Simple paragraph\n";
    let container = LineContainer::Container {
        children: vec![line(
            vec![
                text("Simple", 0),
                (Token::Whitespace, 6..7),
                text("paragraph", 7),
                (Token::Newline, 16..17),
            ],
            LineType::ParagraphLine,
        )],
    };

    let result = parse_experimental_v2(container, source);
    assert!(result.is_ok(), "Parser should succeed");

    let doc = result.unwrap();
    // Should have 1 paragraph with 1 line
    assert!(!doc.root.children.is_empty(), "Should have content");
    assert!(matches!(doc.root.children[0], ContentItem::Paragraph(_)));
}

#[test]
fn test_parse_definition() {
    let source = "Definition:\n    This is the definition content\n";
    let container = LineContainer::Container {
        children: vec![
            line(
                vec![text("Definition", 0), (Token::Colon, 10..11), (Token::Newline, 11..12)],
                LineType::SubjectLine,
            ),
            LineContainer::Container {
                children: vec![line(
                    vec![
                        text("This", 16),
                        (Token::Whitespace, 20..21),
                        text("is", 21),
                        (Token::Whitespace, 23..24),
                        text("the", 24),
                        (Token::Whitespace, 27..28),
                        text("definition", 28),
                        (Token::Whitespace, 38..39),
                        text("content", 39),
                        (Token::Newline, 46..47),
                    ],
                    LineType::ParagraphLine,
                )],
            },
        ],
    };

    let result = parse_experimental_v2(container, source);
    assert!(result.is_ok(), "Parser should succeed");

    let doc = result.unwrap();
    let has_definition = doc
        .root
        .children
        .iter()
        .any(|item| matches!(item, ContentItem::Definition(_)));
    assert!(has_definition, "Should contain Definition node");
}

#[test]
fn test_parse_session() {
    let source = "Session:\n\n    Session content here\n";
    let container = LineContainer::Container {
        children: vec![
            line(
                vec![text("Session", 0), (Token::Colon, 7..8), (Token::Newline, 8..9)],
                LineType::SubjectLine,
            ),
            line(vec![(Token::Newline, 9..10)], LineType::BlankLine),
            LineContainer::Container {
                children: vec![line(
                    vec![
                        text("Session", 14),
                        (Token::Whitespace, 21..22),
                        text("content", 22),
                        (Token::Whitespace, 29..30),
                        text("here", 30),
                        (Token::Newline, 34..35),
                    ],
                    LineType::ParagraphLine,
                )],
            },
        ],
    };

    let result = parse_experimental_v2(container, source);
    assert!(result.is_ok(), "Parser should succeed");

    let doc = result.unwrap();
    // Should have Session at root level (with blank line before content)
    let has_session = doc
        .root
        .children
        .iter()
        .any(|item| matches!(item, ContentItem::Session(_)));
    assert!(has_session, "Should contain a Session node");
}

#[test]
fn test_parse_annotation() {
    let source = ":: note ::\n";
    let container = LineContainer::Container {
        children: vec![line(
            vec![
                (Token::LexMarker, 0..2),
                (Token::Whitespace, 2..3),
                text("note", 3),
                (Token::Whitespace, 7..8),
                (Token::LexMarker, 8..10),
                (Token::Newline, 10..11),
            ],
            LineType::AnnotationStartLine,
        )],
    };

    let result = parse_experimental_v2(container, source);
    assert!(result.is_ok(), "Parser should succeed");

    let doc = result.unwrap();
    let has_annotation = doc
        .root
        .children
        .iter()
        .any(|item| matches!(item, ContentItem::Annotation(_)));
    assert!(has_annotation, "Should contain an Annotation node");
}

fn classified(tokens: Vec<(Token, std::ops::Range<usize>)>) -> LineContainer {
    let (source_tokens, token_spans): (Vec<Token>, Vec<std::ops::Range<usize>>) =
        tokens.into_iter().unzip();
    let line_type = classify_line_tokens(&source_tokens);
    LineContainer::Token(LineToken { source_tokens, token_spans, line_type })
}

#[test]
fn test_annotations_combined_trifecta() {
    // Test annotations combined with paragraphs, lists, and sessions
    let source = r#"Document with annotations and trifecta

:: info ::

Paragraph before session.

1. Session with annotation inside

    :: note author="system" ::
        This is an annotated note within a session
    ::

    - List item 1
    - List item 2

    Another paragraph in session.

:: warning severity=high ::
    - Item in annotated warning
    - Important item
::

Final paragraph.
"#;
    let container = LineContainer::Container {
        children: vec![
            classified(vec![text("Document", 0), (Token::Whitespace, 8..9), text("with", 9), (Token::Whitespace, 13..14), text("annotations", 14), (Token::Whitespace, 25..26), text("and", 26), (Token::Whitespace, 29..30), text("trifecta", 30), (Token::Newline, 38..39)]),
            line(vec![(Token::Newline, 39..40)], LineType::BlankLine),
            classified(vec![(Token::LexMarker, 40..42), (Token::Whitespace, 42..43), text("info", 43), (Token::Whitespace, 47..48), (Token::LexMarker, 48..50), (Token::Newline, 50..51)]),
            line(vec![(Token::Newline, 51..52)], LineType::BlankLine),
            classified(vec![text("Paragraph", 52), (Token::Whitespace, 61..62), text("before", 62), (Token::Whitespace, 68..69), text("session", 69), (Token::Period, 76..77), (Token::Newline, 77..78)]),
            line(vec![(Token::Newline, 78..79)], LineType::BlankLine),
            classified(vec![(Token::Number("1".to_string()), 79..80), (Token::Period, 80..81), (Token::Whitespace, 81..82), text("Session", 82), (Token::Whitespace, 89..90), text("with", 90), (Token::Whitespace, 94..95), text("annotation", 95), (Token::Whitespace, 105..106), text("inside", 106), (Token::Newline, 112..113)]),
            line(vec![(Token::Newline, 113..114)], LineType::BlankLine),
            LineContainer::Container {
                children: vec![
                    classified(vec![(Token::LexMarker, 118..120), (Token::Whitespace, 120..121), text("note", 121), (Token::Whitespace, 125..126), text("author", 126), (Token::Equals, 132..133), (Token::Quote, 133..134), text("system", 134), (Token::Quote, 140..141), (Token::Whitespace, 141..142), (Token::LexMarker, 142..144), (Token::Newline, 144..145)]),
                    LineContainer::Container {
                        children: vec![
                            classified(vec![text("This", 153), (Token::Whitespace, 157..158), text("is", 158), (Token::Whitespace, 160..161), text("an", 161), (Token::Whitespace, 163..164), text("annotated", 164), (Token::Whitespace, 173..174), text("note", 174), (Token::Whitespace, 178..179), text("within", 179), (Token::Whitespace, 185..186), text("a", 186), (Token::Whitespace, 187..188), text("session", 188), (Token::Newline, 195..196)]),
                        ],
                    },
                    classified(vec![(Token::LexMarker, 200..202), (Token::Newline, 202..203)]),
                    line(vec![(Token::Newline, 203..204)], LineType::BlankLine),
                    classified(vec![(Token::Dash, 208..209), (Token::Whitespace, 209..210), text("List", 210), (Token::Whitespace, 214..215), text("item", 215), (Token::Whitespace, 219..220), (Token::Number("1".to_string()), 220..221), (Token::Newline, 221..222)]),
                    classified(vec![(Token::Dash, 226..227), (Token::Whitespace, 227..228), text("List", 228), (Token::Whitespace, 232..233), text("item", 233), (Token::Whitespace, 237..238), (Token::Number("2".to_string()), 238..239), (Token::Newline, 239..240)]),
                    line(vec![(Token::Newline, 240..241)], LineType::BlankLine),
                    classified(vec![text("Another", 245), (Token::Whitespace, 252..253), text("paragraph", 253), (Token::Whitespace, 262..263), text("in", 263), (Token::Whitespace, 265..266), text("session", 266), (Token::Period, 273..274), (Token::Newline, 274..275)]),
                    line(vec![(Token::Newline, 275..276)], LineType::BlankLine),
                ],
            },
            classified(vec![(Token::LexMarker, 276..278), (Token::Whitespace, 278..279), text("warning", 279), (Token::Whitespace, 286..287), text("severity", 287), (Token::Equals, 295..296), text("high", 296), (Token::Whitespace, 300..301), (Token::LexMarker, 301..303), (Token::Newline, 303..304)]),
            LineContainer::Container {
                children: vec![
                    classified(vec![(Token::Dash, 308..309), (Token::Whitespace, 309..310), text("Item", 310), (Token::Whitespace, 314..315), text("in", 315), (Token::Whitespace, 317..318), text("annotated", 318), (Token::Whitespace, 327..328), text("warning", 328), (Token::Newline, 335..336)]),
                    classified(vec![(Token::Dash, 340..341), (Token::Whitespace, 341..342), text("Important", 342), (Token::Whitespace, 351..352), text("item", 352), (Token::Newline, 356..357)]),
                ],
            },
            classified(vec![(Token::LexMarker, 357..359), (Token::Newline, 359..360)]),
            line(vec![(Token::Newline, 360..361)], LineType::BlankLine),
            classified(vec![text("Final", 361), (Token::Whitespace, 366..367), text("paragraph", 367), (Token::Period, 376..377), (Token::Newline, 377..378)]),
        ],
    };

    let doc = parse_experimental_v2(container, source).expect("Parser failed");

    // Verify mixed content
    let has_annotations = doc
        .root
        .children
        .iter()
        .any(|item| matches!(item, ContentItem::Annotation(_)));
    let has_paragraphs = doc
        .root
        .children
        .iter()
        .any(|item| matches!(item, ContentItem::Paragraph(_)));
    let has_sessions = doc
        .root
        .children
        .iter()
        .any(|item| matches!(item, ContentItem::Session(_)));

    assert!(has_annotations, "Should contain annotations");
    assert!(has_paragraphs, "Should contain paragraphs");
    assert!(has_sessions, "Should contain sessions");
}

#[test]
fn engine_annotation_block_header_is_between_the_markers() {
    let source = ":: note k=v ::\n    body\n::\n";
    let container = LineContainer::Container {
        children: vec![
            line(
                vec![
                    (Token::LexMarker, 0..2),
                    (Token::Whitespace, 2..3),
                    text("note", 3),
                    (Token::Whitespace, 7..8),
                    text("k", 8),
                    (Token::Equals, 9..10),
                    text("v", 10),
                    (Token::Whitespace, 11..12),
                    (Token::LexMarker, 12..14),
                    (Token::Newline, 14..15),
                ],
                LineType::AnnotationStartLine,
            ),
            LineContainer::Container {
                children: vec![line(
                    vec![text("body", 19), (Token::Newline, 23..24)],
                    LineType::ParagraphLine,
                )],
            },
            line(
                vec![(Token::LexMarker, 24..26), (Token::Newline, 26..27)],
                LineType::AnnotationEndLine,
            ),
        ],
    };
    let doc = parse_experimental_v2(container, source).unwrap();
    match &doc.root.children[0] {
        ContentItem::Annotation(a) => {
            assert_eq!(a.label.value, "note");
            assert_eq!(a.parameters.len(), 1);
            assert_eq!((a.parameters[0].key.as_str(), a.parameters[0].value.as_str()), ("k", "v"));
            assert_eq!(a.children.len(), 1);
        }
        other => panic!("Expected annotation, got {:?}", other),
    }
}
