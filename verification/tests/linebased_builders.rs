use lex_parser::ast::ContentItem;
use lex_parser::linebased_builders::{unwrap_annotation, unwrap_list, unwrap_token_to_paragraph};
use lex_parser::tokens::{LineToken, LineType, Token};

fn annotation_line() -> LineToken {
    // ":: note :: text\n"
    LineToken {
        source_tokens: vec![
            Token::LexMarker,
            Token::Whitespace,
            Token::Text("note".to_string()),
            Token::Whitespace,
            Token::LexMarker,
            Token::Whitespace,
            Token::Text("text".to_string()),
            Token::Newline,
        ],
        token_spans: vec![0..2, 2..3, 3..7, 7..8, 8..10, 10..11, 11..15, 15..16],
        line_type: LineType::AnnotationStartLine,
    }
}

#[test]
fn linebased_annotation_label_and_text_are_trimmed() {
    let source = ":: note :: text\n";
    match unwrap_annotation(&annotation_line(), source).unwrap() {
        ContentItem::Annotation(a) => {
            assert_eq!(a.label.value, "note");
            assert!(a.parameters.is_empty());
            assert_eq!(a.children.len(), 1);
            match &a.children[0] {
                ContentItem::Paragraph(p) => {
                    assert_eq!(p.lines.len(), 1);
                    assert_eq!(p.lines[0].content.text, "text");
                }
                other => panic!("Expected paragraph, got {:?}", other),
            }
        }
        other => panic!("Expected annotation, got {:?}", other),
    }
}

#[test]
fn linebased_marker_only_annotation_has_no_children() {
    // ":: note ::\n"
    let token = LineToken {
        source_tokens: vec![
            Token::LexMarker,
            Token::Whitespace,
            Token::Text("note".to_string()),
            Token::Whitespace,
            Token::LexMarker,
            Token::Newline,
        ],
        token_spans: vec![0..2, 2..3, 3..7, 7..8, 8..10, 10..11],
        line_type: LineType::AnnotationStartLine,
    };
    match unwrap_annotation(&token, ":: note ::\n").unwrap() {
        ContentItem::Annotation(a) => {
            assert_eq!(a.label.value, "note");
            assert!(a.children.is_empty());
        }
        other => panic!("Expected annotation, got {:?}", other),
    }
}

#[test]
fn linebased_empty_list_is_refused() {
    assert_eq!(
        unwrap_list(vec![], "").unwrap_err(),
        "Cannot create list with no items".to_string()
    );
}

#[test]
fn linebased_paragraph_from_line() {
    let token = LineToken {
        source_tokens: vec![
            Token::Text("Hello".to_string()),
            Token::Whitespace,
            Token::Text("world".to_string()),
            Token::Newline,
        ],
        token_spans: vec![0..5, 5..6, 6..11, 11..12],
        line_type: LineType::ParagraphLine,
    };
    match unwrap_token_to_paragraph(&token, "Hello world\n").unwrap() {
        ContentItem::Paragraph(p) => {
            assert_eq!(p.lines.len(), 1);
            assert!(p.lines[0].content.text.starts_with("Hello world"));
        }
        other => panic!("Expected paragraph, got {:?}", other),
    }
}

#[test]
fn linebased_annotation_label_and_parameters_between_markers() {
    let source = ":: note k=v :: hi\n";
    let token = LineToken {
        source_tokens: vec![
            Token::LexMarker,
            Token::Whitespace,
            Token::Text("note".to_string()),
            Token::Whitespace,
            Token::Text("k".to_string()),
            Token::Equals,
            Token::Text("v".to_string()),
            Token::Whitespace,
            Token::LexMarker,
            Token::Whitespace,
            Token::Text("hi".to_string()),
            Token::Newline,
        ],
        token_spans: vec![
            0..2, 2..3, 3..7, 7..8, 8..9, 9..10, 10..11, 11..12, 12..14, 14..15, 15..17, 17..18,
        ],
        line_type: LineType::AnnotationStartLine,
    };
    match unwrap_annotation(&token, source).unwrap() {
        ContentItem::Annotation(a) => {
            assert_eq!(a.label.value, "note");
            assert_eq!(a.parameters.len(), 1);
            assert_eq!(a.parameters[0].key, "k");
            assert_eq!(a.parameters[0].value, "v");
            assert_eq!(a.children.len(), 1);
            match &a.children[0] {
                ContentItem::Paragraph(p) => assert_eq!(p.lines[0].content.text, "hi"),
                other => panic!("Expected paragraph, got {:?}", other),
            }
        }
        other => panic!("Expected annotation, got {:?}", other),
    }
}

#[test]
fn linebased_annotation_quoted_and_comma_separated_parameters() {
    // ':: image type=jpg, alt="a sea" ::'
    let source = ":: image type=jpg, alt=\"a sea\" ::\n";
    let token = LineToken {
        source_tokens: vec![
            Token::LexMarker,
            Token::Text("image type=jpg, alt=\"a sea\"".to_string()),
            Token::LexMarker,
            Token::Newline,
        ],
        token_spans: vec![0..2, 2..31, 31..33, 33..34],
        line_type: LineType::AnnotationStartLine,
    };
    match unwrap_annotation(&token, source).unwrap() {
        ContentItem::Annotation(a) => {
            assert_eq!(a.label.value, "image");
            let params: Vec<(&str, &str)> =
                a.parameters.iter().map(|p| (p.key.as_str(), p.value.as_str())).collect();
            assert_eq!(params, vec![("type", "jpg"), ("alt", "a sea")]);
            assert!(a.children.is_empty());
        }
        other => panic!("Expected annotation, got {:?}", other),
    }
}
