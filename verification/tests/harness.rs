use lex_parser::adapters::{adapt_reference_parser, flat_to_token_stream};
use lex_parser::ast::Document;
use lex_parser::harness::{
    compare_parser_results, content_items_match, documents_match, get_first_annotation,
    get_first_definition, get_first_list, get_first_paragraph, get_first_session, get_first_verbatim,
    paragraph_text_contains, paragraph_text_starts_with,
};
use lex_parser::location::compute_byte_range_bounds;
use lex_parser::tokens::Token;
use lex_parser::harness::{ElementSourceError, ElementType, Parser};
use lex_parser::loader::Parser as LoaderParser;

#[test]
fn test_element_type_dir_names() {
    assert_eq!(ElementType::Paragraph.dir_name(), "paragraph");
    assert_eq!(ElementType::List.dir_name(), "list");
    assert_eq!(ElementType::Session.dir_name(), "session");
}

#[test]
fn test_harness_test_parser_config_names() {
    assert_eq!(Parser::Reference.config_name(), "default");
    assert_eq!(Parser::Linebased.config_name(), "linebased");
}

#[test]
fn loader_test_parser_config_names() {
    assert_eq!(LoaderParser::Linebased.config_name(), "linebased");
    assert_eq!(LoaderParser::Linebased.token_config_name(), "tokens-indentation");
}

#[test]
fn test_element_type_prefixes() {
    assert_eq!(ElementType::Definition.prefix(), "definition");
    assert_eq!(ElementType::Annotation.prefix(), "annotation");
    assert_eq!(ElementType::Verbatim.prefix(), "verbatim");
}

#[test]
fn test_element_source_error_messages() {
    assert_eq!(
        ElementSourceError::FileNotFound("x.lex".to_string()).message(),
        "File not found: x.lex"
    );
    assert_eq!(
        ElementSourceError::InvalidElement("bad".to_string()).message(),
        "Invalid element: bad"
    );
}

fn line_end(start: usize) -> (Token, std::ops::Range<usize>) {
    (Token::BlankLine(vec![(Token::Newline, start..start + 1)]), start..start + 1)
}

fn paragraph_doc() -> Document {
    let tokens = vec![
        (Token::Text("Hello".to_string()), 0..5),
        (Token::Whitespace, 5..6),
        (Token::Text("world".to_string()), 6..11),
        line_end(11),
    ];
    adapt_reference_parser(flat_to_token_stream(tokens), "Hello world\n").unwrap()
}

fn session_doc(title: &str) -> Document {
    // "<title>\n\n    Body\n"
    let n = title.len();
    let source = format!("{}\n\n    Body\n", title);
    let tokens = vec![
        (Token::Text(title.to_string()), 0..n),
        line_end(n),
        line_end(n + 1),
        (Token::Indent(vec![(Token::Indentation, n + 2..n + 6)]), n + 2..n + 6),
        (Token::Text("Body".to_string()), n + 6..n + 10),
        line_end(n + 10),
        (Token::Dedent(vec![]), n + 11..n + 11),
    ];
    adapt_reference_parser(flat_to_token_stream(tokens), &source).unwrap()
}

#[test]
fn harness_documents_match_by_structure() {
    assert!(documents_match(&paragraph_doc(), &paragraph_doc()));
    assert!(documents_match(&session_doc("Title"), &session_doc("Title")));
    assert!(!documents_match(&session_doc("Title"), &session_doc("Other")));
    assert!(!documents_match(&paragraph_doc(), &session_doc("Title")));
}

#[test]
fn harness_content_items_match_compares_kinds() {
    let a = paragraph_doc();
    let b = session_doc("Title");
    assert!(content_items_match(&a.root.children[0], &a.root.children[0]));
    assert!(!content_items_match(&a.root.children[0], &b.root.children[0]));
}

#[test]
fn harness_compare_parser_results_names_the_mismatch() {
    let results = vec![
        (Parser::Reference, paragraph_doc()),
        (Parser::Reference, paragraph_doc()),
        (Parser::Linebased, session_doc("Title")),
    ];
    assert_eq!(
        compare_parser_results(&results),
        Err("AST mismatch between Reference and Linebased parsers".to_string())
    );
    let same = vec![(Parser::Reference, paragraph_doc()), (Parser::Linebased, paragraph_doc())];
    assert_eq!(compare_parser_results(&same), Ok(()));
    assert_eq!(compare_parser_results(&[]), Ok(()));
}

#[test]
fn harness_get_first_elements() {
    let doc = paragraph_doc();
    assert!(get_first_paragraph(&doc).is_some());
    assert!(get_first_session(&doc).is_none());
    assert!(get_first_list(&doc).is_none());
    assert!(get_first_definition(&doc).is_none());
    assert!(get_first_annotation(&doc).is_none());
    assert!(get_first_verbatim(&doc).is_none());
    let s = session_doc("Title");
    assert_eq!(get_first_session(&s).unwrap().label(), "Title");
}

#[test]
fn harness_paragraph_text_checks() {
    let doc = paragraph_doc();
    let p = get_first_paragraph(&doc).unwrap();
    assert!(paragraph_text_starts_with(p, "Hello"));
    assert!(!paragraph_text_starts_with(p, "world"));
    assert!(paragraph_text_contains(p, "lo wo"));
    assert!(!paragraph_text_contains(p, "xyz"));
}

#[test]
fn location_byte_range_bounds() {
    assert_eq!(compute_byte_range_bounds(&[]), 0..0);
    assert_eq!(compute_byte_range_bounds(&[5..9, 2..4, 6..12]), 2..12);
}
