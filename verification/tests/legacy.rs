use lex_parser::legacy::LexPipeline;

#[test]
fn test_pipeline_creation() {
    let pipeline = LexPipeline::new("indentation", "reference");
    assert_eq!(pipeline.lexer_name(), "indentation");
    assert_eq!(pipeline.parser_name(), "reference");
}

#[test]
fn legacy_orchestration_test_pipeline_default() {
    let pipeline = LexPipeline::default();
    assert_eq!(pipeline.lexer_name(), "indentation");
    assert_eq!(pipeline.parser_name(), "reference");
}

#[test]
fn test_pipeline_default_pipeline() {
    let pipeline = LexPipeline::default_pipeline();
    assert_eq!(pipeline.lexer_name(), "indentation");
    assert_eq!(pipeline.parser_name(), "reference");
}

#[test]
fn test_pipeline_available_lexers() {
    let lexers = LexPipeline::available_lexers();
    assert!(!lexers.is_empty());
    assert!(lexers.contains(&"indentation".to_string()));
    assert!(lexers.contains(&"linebased".to_string()));
}

#[test]
fn test_pipeline_available_parsers() {
    let parsers = LexPipeline::available_parsers();
    assert!(!parsers.is_empty());
    assert!(parsers.contains(&"reference".to_string()));
    assert!(parsers.contains(&"linebased".to_string()));
}

#[test]
fn test_pipeline_available_configurations() {
    let configs = LexPipeline::available_configurations();
    // Should have at least indentation+reference, indentation+linebased,
    // linebased+reference, linebased+linebased
    assert!(configs.len() >= 4);

    // Check some valid combinations exist
    assert!(configs.contains(&("indentation".to_string(), "reference".to_string())));
    assert!(configs.contains(&("indentation".to_string(), "linebased".to_string())));
}

#[test]
fn test_pipeline_clone() {
    let original = LexPipeline::new("indentation", "reference");
    let cloned = original.clone();

    assert_eq!(cloned.lexer_name(), original.lexer_name());
    assert_eq!(cloned.parser_name(), original.parser_name());
}

#[test]
fn test_available_configurations_pair_every_lexer_with_every_parser() {
    let configs = LexPipeline::available_configurations();
    assert_eq!(configs.len(), 4);
    for lexer in LexPipeline::available_lexers() {
        for parser in LexPipeline::available_parsers() {
            assert!(configs.contains(&(lexer.clone(), parser.clone())));
        }
    }
}
