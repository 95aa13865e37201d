use lex_parser::config::AnalysisSpec;
use lex_parser::processor::{plan_output, AstRender, OutputPlan};
use lex_parser::processor::position_from_extras;
use lex_parser::processor::{available_formats, OutputFormat, ProcessingError, ProcessingSpec, ProcessingStage};

#[test]
fn test_processing_spec_parsing() {
    let spec = ProcessingSpec::from_string("token-simple").unwrap();
    assert_eq!(spec.stage, ProcessingStage::Token);
    assert_eq!(spec.format, OutputFormat::Simple);

    let spec = ProcessingSpec::from_string("token-json").unwrap();
    assert_eq!(spec.stage, ProcessingStage::Token);
    assert_eq!(spec.format, OutputFormat::Json);

    assert!(ProcessingSpec::from_string("invalid").is_err());
    assert!(ProcessingSpec::from_string("token-invalid").is_err());
    assert!(ProcessingSpec::from_string("invalid-simple").is_err());
}



#[test]
fn test_available_formats() {
    let formats = available_formats();
    assert!(formats.contains(&"token-simple".to_string()));
    assert!(formats.contains(&"token-json".to_string()));
}

#[test]
fn test_processing_spec_ast_formats() {
    let spec = ProcessingSpec::from_string("ast-linebased-tag").unwrap();
    assert_eq!(spec.stage, ProcessingStage::Ast);
    assert_eq!(spec.format, OutputFormat::AstLinebasedTag);
    let spec = ProcessingSpec::from_string("token-raw-json").unwrap();
    assert_eq!(spec.format, OutputFormat::RawJson);
}

#[test]
fn test_processing_spec_errors() {
    assert_eq!(
        ProcessingSpec::from_string("invalid"),
        Err(ProcessingError::InvalidFormat("invalid".to_string()))
    );
    assert_eq!(
        ProcessingSpec::from_string("invalid-simple"),
        Err(ProcessingError::InvalidStage("invalid".to_string()))
    );
    assert_eq!(
        ProcessingSpec::from_string("token-xml"),
        Err(ProcessingError::InvalidFormatType("xml".to_string()))
    );
    assert_eq!(
        ProcessingSpec::from_string("token-bogus-name"),
        Err(ProcessingError::InvalidFormatType("bogus-name".to_string()))
    );
    assert_eq!(
        ProcessingSpec::from_string("token-tag"),
        Err(ProcessingError::InvalidFormatType(
            "Format 'tag' only works with AST stage".to_string()
        ))
    );
    assert_eq!(
        ProcessingSpec::from_string("ast-simple"),
        Err(ProcessingError::InvalidFormatType(
            "Format 'Simple' not supported for AST stage (only 'tag', 'treeviz', 'position', 'linebased-tag', and 'linebased-treeviz' are supported)".to_string()
        ))
    );
}

#[test]
fn test_every_available_format_parses_back() {
    let formats = available_formats();
    let specs = ProcessingSpec::available_specs();
    assert_eq!(formats.len(), specs.len());
    assert_eq!(formats.len(), 11);
    for (f, s) in formats.iter().zip(specs.iter()) {
        assert_eq!(ProcessingSpec::from_string(f).unwrap(), *s);
    }
    assert_eq!(formats[0], "token-simple");
    assert_eq!(formats[10], "ast-linebased-treeviz");
}

#[test]
fn test_processing_error_messages() {
    assert_eq!(ProcessingError::FileNotFound("a.lex".to_string()).message(), "File not found: a.lex");
    assert_eq!(ProcessingError::InvalidStage("x".to_string()).message(), "Invalid stage: x");
    assert_eq!(ProcessingError::IoError("boom".to_string()).message(), "IO error: boom");
}

#[test]
fn processor_position_from_extras() {
    let p = position_from_extras(Some("3"), Some("14")).unwrap();
    assert_eq!((p.line, p.column), (3, 14));
    let e = position_from_extras(None, Some("1")).unwrap_err();
    assert_eq!(e, ProcessingError::InvalidFormatType("Missing or invalid 'line' extra".to_string()));
    let e = position_from_extras(Some("x"), Some("1")).unwrap_err();
    assert_eq!(e, ProcessingError::InvalidFormatType("Missing or invalid 'line' extra".to_string()));
    let e = position_from_extras(Some("2"), Some("-1")).unwrap_err();
    assert_eq!(e, ProcessingError::InvalidFormatType("Missing or invalid 'column' extra".to_string()));
    let e = position_from_extras(Some("2"), None).unwrap_err();
    assert_eq!(e, ProcessingError::InvalidFormatType("Missing or invalid 'column' extra".to_string()));
}

#[test]
fn test_plan_output_dispatch() {
    let spec = |s: &str| ProcessingSpec::from_string(s).unwrap();
    assert_eq!(plan_output(&spec("token-line"), None, None), OutputPlan::LineTokens);
    assert_eq!(plan_output(&spec("token-tree"), None, None), OutputPlan::LineTree);
    assert_eq!(
        plan_output(&spec("token-json"), None, None),
        OutputPlan::Tokens(OutputFormat::Json)
    );
    assert_eq!(
        plan_output(&spec("ast-linebased-tag"), None, None),
        OutputPlan::Ast { analyzer: AnalysisSpec::Linebased, render: Ok(AstRender::Tag) }
    );
    assert_eq!(
        plan_output(&spec("ast-treeviz"), None, None),
        OutputPlan::Ast { analyzer: AnalysisSpec::Reference, render: Ok(AstRender::Treeviz) }
    );
    match plan_output(&spec("ast-position"), Some("3"), Some("7")) {
        OutputPlan::Ast { analyzer: AnalysisSpec::Reference, render: Ok(AstRender::Position(p)) } => {
            assert_eq!((p.line, p.column), (3, 7));
        }
        other => panic!("unexpected plan {:?}", other),
    }
    assert_eq!(
        plan_output(&spec("ast-position"), Some("3"), None),
        OutputPlan::Ast {
            analyzer: AnalysisSpec::Reference,
            render: Err(ProcessingError::InvalidFormatType("Missing or invalid 'column' extra".to_string())),
        }
    );
    let odd = ProcessingSpec { stage: ProcessingStage::Ast, format: OutputFormat::Json };
    assert_eq!(
        plan_output(&odd, None, None),
        OutputPlan::Ast {
            analyzer: AnalysisSpec::Reference,
            render: Err(ProcessingError::InvalidFormatType("Unsupported AST format: Json".to_string())),
        }
    );
}
