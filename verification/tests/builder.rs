use lex_parser::mapper::{StreamMapper, TransformationError};
use lex_parser::pipeline::{Pipeline, PipelineOutput};
use lex_parser::stream::TokenStream;
use lex_parser::tokens::Token;
use std::ops::Range as ByteRange;

// Dummy mapper for testing - counts tokens
struct TokenCounterMapper {
    count: usize,
}

impl TokenCounterMapper {
    fn new() -> Self {
        Self { count: 0 }
    }
}

impl StreamMapper for TokenCounterMapper {
    fn map_flat(
        &mut self,
        tokens: Vec<(Token, ByteRange<usize>)>,
    ) -> Result<TokenStream, TransformationError> {
        self.count += tokens.len();
        Ok(TokenStream::Flat(tokens))
    }
}

// Dummy mapper that converts to uppercase
struct UppercaseMapper;

impl StreamMapper for UppercaseMapper {
    fn map_flat(
        &mut self,
        tokens: Vec<(Token, ByteRange<usize>)>,
    ) -> Result<TokenStream, TransformationError> {
        let transformed = tokens
            .into_iter()
            .map(|(token, range)| {
                let new_token = match token {
                    Token::Text(s) => Token::Text(s.to_uppercase()),
                    other => other,
                };
                (new_token, range)
            })
            .collect();
        Ok(TokenStream::Flat(transformed))
    }
}

// Dummy mapper that fails
struct FailingMapper;

impl StreamMapper for FailingMapper {
    fn map_flat(
        &mut self,
        _tokens: Vec<(Token, ByteRange<usize>)>,
    ) -> Result<TokenStream, TransformationError> {
        Err(TransformationError::Error("Intentional failure".to_string()))
    }
}

fn hello_tokens() -> Vec<(Token, ByteRange<usize>)> {
    vec![
        (Token::Text("hello".to_string()), 0..5),
        (Token::Whitespace, 5..6),
        (Token::Text("world".to_string()), 6..11),
    ]
}

#[test]
fn test_pipeline_new() {
    let pipeline = Pipeline::new();
    assert_eq!(pipeline.transformation_count(), 0);
}

#[test]
fn builder_test_pipeline_default() {
    let pipeline = Pipeline::default();
    assert_eq!(pipeline.transformation_count(), 0);
}

#[test]
fn test_pipeline_add_transformation() {
    let pipeline = Pipeline::new()
        .add_transformation(TokenCounterMapper::new())
        .add_transformation(UppercaseMapper);

    assert_eq!(pipeline.transformation_count(), 2);
}

#[test]
fn test_pipeline_builder_pattern() {
    // Verify builder pattern works smoothly
    let pipeline = Pipeline::new()
        .add_transformation(TokenCounterMapper::new())
        .add_transformation(UppercaseMapper)
        .add_transformation(TokenCounterMapper::new());

    assert_eq!(pipeline.transformation_count(), 3);
}

// The pipeline takes the tokens the tokenizer makes of the source; each test
// writes them out for its source text.

fn hello_only_tokens() -> Vec<(Token, ByteRange<usize>)> {
    // "hello"
    vec![(Token::Text("hello".to_string()), 0..5)]
}

#[test]
fn test_pipeline_run_empty() {
    // Empty pipeline should just hand the tokens of "hello world" back
    let mut pipeline = Pipeline::new();
    let result = pipeline.run(hello_tokens());

    assert!(result.is_ok());
    match result.unwrap() {
        PipelineOutput::Tokens(TokenStream::Flat(tokens)) => {
            assert!(!tokens.is_empty());
            assert!(tokens.len() >= 3);
        }
        _ => panic!("Expected Tokens output with Flat stream from empty pipeline"),
    }
}

#[test]
fn test_pipeline_run_single_transformation() {
    let mut pipeline = Pipeline::new().add_transformation(UppercaseMapper);

    let result = pipeline.run(hello_only_tokens());

    assert!(result.is_ok());
    match result.unwrap() {
        PipelineOutput::Tokens(TokenStream::Flat(tokens)) => {
            let text_tokens: Vec<_> = tokens
                .iter()
                .filter_map(|(token, _)| match token {
                    Token::Text(s) => Some(s.clone()),
                    _ => None,
                })
                .collect();

            assert!(!text_tokens.is_empty());
            assert_eq!(text_tokens[0], "HELLO");
        }
        _ => panic!("Expected Tokens output with Flat stream"),
    }
}

#[test]
fn test_pipeline_run_multiple_transformations() {
    // Chain counter and uppercase
    let mut pipeline = Pipeline::new()
        .add_transformation(TokenCounterMapper::new())
        .add_transformation(UppercaseMapper);

    let result = pipeline.run(hello_tokens());

    assert!(result.is_ok());
    match result.unwrap() {
        PipelineOutput::Tokens(TokenStream::Flat(tokens)) => {
            let has_uppercase = tokens.iter().any(|(token, _)| match token {
                Token::Text(s) => s.chars().any(|c| c.is_uppercase()),
                _ => false,
            });
            assert!(has_uppercase, "Should have uppercase text");
            assert_eq!(tokens[2].0, Token::Text("WORLD".to_string()));
            assert_eq!(tokens[2].1, 6..11);
        }
        _ => panic!("Expected Tokens output with Flat stream"),
    }
}

#[test]
fn test_pipeline_run_failure() {
    let mut pipeline = Pipeline::new().add_transformation(FailingMapper);

    let result = pipeline.run(hello_only_tokens());

    assert!(result.is_err());
    match result.unwrap_err() {
        TransformationError::Error(msg) => {
            assert_eq!(msg, "Intentional failure");
        }
    }
}

#[test]
fn test_pipeline_run_empty_source() {
    // "" has no tokens
    let mut pipeline = Pipeline::new();
    let result = pipeline.run(vec![]);

    assert!(result.is_ok());
    match result.unwrap() {
        PipelineOutput::Tokens(TokenStream::Flat(tokens)) => {
            assert!(tokens.is_empty() || tokens.len() <= 1);
        }
        _ => panic!("Expected Tokens output with Flat stream"),
    }
}

#[test]
fn test_pipeline_preserves_token_ranges() {
    let mut pipeline = Pipeline::new();
    let result = pipeline.run(hello_only_tokens());

    assert!(result.is_ok());
    match result.unwrap() {
        PipelineOutput::Tokens(TokenStream::Flat(tokens)) => {
            for (_, range) in tokens {
                assert!(range.start <= range.end);
                assert!(range.end <= "hello".len());
            }
        }
        _ => panic!("Expected Tokens output with Flat stream"),
    }
}

#[test]
fn test_pipeline_run_tokens_unchanged_without_transformations() {
    let mut pipeline = Pipeline::new();
    match pipeline.run(hello_tokens()).unwrap() {
        PipelineOutput::Tokens(TokenStream::Flat(tokens)) => assert_eq!(tokens, hello_tokens()),
        _ => panic!("Expected flat tokens"),
    }
}

#[test]
fn test_pipeline_run_stops_at_failure() {
    let mut pipeline = Pipeline::new()
        .add_transformation(FailingMapper)
        .add_transformation(UppercaseMapper);
    let result = pipeline.run(hello_tokens());
    assert_eq!(
        result.unwrap_err(),
        TransformationError::Error("Intentional failure".to_string())
    );
}
