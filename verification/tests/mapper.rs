use lex_parser::mapper::{walk_stream, StreamMapper, TransformationError};
use lex_parser::stream::{TokenStream, TokenStreamNode};
use lex_parser::tokens::Token;
use std::ops::Range as ByteRange;

// Test mapper that counts tokens
struct TokenCounter {
    flat_count: usize,
    node_count: usize,
}

impl StreamMapper for TokenCounter {
    fn map_flat(
        &mut self,
        tokens: Vec<(Token, ByteRange<usize>)>,
    ) -> Result<TokenStream, TransformationError> {
        self.flat_count += tokens.len();
        Ok(TokenStream::Flat(tokens))
    }

    fn enter_node(
        &mut self,
        node: TokenStreamNode,
    ) -> Result<TokenStreamNode, TransformationError> {
        self.node_count += 1;
        Ok(node)
    }
}

// Test mapper that transforms text tokens
struct TextTransformer;

impl StreamMapper for TextTransformer {
    fn map_flat(
        &mut self,
        tokens: Vec<(Token, ByteRange<usize>)>,
    ) -> Result<TokenStream, TransformationError> {
        let transformed: Vec<_> = tokens
            .into_iter()
            .map(|(token, range)| match token {
                Token::Text(s) => (Token::Text(s.to_uppercase()), range),
                other => (other, range),
            })
            .collect();
        Ok(TokenStream::Flat(transformed))
    }
}

// Test mapper that adds tokens in post-order
struct PostOrderMarker;

impl StreamMapper for PostOrderMarker {
    fn exit_node(
        &mut self,
        mut node: TokenStreamNode,
    ) -> Result<TokenStreamNode, TransformationError> {
        // Add a marker token at the end
        node.tokens.push((Token::Text("_marked".to_string()), 0..0));
        Ok(node)
    }
}

#[test]
fn test_walk_flat_stream() {
    let tokens = vec![
        (Token::Text("hello".to_string()), 0..5),
        (Token::Whitespace, 5..6),
        (Token::Text("world".to_string()), 6..11),
    ];
    let stream = TokenStream::Flat(tokens.clone());

    let mut counter = TokenCounter {
        flat_count: 0,
        node_count: 0,
    };
    let result = walk_stream(stream, &mut counter).unwrap();

    assert_eq!(counter.flat_count, 3);
    assert_eq!(counter.node_count, 0);
    assert_eq!(result, TokenStream::Flat(tokens));
}

#[test]
fn test_walk_empty_flat_stream() {
    let stream = TokenStream::Flat(vec![]);
    let mut counter = TokenCounter {
        flat_count: 0,
        node_count: 0,
    };
    let result = walk_stream(stream, &mut counter).unwrap();

    assert_eq!(counter.flat_count, 0);
    assert_eq!(result, TokenStream::Flat(vec![]));
}

#[test]
fn test_walk_tree_single_node_no_children() {
    let node = TokenStreamNode {
        tokens: vec![(Token::Text("hello".to_string()), 0..5)],
        children: None,
        line_type: None,
    };
    let stream = TokenStream::Tree(vec![node]);

    let mut counter = TokenCounter {
        flat_count: 0,
        node_count: 0,
    };
    let result = walk_stream(stream, &mut counter).unwrap();

    assert_eq!(counter.flat_count, 0);
    assert_eq!(counter.node_count, 1); // One node visited
    assert!(matches!(result, TokenStream::Tree(_)));
}

#[test]
fn test_walk_tree_single_node_with_flat_children() {
    let node = TokenStreamNode {
        tokens: vec![(Token::Text("parent".to_string()), 0..6)],
        children: Some(Box::new(TokenStream::Flat(vec![(
            Token::Text("child".to_string()),
            10..15,
        )]))),
        line_type: None,
    };
    let stream = TokenStream::Tree(vec![node]);

    let mut counter = TokenCounter {
        flat_count: 0,
        node_count: 0,
    };
    let result = walk_stream(stream, &mut counter).unwrap();

    assert_eq!(counter.flat_count, 1); // Child flat stream
    assert_eq!(counter.node_count, 1); // Parent node
    assert!(matches!(result, TokenStream::Tree(_)));
}

#[test]
fn test_walk_tree_nested_nodes() {
    // Create nested structure: root -> child -> grandchild
    let grandchild_stream =
        TokenStream::Flat(vec![(Token::Text("grandchild".to_string()), 20..30)]);

    let child_node = TokenStreamNode {
        tokens: vec![(Token::Text("child".to_string()), 10..15)],
        children: Some(Box::new(grandchild_stream)),
        line_type: None,
    };

    let root_node = TokenStreamNode {
        tokens: vec![(Token::Text("root".to_string()), 0..4)],
        children: Some(Box::new(TokenStream::Tree(vec![child_node]))),
        line_type: None,
    };

    let stream = TokenStream::Tree(vec![root_node]);

    let mut counter = TokenCounter {
        flat_count: 0,
        node_count: 0,
    };
    let result = walk_stream(stream, &mut counter).unwrap();

    assert_eq!(counter.flat_count, 1); // Grandchild flat stream
    assert_eq!(counter.node_count, 2); // Root and child nodes
    assert!(matches!(result, TokenStream::Tree(_)));
}

#[test]
fn test_transform_flat_tokens() {
    let tokens = vec![
        (Token::Text("hello".to_string()), 0..5),
        (Token::Text("world".to_string()), 6..11),
    ];
    let stream = TokenStream::Flat(tokens);

    let mut transformer = TextTransformer;
    let result = walk_stream(stream, &mut transformer).unwrap();

    match result {
        TokenStream::Flat(transformed) => {
            assert_eq!(transformed.len(), 2);
            assert_eq!(transformed[0].0, Token::Text("HELLO".to_string()));
            assert_eq!(transformed[1].0, Token::Text("WORLD".to_string()));
        }
        _ => panic!("Expected flat stream"),
    }
}

#[test]
fn test_transform_tree_tokens() {
    let node = TokenStreamNode {
        tokens: vec![(Token::Text("parent".to_string()), 0..6)],
        children: Some(Box::new(TokenStream::Flat(vec![(
            Token::Text("child".to_string()),
            10..15,
        )]))),
        line_type: None,
    };
    let stream = TokenStream::Tree(vec![node]);

    let mut transformer = TextTransformer;
    let result = walk_stream(stream, &mut transformer).unwrap();

    match result {
        TokenStream::Tree(nodes) => {
            assert_eq!(nodes.len(), 1);
            // Parent tokens are not in a flat stream, so not transformed by map_flat
            // Only the child flat stream is transformed
            if let Some(children) = &nodes[0].children {
                match children.as_ref() {
                    TokenStream::Flat(child_tokens) => {
                        assert_eq!(child_tokens[0].0, Token::Text("CHILD".to_string()));
                    }
                    _ => panic!("Expected flat child stream"),
                }
            }
        }
        _ => panic!("Expected tree stream"),
    }
}

#[test]
fn test_post_order_modification() {
    let node = TokenStreamNode {
        tokens: vec![(Token::Text("hello".to_string()), 0..5)],
        children: None,
        line_type: None,
    };
    let stream = TokenStream::Tree(vec![node]);

    let mut marker = PostOrderMarker;
    let result = walk_stream(stream, &mut marker).unwrap();

    match result {
        TokenStream::Tree(nodes) => {
            assert_eq!(nodes.len(), 1);
            assert_eq!(nodes[0].tokens.len(), 2); // Original + marker
            assert_eq!(nodes[0].tokens[1].0, Token::Text("_marked".to_string()));
        }
        _ => panic!("Expected tree stream"),
    }
}

#[test]
fn test_multiple_nodes_at_same_level() {
    let node1 = TokenStreamNode {
        tokens: vec![(Token::Text("first".to_string()), 0..5)],
        children: None,
        line_type: None,
    };
    let node2 = TokenStreamNode {
        tokens: vec![(Token::Text("second".to_string()), 6..12)],
        children: None,
        line_type: None,
    };
    let stream = TokenStream::Tree(vec![node1, node2]);

    let mut counter = TokenCounter {
        flat_count: 0,
        node_count: 0,
    };
    let result = walk_stream(stream, &mut counter).unwrap();

    assert_eq!(counter.node_count, 2); // Both nodes visited
    assert!(matches!(result, TokenStream::Tree(_)));
}

#[test]
fn test_preserves_ranges() {
    let tokens = vec![
        (Token::Text("hello".to_string()), 0..5),
        (Token::Whitespace, 5..6),
    ];
    let stream = TokenStream::Flat(tokens.clone());

    let mut counter = TokenCounter {
        flat_count: 0,
        node_count: 0,
    };
    let result = walk_stream(stream, &mut counter).unwrap();

    match result {
        TokenStream::Flat(result_tokens) => {
            assert_eq!(result_tokens[0].1, 0..5);
            assert_eq!(result_tokens[1].1, 5..6);
        }
        _ => panic!("Expected flat stream"),
    }
}

#[test]
fn test_empty_tree() {
    let stream = TokenStream::Tree(vec![]);
    let mut counter = TokenCounter {
        flat_count: 0,
        node_count: 0,
    };
    let result = walk_stream(stream, &mut counter).unwrap();

    assert_eq!(counter.node_count, 0);
    assert_eq!(result, TokenStream::Tree(vec![]));
}

#[test]
fn test_error_propagation() {
    struct FailingMapper;

    impl StreamMapper for FailingMapper {
        fn map_flat(
            &mut self,
            _tokens: Vec<(Token, ByteRange<usize>)>,
        ) -> Result<TokenStream, TransformationError> {
            Err(TransformationError::Error("test error".to_string()))
        }
    }

    let stream = TokenStream::Flat(vec![(Token::Text("test".to_string()), 0..4)]);
    let mut mapper = FailingMapper;
    let result = walk_stream(stream, &mut mapper);

    assert!(result.is_err());
    match result {
        Err(TransformationError::Error(msg)) => assert_eq!(msg, "test error"),
        _ => panic!("Expected error"),
    }
}

#[test]
fn test_error_propagation_from_enter_node() {
    struct FailingEnterMapper;

    impl StreamMapper for FailingEnterMapper {
        fn enter_node(
            &mut self,
            _node: TokenStreamNode,
        ) -> Result<TokenStreamNode, TransformationError> {
            Err(TransformationError::Error("enter_node error".to_string()))
        }
    }

    let node = TokenStreamNode {
        tokens: vec![(Token::Text("test".to_string()), 0..4)],
        children: None,
        line_type: None,
    };
    let stream = TokenStream::Tree(vec![node]);
    let mut mapper = FailingEnterMapper;
    let result = walk_stream(stream, &mut mapper);

    assert!(result.is_err());
    match result {
        Err(TransformationError::Error(msg)) => assert_eq!(msg, "enter_node error"),
        _ => panic!("Expected error from enter_node"),
    }
}

#[test]
fn test_error_propagation_from_exit_node() {
    struct FailingExitMapper;

    impl StreamMapper for FailingExitMapper {
        fn exit_node(
            &mut self,
            _node: TokenStreamNode,
        ) -> Result<TokenStreamNode, TransformationError> {
            Err(TransformationError::Error("exit_node error".to_string()))
        }
    }

    let node = TokenStreamNode {
        tokens: vec![(Token::Text("test".to_string()), 0..4)],
        children: None,
        line_type: None,
    };
    let stream = TokenStream::Tree(vec![node]);
    let mut mapper = FailingExitMapper;
    let result = walk_stream(stream, &mut mapper);

    assert!(result.is_err());
    match result {
        Err(TransformationError::Error(msg)) => assert_eq!(msg, "exit_node error"),
        _ => panic!("Expected error from exit_node"),
    }
}

#[test]
fn test_error_propagation_from_nested_children() {
    // Test that errors from deeply nested children propagate correctly
    struct FailingFlatMapper;

    impl StreamMapper for FailingFlatMapper {
        fn map_flat(
            &mut self,
            _tokens: Vec<(Token, ByteRange<usize>)>,
        ) -> Result<TokenStream, TransformationError> {
            Err(TransformationError::Error("nested error".to_string()))
        }
    }

    // Create a tree with nested children containing a flat stream
    let node = TokenStreamNode {
        tokens: vec![(Token::Text("parent".to_string()), 0..6)],
        children: Some(Box::new(TokenStream::Flat(vec![(
            Token::Text("child".to_string()),
            10..15,
        )]))),
        line_type: None,
    };
    let stream = TokenStream::Tree(vec![node]);
    let mut mapper = FailingFlatMapper;
    let result = walk_stream(stream, &mut mapper);

    assert!(result.is_err());
    match result {
        Err(TransformationError::Error(msg)) => assert_eq!(msg, "nested error"),
        _ => panic!("Expected error from nested flat stream"),
    }
}

struct PassThrough;

impl StreamMapper for PassThrough {}

#[test]
fn test_default_methods_hand_the_stream_back() {
    let stream = TokenStream::Tree(vec![TokenStreamNode {
        tokens: vec![(Token::Text("parent".to_string()), 0..6)],
        children: Some(Box::new(TokenStream::Flat(vec![(
            Token::Text("child".to_string()),
            7..12,
        )]))),
        line_type: None,
    }]);
    let expected = TokenStream::Tree(vec![TokenStreamNode {
        tokens: vec![(Token::Text("parent".to_string()), 0..6)],
        children: Some(Box::new(TokenStream::Flat(vec![(
            Token::Text("child".to_string()),
            7..12,
        )]))),
        line_type: None,
    }]);
    let result = walk_stream(stream, &mut PassThrough).unwrap();
    assert_eq!(result, expected);
}
