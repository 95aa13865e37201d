use lex_parser::stream::{TokenStream, TokenStreamNode};
use lex_parser::tokens::Token;

#[test]
fn test_flat_stream_unroll() {
    let tokens = vec![
        (Token::Text("hello".to_string()), 0..5),
        (Token::Whitespace, 5..6),
        (Token::Text("world".to_string()), 6..11),
    ];

    let stream = TokenStream::Flat(tokens.clone());
    let unrolled = stream.unroll();

    assert_eq!(unrolled, tokens);
}

#[test]
fn test_empty_flat_stream_unroll() {
    let stream = TokenStream::Flat(vec![]);
    let unrolled = stream.unroll();

    assert_eq!(unrolled, vec![]);
}

#[test]
fn test_tree_stream_single_node_no_children() {
    let tokens = vec![(Token::Text("hello".to_string()), 0..5)];
    let node = TokenStreamNode {
        tokens: tokens.clone(),
        children: None,
        line_type: None,
    };

    let stream = TokenStream::Tree(vec![node]);
    let unrolled = stream.unroll();

    assert_eq!(unrolled, tokens);
}

#[test]
fn test_tree_stream_single_node_with_flat_children() {
    let parent_tokens = vec![(Token::Text("parent".to_string()), 0..6)];
    let child_tokens = vec![(Token::Text("child".to_string()), 10..15)];

    let node = TokenStreamNode {
        tokens: parent_tokens.clone(),
        children: Some(Box::new(TokenStream::Flat(child_tokens.clone()))),
        line_type: None,
    };

    let stream = TokenStream::Tree(vec![node]);
    let unrolled = stream.unroll();

    // Should contain parent tokens followed by child tokens
    let mut expected = parent_tokens;
    expected.extend(child_tokens);
    assert_eq!(unrolled, expected);
}

#[test]
fn test_tree_stream_multiple_nodes_no_children() {
    let node1 = TokenStreamNode {
        tokens: vec![(Token::Text("first".to_string()), 0..5)],
        children: None,
        line_type: None,
    };
    let node2 = TokenStreamNode {
        tokens: vec![(Token::Text("second".to_string()), 6..12)],
        children: None,
        line_type: None,
    };

    let stream = TokenStream::Tree(vec![node1, node2]);
    let unrolled = stream.unroll();

    assert_eq!(
        unrolled,
        vec![
            (Token::Text("first".to_string()), 0..5),
            (Token::Text("second".to_string()), 6..12),
        ]
    );
}

#[test]
fn test_tree_stream_nested_children() {
    // Create a deeply nested structure:
    // root
    //   -> child1
    //        -> grandchild
    let grandchild_tokens = vec![(Token::Text("grandchild".to_string()), 20..30)];
    let grandchild_stream = TokenStream::Flat(grandchild_tokens.clone());

    let child1_tokens = vec![(Token::Text("child1".to_string()), 10..16)];
    let child1_node = TokenStreamNode {
        tokens: child1_tokens.clone(),
        children: Some(Box::new(grandchild_stream)),
        line_type: None,
    };

    let root_tokens = vec![(Token::Text("root".to_string()), 0..4)];
    let root_node = TokenStreamNode {
        tokens: root_tokens.clone(),
        children: Some(Box::new(TokenStream::Tree(vec![child1_node]))),
        line_type: None,
    };

    let stream = TokenStream::Tree(vec![root_node]);
    let unrolled = stream.unroll();

    // Should be: root, child1, grandchild (in order)
    let mut expected = root_tokens;
    expected.extend(child1_tokens);
    expected.extend(grandchild_tokens);
    assert_eq!(unrolled, expected);
}

#[test]
fn test_tree_stream_mixed_nodes_with_and_without_children() {
    let node1 = TokenStreamNode {
        tokens: vec![(Token::Text("first".to_string()), 0..5)],
        children: None,
        line_type: None,
    };
    let node2 = TokenStreamNode {
        tokens: vec![(Token::Text("second".to_string()), 6..12)],
        children: Some(Box::new(TokenStream::Flat(vec![(
            Token::Text("nested".to_string()),
            20..26,
        )]))),
        line_type: None,
    };
    let node3 = TokenStreamNode {
        tokens: vec![(Token::Text("third".to_string()), 30..35)],
        children: None,
        line_type: None,
    };

    let stream = TokenStream::Tree(vec![node1, node2, node3]);
    let unrolled = stream.unroll();

    assert_eq!(
        unrolled,
        vec![
            (Token::Text("first".to_string()), 0..5),
            (Token::Text("second".to_string()), 6..12),
            (Token::Text("nested".to_string()), 20..26),
            (Token::Text("third".to_string()), 30..35),
        ]
    );
}

#[test]
fn test_empty_tree_stream() {
    let stream = TokenStream::Tree(vec![]);
    let unrolled = stream.unroll();

    assert_eq!(unrolled, vec![]);
}

#[test]
fn test_node_unroll_no_children() {
    let tokens = vec![(Token::Text("hello".to_string()), 0..5)];
    let node = TokenStreamNode {
        tokens: tokens.clone(),
        children: None,
        line_type: None,
    };

    let unrolled = node.unroll();
    assert_eq!(unrolled, tokens);
}

#[test]
fn test_node_unroll_with_children() {
    let parent_tokens = vec![(Token::Text("parent".to_string()), 0..6)];
    let child_tokens = vec![(Token::Text("child".to_string()), 10..15)];

    let node = TokenStreamNode {
        tokens: parent_tokens.clone(),
        children: Some(Box::new(TokenStream::Flat(child_tokens.clone()))),
        line_type: None,
    };

    let unrolled = node.unroll();

    let mut expected = parent_tokens;
    expected.extend(child_tokens);
    assert_eq!(unrolled, expected);
}

#[test]
fn stream_test_preserves_token_ranges() {
    // Verify that unroll preserves exact byte ranges
    let tokens = vec![
        (Token::Text("hello".to_string()), 0..5),
        (Token::Whitespace, 5..6),
        (Token::Text("world".to_string()), 6..11),
    ];

    let node = TokenStreamNode {
        tokens: tokens.clone(),
        children: None,
        line_type: None,
    };

    let stream = TokenStream::Tree(vec![node]);
    let unrolled = stream.unroll();

    // Verify each range is preserved exactly
    assert_eq!(unrolled[0].1, 0..5);
    assert_eq!(unrolled[1].1, 5..6);
    assert_eq!(unrolled[2].1, 6..11);
}

#[test]
fn test_complex_nested_structure() {
    // Test a realistic structure mimicking indented document
    // Line 1: "Title" (0..5)
    // Line 2: Indent
    //   Line 3: "Content" (10..17)
    //   Line 4: "More" (20..24)
    // Line 5: Dedent
    // Line 6: "End" (30..33)

    let content_node = TokenStreamNode {
        tokens: vec![
            (Token::Text("Content".to_string()), 10..17),
            (Token::Text("More".to_string()), 20..24),
        ],
        children: None,
        line_type: None,
    };

    let title_node = TokenStreamNode {
        tokens: vec![(Token::Text("Title".to_string()), 0..5)],
        children: Some(Box::new(TokenStream::Tree(vec![content_node]))),
        line_type: None,
    };

    let end_node = TokenStreamNode {
        tokens: vec![(Token::Text("End".to_string()), 30..33)],
        children: None,
        line_type: None,
    };

    let stream = TokenStream::Tree(vec![title_node, end_node]);
    let unrolled = stream.unroll();

    assert_eq!(
        unrolled,
        vec![
            (Token::Text("Title".to_string()), 0..5),
            (Token::Text("Content".to_string()), 10..17),
            (Token::Text("More".to_string()), 20..24),
            (Token::Text("End".to_string()), 30..33),
        ]
    );
}
