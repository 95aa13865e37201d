use lex_parser::ast::{Annotation, Document, Label, Parameter, Position, Range, Session};
use lex_parser::testing_assertions::{assert_ast, AnnotationAssertion};

#[test]
fn test_root_location_starts_at() {
    let location = Range::new(0..0, Position::new(0, 0), Position::new(0, 10));
    let mut session = Session::with_title(String::new());
    session.location = location;
    let doc = Document {
        metadata: Vec::new(),
        root: session,
    };

    // Should pass
    assert_ast(&doc).root_location_starts_at(0, 0).unwrap();
}

#[test]
#[should_panic(expected = "Expected root session location start line 5, found 0")]
fn test_root_location_starts_at_fails_wrong_line() {
    let location = Range::new(0..0, Position::new(0, 0), Position::new(0, 10));
    let mut session = Session::with_title(String::new());
    session.location = location;
    let doc = Document {
        metadata: Vec::new(),
        root: session,
    };

    assert_ast(&doc).root_location_starts_at(5, 0).unwrap();
}

#[test]
fn test_root_location_ends_at() {
    let location = Range::new(0..0, Position::new(0, 0), Position::new(2, 15));
    let mut session = Session::with_title(String::new());
    session.location = location;
    let doc = Document {
        metadata: Vec::new(),
        root: session,
    };

    assert_ast(&doc).root_location_ends_at(2, 15).unwrap();
}

#[test]
#[should_panic(expected = "Expected root session location end column 10, found 15")]
fn test_root_location_ends_at_fails_wrong_column() {
    let location = Range::new(0..0, Position::new(0, 0), Position::new(2, 15));
    let mut session = Session::with_title(String::new());
    session.location = location;
    let doc = Document {
        metadata: Vec::new(),
        root: session,
    };

    assert_ast(&doc).root_location_ends_at(2, 10).unwrap();
}

#[test]
fn test_root_location_contains() {
    let location = Range::new(0..0, Position::new(1, 0), Position::new(3, 10));
    let mut session = Session::with_title(String::new());
    session.location = location;
    let doc = Document {
        metadata: Vec::new(),
        root: session,
    };

    assert_ast(&doc).root_location_contains(2, 5).unwrap(); // Inside
}

#[test]
#[should_panic(expected = "Expected root session location")]
fn test_root_location_contains_fails() {
    let location = Range::new(0..0, Position::new(1, 0), Position::new(3, 10));
    let mut session = Session::with_title(String::new());
    session.location = location;
    let doc = Document {
        metadata: Vec::new(),
        root: session,
    };

    assert_ast(&doc).root_location_contains(5, 5).unwrap(); // Outside
}

#[test]
fn test_root_location_excludes() {
    let location = Range::new(0..0, Position::new(1, 0), Position::new(3, 10));
    let mut session = Session::with_title(String::new());
    session.location = location;
    let doc = Document {
        metadata: Vec::new(),
        root: session,
    };

    assert_ast(&doc).root_location_excludes(5, 5).unwrap(); // Outside
}

#[test]
#[should_panic(expected = "Expected root session location")]
fn test_root_location_excludes_fails() {
    let location = Range::new(0..0, Position::new(1, 0), Position::new(3, 10));
    let mut session = Session::with_title(String::new());
    session.location = location;
    let doc = Document {
        metadata: Vec::new(),
        root: session,
    };

    assert_ast(&doc).root_location_excludes(2, 5).unwrap(); // Inside
}

#[test]
fn test_location_assertions_are_fluent() {
    let location = Range::new(0..0, Position::new(0, 0), Position::new(5, 20));
    let mut session = Session::with_title(String::new());
    session.location = location;
    let doc = Document {
        metadata: Vec::new(),
        root: session,
    };

    // Test fluent chaining
    assert_ast(&doc)
        .root_location_starts_at(0, 0).unwrap()
        .root_location_ends_at(5, 20).unwrap()
        .root_location_contains(2, 10).unwrap()
        .root_location_excludes(10, 0).unwrap()
        .item_count(0).unwrap();
}

// ============================================================================
// Parameter Assertion Tests (these tests inspect raw AST)
// ============================================================================

fn create_test_annotation(label: &str, parameters: Vec<(&str, &str)>) -> Annotation {
    let location = Range::new(0..0, Position::new(0, 0), Position::new(0, 10));
    let label = Label::new(label.to_string()).at(location.clone());
    let parameters: Vec<Parameter> = parameters
        .into_iter()
        .map(|(k, v)| Parameter {
            key: k.to_string(),
            value: v.to_string(),
            location: location.clone(),
        })
        .collect();
    Annotation {
        label,
        parameters,
        children: Vec::new(),
        location,
    }
}

#[test]
fn test_annotation_label_assertion() {
    let annotation = create_test_annotation("test", vec![]);
    // Directly verify the annotation has the expected label in raw AST
    assert_eq!(annotation.label.value, "test");

    // Now test the assertion API
    let annotation_assertion = AnnotationAssertion {
        annotation: &annotation,
        context: "test".to_string(),
    };
    annotation_assertion.label("test").unwrap();
}

#[test]
#[should_panic(expected = "Expected annotation label to be 'wrong'")]
fn test_annotation_label_assertion_fails() {
    let annotation = create_test_annotation("test", vec![]);
    let annotation_assertion = AnnotationAssertion {
        annotation: &annotation,
        context: "test".to_string(),
    };
    annotation_assertion.label("wrong").unwrap();
}

#[test]
fn test_parameter_count_assertion() {
    let annotation = create_test_annotation("test", vec![("key1", "val1"), ("key2", "val2")]);
    // Directly verify parameter count in raw AST
    assert_eq!(annotation.parameters.len(), 2);

    // Test assertion API
    let annotation_assertion = AnnotationAssertion {
        annotation: &annotation,
        context: "test".to_string(),
    };
    annotation_assertion.parameter_count(2).unwrap();
}

#[test]
#[should_panic(expected = "Expected 3 parameters, found 2 parameters")]
fn test_parameter_count_assertion_fails() {
    let annotation = create_test_annotation("test", vec![("key1", "val1"), ("key2", "val2")]);
    let annotation_assertion = AnnotationAssertion {
        annotation: &annotation,
        context: "test".to_string(),
    };
    annotation_assertion.parameter_count(3).unwrap();
}

#[test]
fn test_has_parameter_assertion() {
    let annotation = create_test_annotation("test", vec![("foo", "bar"), ("baz", "qux")]);
    // Directly verify parameter exists in raw AST
    assert!(annotation.parameters.iter().any(|p| p.key == "foo"));

    // Test assertion API
    let annotation_assertion = AnnotationAssertion {
        annotation: &annotation,
        context: "test".to_string(),
    };
    annotation_assertion.has_parameter("foo").unwrap();
}

#[test]
#[should_panic(expected = "Expected parameter with key 'missing'")]
fn test_has_parameter_assertion_fails() {
    let annotation = create_test_annotation("test", vec![("foo", "bar")]);
    let annotation_assertion = AnnotationAssertion {
        annotation: &annotation,
        context: "test".to_string(),
    };
    annotation_assertion.has_parameter("missing").unwrap();
}

#[test]
fn test_no_parameter_assertion() {
    let annotation = create_test_annotation("test", vec![("foo", "bar")]);
    // Directly verify parameter doesn't exist in raw AST
    assert!(!annotation.parameters.iter().any(|p| p.key == "missing"));

    // Test assertion API
    let annotation_assertion = AnnotationAssertion {
        annotation: &annotation,
        context: "test".to_string(),
    };
    annotation_assertion.no_parameter("missing").unwrap();
}

#[test]
#[should_panic(expected = "Expected no parameter with key 'foo'")]
fn test_no_parameter_assertion_fails() {
    let annotation = create_test_annotation("test", vec![("foo", "bar")]);
    let annotation_assertion = AnnotationAssertion {
        annotation: &annotation,
        context: "test".to_string(),
    };
    annotation_assertion.no_parameter("foo").unwrap();
}

#[test]
fn test_has_parameter_with_value_assertion() {
    let annotation = create_test_annotation("test", vec![("key", "value"), ("other", "data")]);
    // Directly verify parameter key-value pair in raw AST
    let param = annotation.parameters.iter().find(|p| p.key == "key");
    assert!(param.is_some());
    assert_eq!(param.unwrap().value, "value");

    // Test assertion API
    let annotation_assertion = AnnotationAssertion {
        annotation: &annotation,
        context: "test".to_string(),
    };
    annotation_assertion.has_parameter_with_value("key", "value").unwrap();
}

#[test]
#[should_panic(expected = "Expected parameter 'key' to have value 'wrong'")]
fn test_has_parameter_with_value_assertion_fails_wrong_value() {
    let annotation = create_test_annotation("test", vec![("key", "value")]);
    let annotation_assertion = AnnotationAssertion {
        annotation: &annotation,
        context: "test".to_string(),
    };
    annotation_assertion.has_parameter_with_value("key", "wrong").unwrap();
}

#[test]
#[should_panic(expected = "parameter 'missing' not found")]
fn test_has_parameter_with_value_assertion_fails_missing_key() {
    let annotation = create_test_annotation("test", vec![("key", "value")]);
    let annotation_assertion = AnnotationAssertion {
        annotation: &annotation,
        context: "test".to_string(),
    };
    annotation_assertion.has_parameter_with_value("missing", "value").unwrap();
}

#[test]
fn test_parameter_by_index_assertion() {
    let annotation = create_test_annotation("test", vec![("first", "1"), ("second", "2")]);
    // Directly verify parameter at index in raw AST
    assert_eq!(annotation.parameters[0].key, "first");
    assert_eq!(annotation.parameters[0].value, "1");
    assert_eq!(annotation.parameters[1].key, "second");
    assert_eq!(annotation.parameters[1].value, "2");

    // Test assertion API
    let annotation_assertion = AnnotationAssertion {
        annotation: &annotation,
        context: "test".to_string(),
    };
    annotation_assertion
        .parameter(0, "first", "1").unwrap()
        .parameter(1, "second", "2").unwrap();
}

#[test]
#[should_panic(expected = "Parameter index 2 out of bounds")]
fn test_parameter_by_index_assertion_out_of_bounds() {
    let annotation = create_test_annotation("test", vec![("key", "value")]);
    let annotation_assertion = AnnotationAssertion {
        annotation: &annotation,
        context: "test".to_string(),
    };
    annotation_assertion.parameter(2, "key", "value").unwrap();
}

#[test]
#[should_panic(expected = "Expected parameter[0].key to be 'wrong'")]
fn test_parameter_by_index_assertion_fails_key() {
    let annotation = create_test_annotation("test", vec![("key", "value")]);
    let annotation_assertion = AnnotationAssertion {
        annotation: &annotation,
        context: "test".to_string(),
    };
    annotation_assertion.parameter(0, "wrong", "value").unwrap();
}

#[test]
#[should_panic(expected = "Expected parameter[0].value to be 'wrong'")]
fn test_parameter_by_index_assertion_fails_value() {
    let annotation = create_test_annotation("test", vec![("key", "value")]);
    let annotation_assertion = AnnotationAssertion {
        annotation: &annotation,
        context: "test".to_string(),
    };
    annotation_assertion.parameter(0, "key", "wrong").unwrap();
}

#[test]
fn test_parameter_key_by_index_assertion() {
    let annotation = create_test_annotation("test", vec![("key1", "val1"), ("key2", "val2")]);
    // Directly verify parameter keys in raw AST
    assert_eq!(annotation.parameters[0].key, "key1");
    assert_eq!(annotation.parameters[1].key, "key2");

    // Test assertion API (doesn't check value)
    let annotation_assertion = AnnotationAssertion {
        annotation: &annotation,
        context: "test".to_string(),
    };
    annotation_assertion
        .parameter_key(0, "key1").unwrap()
        .parameter_key(1, "key2").unwrap();
}

#[test]
fn test_fluent_parameter_assertions() {
    let annotation = create_test_annotation(
        "test",
        vec![("foo", "bar"), ("baz", "qux"), ("other", "data")],
    );

    // Test fluent chaining of parameter assertions
    let annotation_assertion = AnnotationAssertion {
        annotation: &annotation,
        context: "test".to_string(),
    };
    annotation_assertion
        .label("test").unwrap()
        .parameter_count(3).unwrap()
        .has_parameter("foo").unwrap()
        .has_parameter("baz").unwrap()
        .has_parameter_with_value("foo", "bar").unwrap()
        .has_parameter_with_value("baz", "qux").unwrap()
        .parameter(0, "foo", "bar").unwrap()
        .parameter(1, "baz", "qux").unwrap()
        .no_parameter("missing").unwrap()
        .child_count(0).unwrap();
}
