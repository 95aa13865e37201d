use lex_parser::config::{AnalysisSpec, BuilderSpec, ConfigRegistry, PipelineSpec, ProcessingConfig, TargetSpec};

#[test]
fn test_registry_creation() {
    let registry = ConfigRegistry::new();
    assert_eq!(registry.list_all().len(), 0);
}

#[test]
fn test_registry_register() {
    let mut registry = ConfigRegistry::new();
    let config = ProcessingConfig {
        name: "test".into(),
        description: "Test config".into(),
        pipeline_spec: PipelineSpec::Indentation,
        target: TargetSpec::Tokens,
    };

    registry.register(config);
    assert_eq!(registry.list_all().len(), 1);
    assert!(registry.has("test"));
}

#[test]
fn test_registry_get() {
    let registry = ConfigRegistry::with_defaults();
    let config = registry.get("default").unwrap();
    assert_eq!(config.name, "default");
    assert_eq!(config.pipeline_spec, PipelineSpec::Indentation);
    assert!(matches!(config.target, TargetSpec::Ast { .. }));
}

#[test]
fn test_registry_get_nonexistent() {
    let registry = ConfigRegistry::new();
    assert!(registry.get("nonexistent").is_none());
}

#[test]
fn test_registry_has() {
    let registry = ConfigRegistry::with_defaults();
    assert!(registry.has("default"));
    assert!(registry.has("linebased"));
    assert!(!registry.has("nonexistent"));
}

#[test]
fn test_registry_list_all() {
    let registry = ConfigRegistry::with_defaults();
    let configs = registry.list_all();

    assert!(configs.len() >= 6); // Should have at least 6 default configs

    // Verify sorted by name
    for i in 1..configs.len() {
        assert!(configs[i - 1].name <= configs[i].name);
    }
}

#[test]
fn test_registry_with_defaults() {
    let registry = ConfigRegistry::with_defaults();

    // Check all expected configs exist
    assert!(registry.get("default").is_some());
    assert!(registry.get("linebased").is_some());
    assert!(registry.get("tokens-indentation").is_some());
    assert!(registry.get("tokens-linebased-flat").is_some());
    assert!(registry.get("tokens-linebased-tree").is_some());
    assert!(registry.get("tokens-raw").is_some());
}

#[test]
fn test_registry_default_trait() {
    let registry = ConfigRegistry::default();
    assert!(registry.has("default"));
}

#[test]
fn test_default_config_details() {
    let registry = ConfigRegistry::with_defaults();
    let config = registry.get("default").unwrap();

    assert_eq!(config.name, "default");
    assert!(config.description.contains("Stable"));
    assert_eq!(config.pipeline_spec, PipelineSpec::Indentation);
    assert_eq!(
        config.target,
        TargetSpec::Ast {
            analyzer: AnalysisSpec::Reference,
            builder: BuilderSpec::Lsp,
        }
    );
}

#[test]
fn test_linebased_config_details() {
    let registry = ConfigRegistry::with_defaults();
    let config = registry.get("linebased").unwrap();

    assert_eq!(config.name, "linebased");
    assert!(config.description.contains("Experimental"));
    assert_eq!(config.pipeline_spec, PipelineSpec::Linebased);
    assert_eq!(
        config.target,
        TargetSpec::Ast {
            analyzer: AnalysisSpec::Linebased,
            builder: BuilderSpec::Lsp,
        }
    );
}

#[test]
fn test_tokens_config_details() {
    let registry = ConfigRegistry::with_defaults();
    let config = registry.get("tokens-indentation").unwrap();

    assert_eq!(config.pipeline_spec, PipelineSpec::Indentation);
    assert_eq!(config.target, TargetSpec::Tokens);
}

#[test]
fn test_pipeline_spec_equality() {
    assert_eq!(PipelineSpec::Indentation, PipelineSpec::Indentation);
    assert_ne!(PipelineSpec::Indentation, PipelineSpec::Linebased);
}

#[test]
fn test_target_spec_equality() {
    assert_eq!(TargetSpec::Tokens, TargetSpec::Tokens);
    assert_ne!(
        TargetSpec::Tokens,
        TargetSpec::Ast {
            analyzer: AnalysisSpec::Reference,
            builder: BuilderSpec::Lsp,
        }
    );
}

#[test]
fn test_analyzer_spec_equality() {
    assert_eq!(AnalysisSpec::Reference, AnalysisSpec::Reference);
    assert_ne!(AnalysisSpec::Reference, AnalysisSpec::Linebased);
}

#[test]
fn test_builder_spec_equality() {
    assert_eq!(BuilderSpec::Lsp, BuilderSpec::Lsp);
}

#[test]
fn test_default_registry_lists_each_name_once_in_order() {
    let registry = ConfigRegistry::with_defaults();
    let names: Vec<&str> = registry.list_all().iter().map(|c| c.name.as_str()).collect();
    assert_eq!(
        names,
        vec![
            "default",
            "lex-to-tag",
            "lex-to-tag-linebased",
            "lex-to-treeviz",
            "lex-to-treeviz-linebased",
            "linebased",
            "tokens-indentation",
            "tokens-linebased-flat",
            "tokens-linebased-tree",
            "tokens-raw",
        ]
    );
    let default = registry.get("default").unwrap();
    assert_eq!(default.description, "Stable: Indentation lexer + Reference analyzer + LSP builder");
    let tag_linebased = registry.get("lex-to-tag-linebased").unwrap();
    assert_eq!(
        tag_linebased.target,
        TargetSpec::Serialized {
            analyzer: AnalysisSpec::Linebased,
            builder: BuilderSpec::Lsp,
            format: "tag".to_string(),
        }
    );
}

#[test]
fn test_register_same_name_replaces() {
    let mut registry = ConfigRegistry::new();
    for description in ["first", "second"] {
        registry.register(ProcessingConfig {
            name: "x".into(),
            description: description.into(),
            pipeline_spec: PipelineSpec::Raw,
            target: TargetSpec::Tokens,
        });
    }
    assert_eq!(registry.list_all().len(), 1);
    assert_eq!(registry.get("x").unwrap().description, "second");
}
