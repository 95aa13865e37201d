//! Token pipeline, line classification and AST construction for the Lex
//! document format.

pub mod tokens;
pub mod stream;
pub mod adapters;
pub mod adapters_linebased;
pub mod mapper;
pub mod pipeline;
pub mod indentation_to_tree;
pub mod to_line_tokens;
pub mod blank_lines;
pub mod normalize_whitespace;
pub mod text;
pub mod config;
pub mod ast;
pub mod location;
pub mod data_extraction;
pub mod ast_builder;
pub mod messages;
pub mod testing_assertions;
pub mod processor;
pub mod tree_builder;
pub mod ir;
pub mod declarative_grammar;
pub mod ir_to_ast;
pub mod engine;
pub mod linebased_builders;
pub mod legacy;
pub mod harness;
pub mod loader;
pub mod reference;
pub mod samples;
pub mod parsed;
pub mod parser;
