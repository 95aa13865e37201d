# lex_parser

Token pipeline, parsers and AST construction for the Lex document format,
written in Verus: every function in `src/` carries a contract that Verus
proves. The library has no trusted wrappers; the only unverified code it
relies on is vstd's own specification of `str` and `String`.

## Layout

- `src/tokens.rs`, `src/stream.rs`: tokens, classified lines, token streams
  (flat or nested) and their mathematical models.
- `src/mapper.rs`, `src/pipeline.rs` and the mappers `blank_lines`,
  `normalize_whitespace`, `to_line_tokens`, `indentation_to_tree`: stream
  transformations and the pipeline that runs them in order.
- `src/adapters.rs`, `src/adapters_linebased.rs`: conversions between flat
  vectors, streams and line containers, and the entry points that run the
  parsers on a stream.
- `src/reference.rs`: the reference parser, a recursive-descent parser over
  the flat token stream, with the grammar stated as spec functions.
- `src/declarative_grammar.rs`, `src/engine.rs`, `src/tree_builder.rs`,
  `src/linebased_builders.rs`: the line-based parser (grammar over line
  types, parse engine, line-container building, node unwrapping).
- `src/parser.rs`: the interface of parser implementations and their error.
- `src/ir.rs`, `src/ir_to_ast.rs`: the parse tree and the builder that turns
  it into the AST of `src/ast.rs`, using `data_extraction`, `ast_builder`,
  `location` and `text`.
- `src/processor.rs`, `src/config.rs`, `src/legacy.rs`, `src/loader.rs`,
  `src/harness.rs`, `src/samples.rs`, `src/parsed.rs`,
  `src/testing_assertions.rs`,
  `src/messages.rs`: output-format specifications, processing
  configurations, parser selection, sample-file naming, document comparison
  and assertion helpers.
- `app/`: file access (reading sources, finding sample files on disk).
- `tests/`: tests of the library.
