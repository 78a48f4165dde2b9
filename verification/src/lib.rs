//! A small verified source-to-source translator: it scans text written
//! in a curly-brace, statement-oriented object language, parses the
//! tokens into an abstract syntax tree, emits equivalent text in an
//! S-expression, let-binding functional language, and reindents the
//! result from its own parenthesis nesting.
//!
//! Each stage carries an exact functional contract against a
//! mathematical model: `tokenizer::scan_spec`,
//! `syntax_tree_builder::parse_spec`, `transpiler::transpile_spec` and
//! `prettifier::prettify_spec`.
pub mod chars;
pub mod token;
pub mod syntax_tree_node;
pub mod tokenizer;
pub mod syntax_tree_builder;
pub mod transpiler;
pub mod prettifier;
