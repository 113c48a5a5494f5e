//! YAML: a streaming lexer.
pub mod lexer;
