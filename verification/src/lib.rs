//! Streaming lexers for JSON and YAML that keep every byte of the input
//! (whitespace, tabs and line endings included), and a JSON-path query
//! that decides, token by token, which part of a JSON stream is selected.
pub mod text;
pub mod json;
pub mod yaml;
