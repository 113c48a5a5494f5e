//! JSON: a streaming lexer, a smaller streaming lexer, JSON
//! paths and the query that follows a path through a token stream.
pub mod lexer;
pub mod lexer2;
pub mod path;
pub mod query;
