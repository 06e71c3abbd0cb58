//! Tokens and the scanner that produces them.

pub mod grammar;
pub mod laws;
pub mod lexer;
pub mod text;
pub mod types;
