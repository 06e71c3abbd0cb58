//! A lexical scanner for a small programming language.
//!
//! The scanner turns source text into a finite sequence of tokens: names,
//! numbers, a handful of punctuation marks and the keywords `let` and `fn`.
//! What it yields is stated as mathematics over the bytes of the source, in
//! [`token::grammar`]; the scanner in [`token::lexer`] is proved to yield
//! exactly that, and [`token::laws`] holds what follows for every source.

pub mod token;
