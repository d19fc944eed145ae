//! Lexical analysis for a small C-like scripting language: source text in,
//! an ordered token list and an ordered list of lexical errors out.
pub mod laws;
pub mod model;
pub mod scanner;
pub mod text;
pub mod token;
pub mod token_type;
