//! A scanner for a small C-like language: source text in, a stream of
//! classified, position-tagged tokens and a list of diagnostics out.

pub mod span;
pub mod token;
pub mod error;
pub mod chars;
pub mod grammar;
pub mod lexer;
pub mod laws;
pub mod input;
