//! The configuration language: text to tokens, tokens to a document, and a
//! document back to text.

pub mod data;
pub mod laws;
pub mod lexer;
pub mod parser;
pub mod round_trip;
pub mod splitting;
