//! The textual syntax of programs and terms.
pub mod lexer;
pub mod parser;
