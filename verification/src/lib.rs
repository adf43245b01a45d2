//! Front end for a minimal lambda-calculus language.
//!
//! The library turns raw source text into a structured syntax tree and, on
//! malformed input, into structured, source-position-anchored diagnostics.
//! It consists of a tokenizer ([`lexer`]), a recursive-descent expression
//! parser ([`parser`]), a pretty-printer ([`pretty`]) and a diagnostic
//! reporter ([`report`]). All offsets count Unicode scalar values of the
//! source text.

pub mod ast;
pub mod laws;
pub mod lexer;
pub mod parser;
pub mod pretty;
pub mod report;
pub mod token;
