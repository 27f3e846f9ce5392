//! Front end of a small functional language: a tolerant byte scanner, a
//! precedence-ordered recursive-descent parser over its tokens, and a
//! renderer-agnostic model of diagnostics for the errors of both.
pub mod span;
pub mod lexer;
pub mod lexer_laws;
pub mod ast;
pub mod parser;
pub mod report;
pub mod diagnostic;
pub mod reporter;
