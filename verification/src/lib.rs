//! A small arithmetic-expression front end: a lexer that turns source text
//! into spanned tokens, a precedence-climbing parser that builds a
//! span-annotated syntax tree, and diagnostics that anchor every error to a
//! line and column of the source.

pub mod ast;
pub mod errors;
pub mod lexer;
pub mod parser;
pub mod span;
