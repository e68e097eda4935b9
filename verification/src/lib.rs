//! Front end of a small imperative scripting language: a lexer that turns
//! source text into a token sequence, and a recursive-descent parser that
//! turns tokens into an abstract syntax tree, both collecting every defect
//! they meet instead of stopping at the first one.
//!
//! Either pass returns all of its output or all of its errors, never a
//! mixture; every error carries the source span it points at.

pub mod expr;
pub mod lexer;
pub mod parser;
pub mod results;
pub mod stmt;
