//! Front end of a small C-like scripting language: a lexer that turns source
//! text into tokens with byte spans, and a recursive-descent parser that builds
//! expression trees with the usual operator precedence.

pub mod ast;
pub mod lexer;
pub mod parser;
pub mod span;
