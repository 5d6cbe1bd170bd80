//! Lexical front end of the Blaze scripting language: the token taxonomy,
//! the lexer that turns a source buffer into an ordered token sequence, and
//! the capability contract for expression-tree nodes.

pub mod tokens;
pub mod lexer;
pub mod ast;
pub mod laws;
