//! Core of a tree-walking interpreter for a small expression-oriented
//! scripting language: a lexer that turns source text into tokens, a Pratt
//! parser that lifts the token stream into a typed syntax tree, and an
//! evaluator that reduces that tree to runtime values under a lexically
//! scoped, closure-capturing environment.

pub mod ast;
pub mod eval;
pub mod laws;
pub mod lexer;
pub mod numbers;
pub mod object;
pub mod parser;
mod text;
pub mod token;
