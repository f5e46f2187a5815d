//! A tree-walking interpreter for a small, dynamically typed,
//! expression-oriented scripting language: a lexer, a Pratt-style
//! expression parser, and an evaluator with lexically scoped,
//! closure-capturing environments.

pub mod ast;
pub mod environment;
pub mod eval;
pub mod lexer;
pub mod object;
pub mod parser;
pub mod render;
pub mod repl;
pub mod token;
