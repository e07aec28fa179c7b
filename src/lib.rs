//! An evaluator for a small expression language: a tokenizer, a backtracking
//! recursive-descent parser and a tree-walking evaluator over a binding table.

pub mod token;
pub mod lexer;
pub mod node;
pub mod parser;
pub mod env;
pub mod interpreter;
pub mod laws;
