//! The front end of a compiler for a small imperative language: a scanner from source text to
//! located tokens, a recursive-descent parser from tokens to a syntax tree, and the printed
//! form of the tree, each proved against a model of what it computes.
pub mod ast;
pub mod completeness;
pub mod laws;
pub mod parser;
pub mod scanner;
pub mod text;
pub mod token;
