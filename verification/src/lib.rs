//! A tree-walking interpreter for a small dynamically typed scripting
//! language: a scanner from source text to tokens, a recursive-descent
//! parser from tokens to statements, and an evaluator that executes
//! statements against a chain of lexical scopes.

pub mod double;
pub mod environment;
pub mod expr;
pub mod interpreter;
pub mod lox;
pub mod parser;
pub mod scanner;
pub mod stmt;
pub mod token;
pub mod value;
