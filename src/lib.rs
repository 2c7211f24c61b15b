//! A small S-expression language: a lexer, a recursive-descent parser and a
//! typed evaluator, composed by `run`.

pub mod ast;
pub mod eval;
pub mod laws;
pub mod lexer;
pub mod number;
pub mod parser;
pub mod run;
