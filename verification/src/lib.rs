//! Core of a small dynamically-typed expression language: a parser from
//! source bytes to an abstract syntax tree, a notation (macro) rewriting
//! pass, and a tree-walking evaluator with closures, currying and calls
//! into externally registered functions.

pub mod builtins;
pub mod ffi;
pub mod grammar;
pub mod interpreter;
pub mod lexical;
pub mod notation;
pub mod parser;
pub mod render;
pub mod syntax;
