//! A minimal embeddable s-expression scripting language: a lexer with line
//! tracking, a recursive-descent parser producing a tree of AST nodes, a
//! lexically scoped value/environment model, and an evaluator that calls into
//! host-supplied native functions through a uniform calling convention.

pub mod ast;
pub mod execution;
pub mod lexer;
pub mod parser;
pub mod rustapi;
pub mod stdlib;
pub mod types;
