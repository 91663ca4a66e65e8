//! A small expression language: its syntax tree, tokens, parser and type
//! checker.
pub mod ast;
pub mod token;
pub mod lexer;
pub mod parser;
pub mod checker;
