//! The text of definition files: lexing, parsing and symbol evaluation.

pub mod base;
pub mod lexer;
pub mod ast;
pub mod grammar;
pub mod cursor;
pub mod parser;
pub mod reading_back;
pub mod symbols;
