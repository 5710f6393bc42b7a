//! A lexer and a Pratt expression parser for a small scripting language,
//! with their behaviour stated as contracts over the input characters.

pub mod token;
pub mod grammar;
pub mod lexer;
pub mod ast;
pub mod parser;
