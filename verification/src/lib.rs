//! Front end of a small expression language: a scanner that turns source text
//! into tokens, and a recursive-descent parser that turns tokens into a tree.

pub mod ast;
pub mod chars;
pub mod grammar;
pub mod lexis;
pub mod parser;
pub mod scanner;
mod text;
pub mod token;
