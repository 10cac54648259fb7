//! Front end and runtime value model of a small interpreted language:
//! a tokenizer over source text, an operator-precedence (Pratt) parser that
//! builds an abstract syntax tree while collecting (never throwing) syntax
//! errors, and the runtime object / environment model that a tree-walking
//! evaluator consumes.

pub mod ast;
pub mod lexer;
pub mod numeral;
pub mod object;
pub mod parser;
pub mod token;
