//! A front end for a small C-like expression language: a tokenizer and a
//! Pratt parser that builds an abstract syntax tree, with every function
//! carrying a machine-checked contract.

pub mod ast;
pub mod diagnostic;
pub mod grammar;
pub mod grammar_proofs;
pub mod lexer;
pub mod lexer_proofs;
pub mod numeral;
pub mod parser;
pub mod text;
pub mod token;
