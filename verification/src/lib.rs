//! A Pratt (precedence-climbing) expression parser.
//!
//! Source text is cut into tokens by [`lexer::Lexer`], arranged into a tree by
//! [`parser::Parser`] under a table of parselets, and rendered back as a fully
//! parenthesised string by [`expression::Print`]. What parsing means is laid
//! down in [`syntax`], on sequences of tokens; [`laws`] holds what follows
//! from it for the reference grammar.
pub mod error;
pub mod expression;
pub mod laws;
pub mod lexer;
pub mod parselets;
pub mod parser;
pub mod syntax;
pub mod table;
pub mod text;
pub mod token;
