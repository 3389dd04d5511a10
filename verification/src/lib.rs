//! A small expression language: a tokenizer, an operator-precedence parser
//! and a tree-walking evaluator with lexical scoping and closures.
//!
//! A line of text goes through [`lexer`], [`ast`] and [`eval`] in turn;
//! [`complete`] does all three and gives the scope for the next line. Each
//! stage has a mathematical definition of what it computes, and the code is
//! proved against it: [`lexer::tokenize`], [`grammar::parse_line`] and
//! [`eval::evaluate`].

pub mod ast;
pub mod complete;
pub mod eval;
pub mod grammar;
pub mod integer;
pub mod lexer;
pub mod printing;
pub mod text;
pub mod ty;

pub use integer::Int;
