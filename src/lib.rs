//! Chonk: a small dynamically typed scripting language.
//!
//! Source text goes through the lexer (`lexer`, specified by `lexer::lex`),
//! the parser (`parser`, specified by `grammar::program`) and the
//! tree-walking evaluator (`interpreter`, specified by `semantics`);
//! `runner::run` chains the three.
pub mod ast;
pub mod cli;
pub mod environment;
pub mod grammar;
pub mod interpreter;
pub mod lexer;
pub mod limits;
pub mod number;
pub mod parser;
pub mod printer;
pub mod roundtrip;
pub mod runner;
pub mod semantics;
pub mod token;
pub mod value;

mod text;
