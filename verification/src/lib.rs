//! A front end for a small expression language: a tokenizer over a byte
//! buffer and a precedence-climbing parser that builds a syntax tree.
//!
//! Every function is verified against a mathematical model: the tokenizer
//! against `lexer::scan`, the parser against `parser::grammar`. What holds
//! of every parsed tree is proved in `parser::progress`, `parser::extent`,
//! `parser::binding` and `parser::cover`.

pub mod lexer;
pub mod parser;
pub mod text;

pub use lexer::Lexer;
pub use parser::{parse, Parser};
