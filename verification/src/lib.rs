//! An arithmetic expression evaluator: a lexer, a precedence-climbing parser
//! and a tree-walking evaluator over signed 64-bit integers.

pub mod eval;
pub mod grammar;
pub mod grouping;
pub mod lex;
pub mod line;
pub mod nesting;
pub mod parser;
pub mod render;
pub mod roundtrip;
