//! An interpreter for the untyped lambda calculus: a lexer, a recursive-descent
//! parser, and a normal-order reducer with an eta shortcut.

pub mod ast;
pub mod chars;
pub mod interpreter;
pub mod lexer;
pub mod parser;
pub mod reduce;
pub mod roundtrip;
