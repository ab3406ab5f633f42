//! An interpreter for a small tape-based language of eight one-character
//! instructions: a pointer moves over a fixed-size tape of bytes, cells are
//! incremented and decremented modulo 256, one instruction writes the current
//! cell to an output stream, one reads a byte from an input stream, and a
//! bracketed loop repeats its body while the current cell is nonzero. Every
//! other character is a comment.
//!
//! The pipeline is: [`lexer::tokenize`] classifies each character,
//! [`parser::parse`] builds a tree of instruction nodes by recursive descent,
//! and [`eval::run`] walks that tree against a mutable machine state. Each
//! stage carries a full functional specification; [`laws`] states and proves
//! the properties that relate the stages.

pub mod ast;
pub mod eval;
pub mod laws;
pub mod lexer;
pub mod parser;
