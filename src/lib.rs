//! A small assembler-like toolchain: source text is lexed, resolved and encoded
//! into a byte stream, which a stack machine then executes.
pub mod instruction;
pub mod platform;
pub mod vm;
pub mod error;
pub mod token;
pub mod lexer;
pub mod parser;
pub mod generator;
pub mod compiler;
