//! A compiler from a subset of Lean 4 to Rust source, with its front end and
//! back end verified.

pub mod ast;
pub mod codegen;
pub mod driver;
pub mod error;
pub mod grammar;
pub mod lexer;
pub mod loader;
pub mod parser;
pub mod resolver;
pub mod text;
pub mod token;
pub mod typechecker;
