//! Ferro: a small compiler for the Ferro language — lexer, parser, semantic
//! checker, pretty-printer and x86-64 code generator.

pub mod text;
pub mod error;

pub mod lexer;
pub mod ast;
pub mod parser;
pub mod sema;
pub mod codegen;
pub mod diagnostics;
pub mod modules;
