//! A small compiler for a C-like language: lexer, parser, semantic analysis,
//! IR generation and the stack-frame allocator used by code generation.
pub mod util;
pub mod lexer;
pub mod parser;
pub mod semantic;
pub mod ir;
pub mod codegen;
pub mod compiler;
