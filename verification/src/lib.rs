//! QLang: a small language for matrix and vector computation, with a lexer,
//! a parser, a type and shape checker, and a C code generator.
pub mod ast;
pub mod chars;
pub mod checker;
pub mod codegen;
pub mod codegen_spec;
pub mod compiler;
pub mod lexer;
pub mod numbers;
pub mod parser;
pub mod parser_spec;
