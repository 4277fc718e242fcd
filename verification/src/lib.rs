//! A compiler for a tiny subset of C: a function `int name(void)` that
//! returns one integer expression, compiled to a native object file.
pub mod error;
pub mod text;
pub mod token;
pub mod lexer;
pub mod frontend;
pub mod grammar;
pub mod ir;
pub mod backend;
pub mod codegen;
pub mod laws;
pub mod spelling;
