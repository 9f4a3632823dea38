//! A compiler for the Alloy systems language: lexer, parser and RISC-V code generator.
use vstd::prelude::*;

pub mod ast;
pub mod text;
pub mod lexer;
pub mod table;
pub mod grammar;
pub mod parser;
pub mod assembly;
pub mod codegen;
pub mod config;
pub mod source;
pub mod laws;

verus! {
} // verus!
