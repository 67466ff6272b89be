//! A CHIP-8 toolchain: the instruction set with its binary codec, a two-pass
//! symbolic assembler, and an interpreter that executes the resulting ROMs.

pub mod instruction;
pub mod interpreter;

pub mod assembler;
pub mod ast;
pub mod codegen;
pub mod diagnostics;
pub mod parser;
pub mod scanner;
pub mod span;
pub mod tokens;

pub mod bytes;
