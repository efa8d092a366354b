//! A single-pass expression compiler and the bytecode machine that runs its output.
pub mod token;
pub mod opcode;
pub mod text;
pub mod scanner;
pub mod value;
pub mod chunk;
pub mod parser;
pub mod compiler;
pub mod vm;
pub mod grammar;
