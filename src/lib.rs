//! A register-based bytecode virtual machine: an opcode table, a binary and a
//! textual decoder, and a fetch-decode-execute engine over 32 registers, a
//! growable byte heap and a single comparison flag.
pub mod instruction;
mod text;
pub mod binary;
pub mod lexer;
pub mod repl;
pub mod vm;
