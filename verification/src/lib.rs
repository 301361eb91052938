//! Core of a minimal two-pass assembler: a line grammar for a small
//! assembly dialect, an opcode encoding table keyed by mnemonic and
//! operand shape, and a symbol table driving two-pass resolution of
//! forward label references.
pub mod assembler;
pub mod error;
pub mod lexing;
pub mod opcode_table;
pub mod parser;
pub mod reconstruct;
pub mod symbol_table;
