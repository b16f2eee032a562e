//! Super-instruction support for an EVM interpreter: a bytecode rewriter
//! that fuses frequent opcode sequences into single super-instructions,
//! the basic-block analysis that decides where the rewriter may run, and
//! the stack semantics of the fused instructions themselves.

pub mod benchmark;
pub mod bytecode;
pub mod decoding;
pub mod fusion;
pub mod handler;
pub mod interpreter;
