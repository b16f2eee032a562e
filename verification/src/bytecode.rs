//! Opcode table and the whole-code fusion pass.

pub mod opcode;
pub mod opcode_optimizer;
