//! Fusion as the handler runs it: per basic block, with the extended rule set.

pub mod opcode_optimizer;
