//! Byte values of the EVM opcodes that the fusion passes read or write,
//! together with the super-instruction opcodes that they introduce.

use vstd::prelude::*;

verus! {

pub const STOP: u8 = 0x00;
pub const ADD: u8 = 0x01;
pub const MUL: u8 = 0x02;
pub const SUB: u8 = 0x03;
pub const ADDMOD: u8 = 0x08;
pub const LT: u8 = 0x10;
pub const GT: u8 = 0x11;
pub const SLT: u8 = 0x12;
pub const EQ: u8 = 0x14;
pub const ISZERO: u8 = 0x15;
pub const AND: u8 = 0x16;
pub const NOT: u8 = 0x19;
pub const SHL: u8 = 0x1B;
pub const SHR: u8 = 0x1C;
pub const CALLDATALOAD: u8 = 0x35;
pub const POP: u8 = 0x50;
pub const MSTORE: u8 = 0x52;
pub const JUMP: u8 = 0x56;
pub const JUMPI: u8 = 0x57;
pub const JUMPDEST: u8 = 0x5B;
pub const PUSH1: u8 = 0x60;
pub const PUSH2: u8 = 0x61;
pub const PUSH4: u8 = 0x63;
pub const PUSH32: u8 = 0x7F;
pub const DUP1: u8 = 0x80;
pub const DUP2: u8 = 0x81;
pub const DUP3: u8 = 0x82;
pub const DUP11: u8 = 0x8A;
pub const SWAP1: u8 = 0x90;
pub const SWAP2: u8 = 0x91;
pub const SWAP3: u8 = 0x92;
pub const RETURN: u8 = 0xF3;
pub const REVERT: u8 = 0xFD;
pub const INVALID: u8 = 0xFE;
pub const SELFDESTRUCT: u8 = 0xFF;

// Super-instructions: those of the bytecode crate's pass are `0xB1..=0xC8`,
// the seven that only the handler's pass writes are `0xC9..=0xCF`.
pub const SNOP: u8 = 0xB0;
pub const ANDSWAP1POPSWAP2SWAP1: u8 = 0xB1;
pub const SWAP2SWAP1POPJUMP: u8 = 0xB2;
pub const SWAP1POPSWAP2SWAP1: u8 = 0xB3;
pub const POPSWAP2SWAP1POP: u8 = 0xB4;
pub const PUSH2JUMP: u8 = 0xB5;
pub const PUSH2JUMPI: u8 = 0xB6;
pub const PUSH1PUSH1: u8 = 0xB7;
pub const PUSH1ADD: u8 = 0xB8;
pub const PUSH1SHL: u8 = 0xB9;
pub const PUSH1DUP1: u8 = 0xBA;
pub const SWAP1POP: u8 = 0xBB;
pub const POPJUMP: u8 = 0xBC;
pub const POP2: u8 = 0xBD;
pub const SWAP2SWAP1: u8 = 0xBE;
pub const SWAP2POP: u8 = 0xBF;
pub const DUP2LT: u8 = 0xC0;
pub const JUMPIFZERO: u8 = 0xC1;
pub const ISZEROPUSH2: u8 = 0xC2;
pub const DUP2MSTOREPUSH1ADD: u8 = 0xC3;
pub const DUP1PUSH4EQPUSH2: u8 = 0xC4;
pub const PUSH1CALLDATALOADPUSH1SHRDUP1PUSH4GTPUSH2: u8 = 0xC5;
pub const PUSH1PUSH1PUSH1SHLSUB: u8 = 0xC6;
pub const ANDDUP2ADDSWAP1DUP2LT: u8 = 0xC7;
pub const SWAP1PUSH1DUP1NOTSWAP2ADDANDDUP2ADDSWAP1DUP2LT: u8 = 0xC8;
pub const DUP3AND: u8 = 0xC9;
pub const SWAP2SWAP1DUP3SUBSWAP2DUP3GTPUSH2: u8 = 0xCA;
pub const SWAP1DUP2: u8 = 0xCB;
pub const SHRSHRDUP1MULDUP1: u8 = 0xCC;
pub const SWAP3POPPOPPOP: u8 = 0xCD;
pub const SUBSLTISZEROPUSH2: u8 = 0xCE;
pub const DUP11MULDUP3SUBMULDUP1: u8 = 0xCF;
/// Filler written over the absorbed opcodes by the whole-code pass of the
/// bytecode crate; it is a plain no-op outside the super-instruction range
/// that this pass rejects.
pub const NOP: u8 = 0xD0;

} // verus!
