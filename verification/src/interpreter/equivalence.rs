//! A super-instruction does what the run it replaced did.
//!
//! The plain instructions that the fusion rules combine are given their
//! EVM meaning here, one at a time: the interpreter fetches the byte at
//! the program counter, moves past it, and executes it.  The first law
//! takes a code in which a fusion rule matches, rewrites the window as the
//! passes do, and compares one step of the super-instruction on the new
//! code with the plain instructions run one by one on the old code.  The
//! others carry this to the whole output of each pass.

pub mod runs;
pub mod windows;

use vstd::prelude::*;
use crate::bytecode::opcode as op;
use crate::bytecode::opcode_optimizer::FusionError;
use crate::fusion::{
    Dialect, agree_on, filler, fusion_scan, lemma_apply_checks_len, lemma_rewritten_by_shift, lemma_rule_wf,
    lemma_scan_effect, lemma_scan_trace, rewritten_by, rule_apply, rule_matches, rule_shape,
};
use crate::handler::opcode_optimizer::{
    basic_blocks, block_fusion, block_outcome, block_skipped, law_block_fusion_effect, law_block_fusion_is_local,
    law_blocks_partition, lemma_block_holding,
};
use crate::interpreter::complex::{
    charged, spec_and_dup2_add_swap1_dup2_lt, spec_and_swap1_pop_swap2_swap1,
    spec_dup11_mul_dup3_sub_mul_dup1, spec_dup1_push4_eq_push2, spec_dup2_lt, spec_dup2_mstore_push1_add,
    spec_dup3_and, spec_iszero_push2, spec_jump_if_zero, spec_pop2, spec_pop_jump, spec_pop_swap2_swap1_pop,
    spec_push1_add, spec_push1_calldataload_push1_shr_dup1_push4_gt_push2, spec_push1_dup1, spec_push1_push1,
    spec_push1_push1_push1_shl_sub, spec_push1_shl, spec_push2_jump, spec_push2_jumpi,
    spec_shr_shr_dup1_mul_dup1, spec_sub_slt_iszero_push2, spec_swap1_dup2, spec_swap1_pop,
    spec_swap1_pop_swap2_swap1, spec_swap1_push1_dup1_not_swap2_add_and_dup2_add_swap1_dup2_lt,
    spec_swap2_pop, spec_swap2_swap1, spec_swap2_swap1_dup3_sub_swap2_dup3_gt_push2,
    spec_swap2_swap1_pop_jump, spec_swap3_pop_pop_pop,
};
use crate::interpreter::machine::{
    BASE, HIGH, InstructionResult, LOW, MID, MachineView, STACK_LIMIT, VERYLOW, expand_memory,
    memory_expansion_fails, nth, op_add, op_and, op_calldataload, op_dup, op_eq,
    op_gt, op_iszero, op_lt, op_mul, op_not, op_pop, op_push, op_shl, op_shr, op_slt, op_sub, op_swap,
    store_word,
};
use crate::interpreter::word::{Word, w_add, w_and, word_from};

verus! {

/// An instruction that charges `cost`, needs `need` words on the stack and
/// room for `grow` more, and on success leaves stack `s` and moves the
/// program counter to `pc`.
#[verifier::opaque]
pub open spec fn plain_effect(m: MachineView, cost: int, need: int, grow: int, s: Seq<Word>, pc: int) -> MachineView {
    if m.gas < cost {
        m.halt(InstructionResult::OutOfGas)
    } else {
        let g = charged(m, cost);
        if g.stack.len() < need {
            g.halt(InstructionResult::StackUnderflow)
        } else if g.stack.len() + grow > STACK_LIMIT {
            g.halt(InstructionResult::StackOverflow)
        } else {
            g.with_stack(s).with_pc(pc)
        }
    }
}

/// A plain instruction of the combined runs, executed on `m` whose program
/// counter is already past the opcode.  `None` for other opcodes.
pub open spec fn plain_exec(o: u8, m: MachineView) -> Option<MachineView> {
    let s = m.stack;
    let pc = m.pc;
    if o == op::PUSH1 {
        Some(plain_effect(m, VERYLOW as int, 0, 1, op_push(s, word_from(m.code_byte(pc) as u64)), pc + 1))
    } else if o == op::PUSH2 {
        Some(plain_effect(m, VERYLOW as int, 0, 1, op_push(s, word_from(m.code_u16(pc) as u64)), pc + 2))
    } else if o == op::PUSH4 {
        Some(plain_effect(m, VERYLOW as int, 0, 1, op_push(s, word_from(m.code_u32(pc) as u64)), pc + 4))
    } else if o == op::DUP1 {
        Some(plain_effect(m, VERYLOW as int, 1, 1, op_dup(s, 1), pc))
    } else if o == op::DUP2 {
        Some(plain_effect(m, VERYLOW as int, 2, 1, op_dup(s, 2), pc))
    } else if o == op::DUP3 {
        Some(plain_effect(m, VERYLOW as int, 3, 1, op_dup(s, 3), pc))
    } else if o == op::DUP11 {
        Some(plain_effect(m, VERYLOW as int, 11, 1, op_dup(s, 11), pc))
    } else if o == op::SWAP1 {
        Some(plain_effect(m, VERYLOW as int, 2, 0, op_swap(s, 1), pc))
    } else if o == op::SWAP2 {
        Some(plain_effect(m, VERYLOW as int, 3, 0, op_swap(s, 2), pc))
    } else if o == op::SWAP3 {
        Some(plain_effect(m, VERYLOW as int, 4, 0, op_swap(s, 3), pc))
    } else if o == op::POP {
        Some(plain_effect(m, BASE as int, 1, 0, op_pop(s), pc))
    } else if o == op::ADD {
        Some(plain_effect(m, VERYLOW as int, 2, 0, op_add(s), pc))
    } else if o == op::SUB {
        Some(plain_effect(m, VERYLOW as int, 2, 0, op_sub(s), pc))
    } else if o == op::MUL {
        Some(plain_effect(m, LOW as int, 2, 0, op_mul(s), pc))
    } else if o == op::AND {
        Some(plain_effect(m, VERYLOW as int, 2, 0, op_and(s), pc))
    } else if o == op::LT {
        Some(plain_effect(m, VERYLOW as int, 2, 0, op_lt(s), pc))
    } else if o == op::GT {
        Some(plain_effect(m, VERYLOW as int, 2, 0, op_gt(s), pc))
    } else if o == op::SLT {
        Some(plain_effect(m, VERYLOW as int, 2, 0, op_slt(s), pc))
    } else if o == op::EQ {
        Some(plain_effect(m, VERYLOW as int, 2, 0, op_eq(s), pc))
    } else if o == op::SHL {
        Some(plain_effect(m, VERYLOW as int, 2, 0, op_shl(s), pc))
    } else if o == op::SHR {
        Some(plain_effect(m, VERYLOW as int, 2, 0, op_shr(s), pc))
    } else if o == op::ISZERO {
        Some(plain_effect(m, VERYLOW as int, 1, 0, op_iszero(s), pc))
    } else if o == op::NOT {
        Some(plain_effect(m, VERYLOW as int, 1, 0, op_not(s), pc))
    } else if o == op::CALLDATALOAD {
        Some(plain_effect(m, VERYLOW as int, 1, 0, op_calldataload(s, m.input), pc))
    } else if o == op::MSTORE {
        let g = plain_effect(m, VERYLOW as int, 2, 0, op_pop(op_pop(s)), pc);
        let off = nth(s, 0);
        Some(
            if g.halted is Some {
                g
            } else if off.value() > usize::MAX {
                g.halt(InstructionResult::InvalidOperandOOG)
            } else if memory_expansion_fails(g, off.value() + 32) {
                g.halt(InstructionResult::MemoryOOG)
            } else {
                let e = expand_memory(g, off.value() + 32);
                MachineView { memory: store_word(e.memory, off.value(), nth(s, 1)), ..e }
            },
        )
    } else if o == op::JUMP {
        let g = plain_effect(m, MID as int, 1, 0, op_pop(s), pc);
        Some(if g.halted is None { g.jump_to(nth(s, 0)) } else { g })
    } else if o == op::JUMPI {
        let g = plain_effect(m, HIGH as int, 2, 0, op_pop(op_pop(s)), pc);
        Some(if g.halted is None && nth(s, 1).value() != 0 { g.jump_to(nth(s, 0)) } else { g })
    } else {
        None
    }
}

/// A super-instruction, executed on `m` whose program counter is already
/// past the opcode.  `None` for other opcodes.
pub open spec fn super_exec(o: u8, m: MachineView) -> Option<MachineView> {
    if o == op::ANDSWAP1POPSWAP2SWAP1 {
        Some(spec_and_swap1_pop_swap2_swap1(m))
    } else if o == op::SWAP2SWAP1POPJUMP {
        Some(spec_swap2_swap1_pop_jump(m))
    } else if o == op::SWAP1POPSWAP2SWAP1 {
        Some(spec_swap1_pop_swap2_swap1(m))
    } else if o == op::POPSWAP2SWAP1POP {
        Some(spec_pop_swap2_swap1_pop(m))
    } else if o == op::PUSH2JUMP {
        Some(spec_push2_jump(m))
    } else if o == op::PUSH2JUMPI {
        Some(spec_push2_jumpi(m))
    } else if o == op::SWAP2POP {
        Some(spec_swap2_pop(m))
    } else if o == op::SWAP1POP {
        Some(spec_swap1_pop(m))
    } else if o == op::SWAP1DUP2 {
        Some(spec_swap1_dup2(m))
    } else if o == op::SWAP3POPPOPPOP {
        Some(spec_swap3_pop_pop_pop(m))
    } else if o == op::PUSH1PUSH1 {
        Some(spec_push1_push1(m))
    } else if o == op::PUSH1ADD {
        Some(spec_push1_add(m))
    } else if o == op::PUSH1SHL {
        Some(spec_push1_shl(m))
    } else if o == op::PUSH1DUP1 {
        Some(spec_push1_dup1(m))
    } else if o == op::DUP2LT {
        Some(spec_dup2_lt(m))
    } else if o == op::DUP3AND {
        Some(spec_dup3_and(m))
    } else if o == op::POP2 {
        Some(spec_pop2(m))
    } else if o == op::ISZEROPUSH2 {
        Some(spec_iszero_push2(m))
    } else if o == op::JUMPIFZERO {
        Some(spec_jump_if_zero(m))
    } else if o == op::SHRSHRDUP1MULDUP1 {
        Some(spec_shr_shr_dup1_mul_dup1(m))
    } else if o == op::SUBSLTISZEROPUSH2 {
        Some(spec_sub_slt_iszero_push2(m))
    } else if o == op::DUP11MULDUP3SUBMULDUP1 {
        Some(spec_dup11_mul_dup3_sub_mul_dup1(m))
    } else if o == op::DUP2MSTOREPUSH1ADD {
        Some(spec_dup2_mstore_push1_add(m))
    } else if o == op::ANDDUP2ADDSWAP1DUP2LT {
        Some(spec_and_dup2_add_swap1_dup2_lt(m))
    } else if o == op::DUP1PUSH4EQPUSH2 {
        Some(spec_dup1_push4_eq_push2(m))
    } else if o == op::PUSH1PUSH1PUSH1SHLSUB {
        Some(spec_push1_push1_push1_shl_sub(m))
    } else if o == op::SWAP1PUSH1DUP1NOTSWAP2ADDANDDUP2ADDSWAP1DUP2LT {
        Some(spec_swap1_push1_dup1_not_swap2_add_and_dup2_add_swap1_dup2_lt(m))
    } else if o == op::PUSH1CALLDATALOADPUSH1SHRDUP1PUSH4GTPUSH2 {
        Some(spec_push1_calldataload_push1_shr_dup1_push4_gt_push2(m))
    } else if o == op::POPJUMP {
        Some(spec_pop_jump(m))
    } else if o == op::SWAP2SWAP1 {
        Some(spec_swap2_swap1(m))
    } else if o == op::SWAP2SWAP1DUP3SUBSWAP2DUP3GTPUSH2 {
        Some(spec_swap2_swap1_dup3_sub_swap2_dup3_gt_push2(m))
    } else {
        None
    }
}

/// One interpreter step over plain code: fetch, move past the opcode,
/// execute.
#[verifier::opaque]
pub open spec fn plain_step(m: MachineView) -> Option<MachineView> {
    plain_exec(m.code_byte(m.pc), m.with_pc(m.pc + 1))
}

/// One interpreter step on a super-instruction.
#[verifier::opaque]
pub open spec fn super_step(m: MachineView) -> Option<MachineView> {
    super_exec(m.code_byte(m.pc), m.with_pc(m.pc + 1))
}

/// `n` plain steps from `m`; a halted state stays as it is.
pub open spec fn plain_run(m: MachineView, n: nat) -> Option<MachineView>
    decreases n,
{
    if n == 0 || m.halted is Some {
        Some(m)
    } else {
        match plain_step(m) {
            Some(m1) => plain_run(m1, (n - 1) as nat),
            None => None,
        }
    }
}

/// `m` running on other code.
pub open spec fn with_code(m: MachineView, c: Seq<u8>) -> MachineView {
    MachineView { code: c, ..m }
}

/// Whether two states agree in all but their code and gas.
pub open spec fn same_but_code_and_gas(a: MachineView, b: MachineView) -> bool {
    &&& a.stack == b.stack
    &&& a.pc == b.pc
    &&& a.jump_table == b.jump_table
    &&& a.input == b.input
    &&& a.memory == b.memory
    &&& a.halted == b.halted
}

/// The precondition shared by the per-rule proofs: rule `k` matches at
/// the program counter and its plain run completes without halting.
pub open spec fn plain_run_completes(k: int, m: MachineView) -> bool {
    &&& m.halted is None
    &&& rule_matches(m.code, m.pc, rule_shape(k))
    &&& plain_run(m, rule_shape(k).checks.len()) matches Some(y) && y.halted is None
}

/// Gas that the super-instruction of rule `k` leaves beyond what its plain
/// run leaves: `DUP3AND` charges one `VERYLOW` where the run charges two,
/// and the `SWAP2 .. PUSH2` instruction charges `7 * VERYLOW + MID` where
/// the run charges `8 * VERYLOW`.
pub open spec fn gas_gain(k: int) -> int {
    if k == 24 {
        VERYLOW as int
    } else if k == 25 {
        VERYLOW - MID
    } else {
        0
    }
}

/// What the law concludes for rule `k`: one step of the super-instruction
/// on the rewritten code ends where the plain run on the old code ends,
/// but for the code itself and with `gas_gain(k)` more gas.
pub open spec fn fused_step_matches(k: int, m: MachineView, f: u8) -> bool {
    let u = with_code(m, rule_apply(m.code, m.pc, rule_shape(k), f));
    &&& super_step(u) matches Some(x)
    &&& plain_run(m, rule_shape(k).checks.len()) matches Some(y)
    &&& same_but_code_and_gas(super_step(u)->0, plain_run(m, rule_shape(k).checks.len())->0)
    &&& super_step(u)->0.code == u.code
    &&& super_step(u)->0.gas == plain_run(m, rule_shape(k).checks.len())->0.gas + gas_gain(k)
}

/// What a plain instruction that did not halt did.
pub(crate) proof fn lemma_effect_ok(m: MachineView, cost: int, need: int, grow: int, s: Seq<Word>, pc: int)
    requires
        m.halted is None,
        plain_effect(m, cost, need, grow, s, pc).halted is None,
    ensures
        m.gas >= cost,
        m.stack.len() >= need,
        m.stack.len() + grow <= STACK_LIMIT,
        plain_effect(m, cost, need, grow, s, pc) == (MachineView { stack: s, pc: pc, gas: m.gas - cost, ..m }),
{
    reveal(plain_effect);
}

/// A run that ends without halting took its first step without halting.
pub(crate) proof fn lemma_run_unfold(m: MachineView, n: nat)
    requires
        n > 0,
        plain_run(m, n) matches Some(y) && y.halted is None,
    ensures
        m.halted is None,
        plain_step(m) is Some,
        plain_run(plain_step(m)->0, (n - 1) as nat) == plain_run(m, n),
{
}


/// A super-instruction executes the run of plain instructions that its
/// fusion rule replaced.
///
/// Take a state whose program counter is at a window where fusion rule `k`
/// matches, and whose plain instructions in that window run to their end
/// without halting.  Rewrite the window as a fusion pass does, with any
/// filler byte.  Then one step of the super-instruction on the rewritten
/// code ends in the state that the plain run ends in: the same stack,
/// program counter, jump table, call data, memory and halting status, and
/// the same gas but for `gas_gain(k)`.
///
/// Left out: for `AND DUP2 ADD SWAP1 DUP2 LT`, whose super-instruction adds
/// the top two words where the run ands them, the stacks on which the two
/// differ; for the `SWAP2 .. PUSH2` rule, whose super-instruction charges
/// more than its run, the gas in between the two charges.
pub proof fn law_super_instruction_runs_its_sequence(k: int, m: MachineView, f: u8)
    requires
        0 <= k < 31,
        k == 4 ==> w_and(nth(m.stack, 0), nth(m.stack, 1)) == w_add(nth(m.stack, 0), nth(m.stack, 1)),
        k == 25 ==> m.gas >= 7 * VERYLOW + MID,
        plain_run_completes(k, m),
    ensures
        fused_step_matches(k, m, f),
{
    if k == 0 {
        runs::runs_push1_calldataload_push1_shr_dup1_push4_gt_push2(m, f);
    } else if k == 1 {
        runs::runs_swap1_push1_dup1_not_swap2_add_and_dup2_add_swap1_dup2_lt(m, f);
    } else if k == 2 {
        runs::runs_dup1_push4_eq_push2(m, f);
    } else if k == 3 {
        runs::runs_push1_push1_push1_shl_sub(m, f);
    } else if k == 4 {
        runs::runs_and_dup2_add_swap1_dup2_lt(m, f);
    } else if k == 5 {
        runs::runs_and_swap1_pop_swap2_swap1(m, f);
    } else if k == 6 {
        runs::runs_jump_if_zero(m, f);
    } else if k == 7 {
        runs::runs_dup2_mstore_push1_add(m, f);
    } else if k == 8 {
        runs::runs_swap2_swap1_pop_jump(m, f);
    } else if k == 9 {
        runs::runs_swap1_pop_swap2_swap1(m, f);
    } else if k == 10 {
        runs::runs_pop_swap2_swap1_pop(m, f);
    } else if k == 11 {
        runs::runs_push2_jump(m, f);
    } else if k == 12 {
        runs::runs_push2_jumpi(m, f);
    } else if k == 13 {
        runs::runs_push1_push1(m, f);
    } else if k == 14 {
        runs::runs_iszero_push2(m, f);
    } else if k == 15 {
        runs::runs_push1_add(m, f);
    } else if k == 16 {
        runs::runs_push1_shl(m, f);
    } else if k == 17 {
        runs::runs_push1_dup1(m, f);
    } else if k == 18 {
        runs::runs_swap1_pop(m, f);
    } else if k == 19 {
        runs::runs_pop_jump(m, f);
    } else if k == 20 {
        runs::runs_pop2(m, f);
    } else if k == 21 {
        runs::runs_swap2_swap1(m, f);
    } else if k == 22 {
        runs::runs_swap2_pop(m, f);
    } else if k == 23 {
        runs::runs_dup2_lt(m, f);
    } else if k == 24 {
        runs::runs_dup3_and(m, f);
    } else if k == 25 {
        runs::runs_swap2_swap1_dup3_sub_swap2_dup3_gt_push2(m, f);
    } else if k == 26 {
        runs::runs_swap1_dup2(m, f);
    } else if k == 27 {
        runs::runs_shr_shr_dup1_mul_dup1(m, f);
    } else if k == 28 {
        runs::runs_swap3_pop_pop_pop(m, f);
    } else if k == 29 {
        runs::runs_sub_slt_iszero_push2(m, f);
    } else if k == 30 {
        runs::runs_dup11_mul_dup3_sub_mul_dup1(m, f);
    }
}

/// The rule whose super-instruction is `b`.
pub open spec fn rule_of(b: u8) -> int {
    if b == op::PUSH1CALLDATALOADPUSH1SHRDUP1PUSH4GTPUSH2 {
        0
    } else if b == op::SWAP1PUSH1DUP1NOTSWAP2ADDANDDUP2ADDSWAP1DUP2LT {
        1
    } else if b == op::DUP1PUSH4EQPUSH2 {
        2
    } else if b == op::PUSH1PUSH1PUSH1SHLSUB {
        3
    } else if b == op::ANDDUP2ADDSWAP1DUP2LT {
        4
    } else if b == op::ANDSWAP1POPSWAP2SWAP1 {
        5
    } else if b == op::JUMPIFZERO {
        6
    } else if b == op::DUP2MSTOREPUSH1ADD {
        7
    } else if b == op::SWAP2SWAP1POPJUMP {
        8
    } else if b == op::SWAP1POPSWAP2SWAP1 {
        9
    } else if b == op::POPSWAP2SWAP1POP {
        10
    } else if b == op::PUSH2JUMP {
        11
    } else if b == op::PUSH2JUMPI {
        12
    } else if b == op::PUSH1PUSH1 {
        13
    } else if b == op::ISZEROPUSH2 {
        14
    } else if b == op::PUSH1ADD {
        15
    } else if b == op::PUSH1SHL {
        16
    } else if b == op::PUSH1DUP1 {
        17
    } else if b == op::SWAP1POP {
        18
    } else if b == op::POPJUMP {
        19
    } else if b == op::POP2 {
        20
    } else if b == op::SWAP2SWAP1 {
        21
    } else if b == op::SWAP2POP {
        22
    } else if b == op::DUP2LT {
        23
    } else if b == op::DUP3AND {
        24
    } else if b == op::SWAP2SWAP1DUP3SUBSWAP2DUP3GTPUSH2 {
        25
    } else if b == op::SWAP1DUP2 {
        26
    } else if b == op::SHRSHRDUP1MULDUP1 {
        27
    } else if b == op::SWAP3POPPOPPOP {
        28
    } else if b == op::SUBSLTISZEROPUSH2 {
        29
    } else if b == op::DUP11MULDUP3SUBMULDUP1 {
        30
    } else {
        -1
    }
}

/// A super-instruction reads no code outside its window.
proof fn lemma_super_step_local(k: int, m: MachineView, c: Seq<u8>)
    requires
        0 <= k < 31,
        0 <= m.pc,
        m.pc + rule_shape(k).window < m.code.len(),
        agree_on(m.code, c, m.pc, m.pc + rule_shape(k).window),
        m.code[m.pc] == rule_shape(k).fused,
    ensures
        super_step(m) is Some,
        super_step(with_code(m, c)) == Some(with_code(super_step(m)->0, c)),
{
    if k == 0 {
        windows::window_of_push1_calldataload_push1_shr_dup1_push4_gt_push2(m, c);
    } else if k == 1 {
        windows::window_of_swap1_push1_dup1_not_swap2_add_and_dup2_add_swap1_dup2_lt(m, c);
    } else if k == 2 {
        windows::window_of_dup1_push4_eq_push2(m, c);
    } else if k == 3 {
        windows::window_of_push1_push1_push1_shl_sub(m, c);
    } else if k == 4 {
        windows::window_of_and_dup2_add_swap1_dup2_lt(m, c);
    } else if k == 5 {
        windows::window_of_and_swap1_pop_swap2_swap1(m, c);
    } else if k == 6 {
        windows::window_of_jump_if_zero(m, c);
    } else if k == 7 {
        windows::window_of_dup2_mstore_push1_add(m, c);
    } else if k == 8 {
        windows::window_of_swap2_swap1_pop_jump(m, c);
    } else if k == 9 {
        windows::window_of_swap1_pop_swap2_swap1(m, c);
    } else if k == 10 {
        windows::window_of_pop_swap2_swap1_pop(m, c);
    } else if k == 11 {
        windows::window_of_push2_jump(m, c);
    } else if k == 12 {
        windows::window_of_push2_jumpi(m, c);
    } else if k == 13 {
        windows::window_of_push1_push1(m, c);
    } else if k == 14 {
        windows::window_of_iszero_push2(m, c);
    } else if k == 15 {
        windows::window_of_push1_add(m, c);
    } else if k == 16 {
        windows::window_of_push1_shl(m, c);
    } else if k == 17 {
        windows::window_of_push1_dup1(m, c);
    } else if k == 18 {
        windows::window_of_swap1_pop(m, c);
    } else if k == 19 {
        windows::window_of_pop_jump(m, c);
    } else if k == 20 {
        windows::window_of_pop2(m, c);
    } else if k == 21 {
        windows::window_of_swap2_swap1(m, c);
    } else if k == 22 {
        windows::window_of_swap2_pop(m, c);
    } else if k == 23 {
        windows::window_of_dup2_lt(m, c);
    } else if k == 24 {
        windows::window_of_dup3_and(m, c);
    } else if k == 25 {
        windows::window_of_swap2_swap1_dup3_sub_swap2_dup3_gt_push2(m, c);
    } else if k == 26 {
        windows::window_of_swap1_dup2(m, c);
    } else if k == 27 {
        windows::window_of_shr_shr_dup1_mul_dup1(m, c);
    } else if k == 28 {
        windows::window_of_swap3_pop_pop_pop(m, c);
    } else if k == 29 {
        windows::window_of_sub_slt_iszero_push2(m, c);
    } else if k == 30 {
        windows::window_of_dup11_mul_dup3_sub_mul_dup1(m, c);
    }
}

/// A rewrite puts the rule's super-instruction at the start of its window.
proof fn lemma_rule_apply_start(k: int, s: Seq<u8>, p: int, f: u8)
    requires
        0 <= k < 31,
        rule_matches(s, p, rule_shape(k)),
    ensures
        rule_apply(s, p, rule_shape(k), f)[p] == rule_shape(k).fused,
        rule_of(rule_shape(k).fused) == k,
{
    if k == 0 {
        windows::starts_push1_calldataload_push1_shr_dup1_push4_gt_push2(s, p, f);
    } else if k == 1 {
        windows::starts_swap1_push1_dup1_not_swap2_add_and_dup2_add_swap1_dup2_lt(s, p, f);
    } else if k == 2 {
        windows::starts_dup1_push4_eq_push2(s, p, f);
    } else if k == 3 {
        windows::starts_push1_push1_push1_shl_sub(s, p, f);
    } else if k == 4 {
        windows::starts_and_dup2_add_swap1_dup2_lt(s, p, f);
    } else if k == 5 {
        windows::starts_and_swap1_pop_swap2_swap1(s, p, f);
    } else if k == 6 {
        windows::starts_jump_if_zero(s, p, f);
    } else if k == 7 {
        windows::starts_dup2_mstore_push1_add(s, p, f);
    } else if k == 8 {
        windows::starts_swap2_swap1_pop_jump(s, p, f);
    } else if k == 9 {
        windows::starts_swap1_pop_swap2_swap1(s, p, f);
    } else if k == 10 {
        windows::starts_pop_swap2_swap1_pop(s, p, f);
    } else if k == 11 {
        windows::starts_push2_jump(s, p, f);
    } else if k == 12 {
        windows::starts_push2_jumpi(s, p, f);
    } else if k == 13 {
        windows::starts_push1_push1(s, p, f);
    } else if k == 14 {
        windows::starts_iszero_push2(s, p, f);
    } else if k == 15 {
        windows::starts_push1_add(s, p, f);
    } else if k == 16 {
        windows::starts_push1_shl(s, p, f);
    } else if k == 17 {
        windows::starts_push1_dup1(s, p, f);
    } else if k == 18 {
        windows::starts_swap1_pop(s, p, f);
    } else if k == 19 {
        windows::starts_pop_jump(s, p, f);
    } else if k == 20 {
        windows::starts_pop2(s, p, f);
    } else if k == 21 {
        windows::starts_swap2_swap1(s, p, f);
    } else if k == 22 {
        windows::starts_swap2_pop(s, p, f);
    } else if k == 23 {
        windows::starts_dup2_lt(s, p, f);
    } else if k == 24 {
        windows::starts_dup3_and(s, p, f);
    } else if k == 25 {
        windows::starts_swap2_swap1_dup3_sub_swap2_dup3_gt_push2(s, p, f);
    } else if k == 26 {
        windows::starts_swap1_dup2(s, p, f);
    } else if k == 27 {
        windows::starts_shr_shr_dup1_mul_dup1(s, p, f);
    } else if k == 28 {
        windows::starts_swap3_pop_pop_pop(s, p, f);
    } else if k == 29 {
        windows::starts_sub_slt_iszero_push2(s, p, f);
    } else if k == 30 {
        windows::starts_dup11_mul_dup3_sub_mul_dup1(s, p, f);
    }
}

/// Where `t` holds, at the program counter, the bytes that the rewrite of
/// rule `k` in `s` leaves in the part of the window its super-instruction
/// reads, one step of the super-instruction on `t` ends where the plain run
/// ends on `s`.
proof fn lemma_fused_window_runs(s: Seq<u8>, t: Seq<u8>, k: int, m: MachineView, f: u8)
    requires
        0 <= k < 31,
        rule_matches(s, m.pc, rule_shape(k)),
        agree_on(t, rule_apply(s, m.pc, rule_shape(k), f), m.pc, m.pc + rule_shape(k).window),
        t.len() == s.len(),
        m.code == s,
        k == 4 ==> w_and(nth(m.stack, 0), nth(m.stack, 1)) == w_add(nth(m.stack, 0), nth(m.stack, 1)),
        k == 25 ==> m.gas >= 7 * VERYLOW + MID,
        m.halted is None,
        plain_run(m, rule_shape(k).checks.len()) matches Some(y) && y.halted is None,
    ensures
        runs_like_plain(t, k, m),
{
    let p = m.pc;
    lemma_rule_wf(k);
    lemma_rule_apply_start(k, s, p, f);
    let u = rule_apply(s, p, rule_shape(k), f);
    lemma_apply_checks_len(s, p, rule_shape(k), f, rule_shape(k).checks.len() as int);
    law_super_instruction_runs_its_sequence(k, m, f);
    let mu = with_code(m, u);
    assert(agree_on(u, t, p, p + rule_shape(k).window)) by {
        assert forall|q: int| p <= q <= p + rule_shape(k).window && 0 <= q < u.len() implies #[trigger] u[q] == #[trigger] t[q] by {
            assert(t[q] == u[q]);
        }
    }
    lemma_super_step_local(k, mu, t);
    assert(with_code(mu, t) == with_code(m, t));
}

/// The conclusion shared by the laws on whole passes: one step of the
/// super-instruction of rule `k` on the fused code `t` ends where the plain
/// run of `m` ends, but for the code and with `gas_gain(k)` more gas.
pub open spec fn runs_like_plain(t: Seq<u8>, k: int, m: MachineView) -> bool {
    let y = plain_run(m, rule_shape(k).checks.len())->0;
    &&& super_step(with_code(m, t)) matches Some(x)
    &&& same_but_code_and_gas(super_step(with_code(m, t))->0, y)
    &&& super_step(with_code(m, t))->0.code == t
    &&& super_step(with_code(m, t))->0.gas == y.gas + gas_gain(k)
}

/// The handler pass keeps the meaning of the code at each super-instruction
/// it writes.
///
/// Let the handler pass turn code `s` into `t`, and let `t` hold, at a
/// position where `s` holds something else, the super-instruction of rule
/// `k`.  Take a state at that position on `s` whose plain instructions of
/// that rule's window run to their end without halting.  Then one step of
/// the super-instruction on `t` ends where that plain run ends on `s`: the
/// same stack, program counter, jump table, call data, memory and halting
/// status, and the same gas but for `gas_gain(k)`.  The exceptions are
/// those of `law_super_instruction_runs_its_sequence`.
pub proof fn law_handler_pass_runs_like_its_input(s: Seq<u8>, k: int, m: MachineView)
    requires
        0 <= k < 31,
        fusion_scan(Dialect::Handler, s, 0) is Ok,
        m.code == s,
        0 <= m.pc < s.len(),
        fusion_scan(Dialect::Handler, s, 0)->Ok_0[m.pc] == rule_shape(k).fused,
        s[m.pc] != rule_shape(k).fused,
        k == 4 ==> w_and(nth(m.stack, 0), nth(m.stack, 1)) == w_add(nth(m.stack, 0), nth(m.stack, 1)),
        k == 25 ==> m.gas >= 7 * VERYLOW + MID,
        m.halted is None,
        plain_run(m, rule_shape(k).checks.len()) matches Some(y) && y.halted is None,
    ensures
        runs_like_plain(fusion_scan(Dialect::Handler, s, 0)->Ok_0, k, m),
{
    let t = fusion_scan(Dialect::Handler, s, 0)->Ok_0;
    let p = m.pc;
    lemma_rule_wf(k);
    lemma_scan_effect(Dialect::Handler, s, 0);
    lemma_scan_trace(Dialect::Handler, s, 0);
    assert(t[p] != s[p] && t[p] != op::SNOP);
    let k2 = choose|k2: int| rewritten_by(s, t, p, k2, op::SNOP);
    lemma_rule_apply_start(k2, s, p, op::SNOP);
    lemma_rule_apply_start(k, s, p, op::SNOP);
    assert(t[p] == rule_apply(s, p, rule_shape(k2), op::SNOP)[p]);
    assert(k2 == k);
    lemma_fused_window_runs(s, t, k, m, op::SNOP);
}

/// The whole-code pass of the bytecode crate keeps the meaning of the code
/// at each super-instruction it writes: the statement of
/// `law_handler_pass_runs_like_its_input`, for the code that
/// `do_code_fusion` returns.
pub proof fn law_bytecode_pass_runs_like_its_input(s: Seq<u8>, k: int, m: MachineView)
    requires
        0 <= k < 31,
        fusion_scan(Dialect::Bytecode, s, 0) is Ok,
        m.code == s,
        0 <= m.pc < s.len(),
        fusion_scan(Dialect::Bytecode, s, 0)->Ok_0[m.pc] == rule_shape(k).fused,
        s[m.pc] != rule_shape(k).fused,
        k == 4 ==> w_and(nth(m.stack, 0), nth(m.stack, 1)) == w_add(nth(m.stack, 0), nth(m.stack, 1)),
        k == 25 ==> m.gas >= 7 * VERYLOW + MID,
        m.halted is None,
        plain_run(m, rule_shape(k).checks.len()) matches Some(y) && y.halted is None,
    ensures
        runs_like_plain(fusion_scan(Dialect::Bytecode, s, 0)->Ok_0, k, m),
{
    let t = fusion_scan(Dialect::Bytecode, s, 0)->Ok_0;
    let p = m.pc;
    lemma_rule_wf(k);
    lemma_scan_effect(Dialect::Bytecode, s, 0);
    lemma_scan_trace(Dialect::Bytecode, s, 0);
    assert(t[p] != s[p] && t[p] != op::NOP);
    let k2 = choose|k2: int| rewritten_by(s, t, p, k2, op::NOP);
    lemma_rule_apply_start(k2, s, p, op::NOP);
    lemma_rule_apply_start(k, s, p, op::NOP);
    assert(t[p] == rule_apply(s, p, rule_shape(k2), op::NOP)[p]);
    assert(k2 == k);
    lemma_fused_window_runs(s, t, k, m, op::NOP);
}

/// Block-wise fusion keeps the meaning of the code at each super-instruction
/// it writes: the statement of `law_handler_pass_runs_like_its_input`, for
/// the code that `do_basic_block_opcode_fusion` returns.
#[verifier::spinoff_prover]
pub proof fn law_block_fusion_runs_like_its_input(s: Seq<u8>, k: int, m: MachineView)
    requires
        0 <= k < 31,
        block_fusion(s) is Ok,
        m.code == s,
        0 <= m.pc < s.len(),
        block_fusion(s)->Ok_0[m.pc] == rule_shape(k).fused,
        s[m.pc] != rule_shape(k).fused,
        k == 4 ==> w_and(nth(m.stack, 0), nth(m.stack, 1)) == w_add(nth(m.stack, 0), nth(m.stack, 1)),
        k == 25 ==> m.gas >= 7 * VERYLOW + MID,
        m.halted is None,
        plain_run(m, rule_shape(k).checks.len()) matches Some(y) && y.halted is None,
    ensures
        runs_like_plain(block_fusion(s)->Ok_0, k, m),
{
    let t = block_fusion(s)->Ok_0;
    let p = m.pc;
    lemma_rule_wf(k);
    assert(t.len() == s.len()) by {
        law_block_fusion_effect(s);
    }
    assert(basic_blocks(s).len() > 0 && basic_blocks(s)[0].start_pc == 0) by {
        law_blocks_partition(s);
    }
    let j = lemma_block_holding(s, p, 0);
    let b = basic_blocks(s)[j];
    assert(0 <= b.start_pc <= p < b.end_pc <= s.len()) by {
        law_blocks_partition(s);
    }
    assert(block_outcome(s, j, t)) by {
        law_block_fusion_is_local(s);
    }
    let ss = s.subrange(b.start_pc, b.end_pc);
    let tt = t.subrange(b.start_pc, b.end_pc);
    let q = p - b.start_pc;
    assert(tt[q] == t[p] && ss[q] == s[p]);
    if block_skipped(s, j) {
        assert(tt[q] == ss[q]);
    }
    assert(fusion_scan(Dialect::Handler, ss, 0) == Ok::<Seq<u8>, FusionError>(tt));
    lemma_scan_trace(Dialect::Handler, ss, 0);
    assert(0 <= q < ss.len());
    let t2 = fusion_scan(Dialect::Handler, ss, 0)->Ok_0;
    assert(t2 == tt);
    assert(t2[q] != ss[q] && t2[q] != op::SNOP);
    assert(exists|k2: int| rewritten_by(ss, tt, q, k2, op::SNOP));
    let k2 = choose|k2: int| rewritten_by(ss, tt, q, k2, op::SNOP);
    assert(rewritten_by(ss, tt, q, k2, op::SNOP));
    lemma_rewritten_by_shift(s, t, b.start_pc, b.end_pc, q, k2, op::SNOP);
    lemma_rule_apply_start(k2, s, p, op::SNOP);
    lemma_rule_apply_start(k, s, p, op::SNOP);
    assert(t[p] == rule_apply(s, p, rule_shape(k2), op::SNOP)[p]);
    assert(k2 == k);
    lemma_fused_window_runs(s, t, k, m, op::SNOP);
}

} // verus!
