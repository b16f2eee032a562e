//! For each fusion rule, the proof that its super-instruction ends where
//! the plain run of its window ends.

use vstd::prelude::*;
use crate::bytecode::opcode as op;
use crate::fusion::{
    apply_checks, lemma_apply_checks_len, rule_apply, rule_shape,
};
use crate::interpreter::complex::{
    spec_and_dup2_add_swap1_dup2_lt, spec_and_swap1_pop_swap2_swap1, spec_dup11_mul_dup3_sub_mul_dup1,
    spec_dup1_push4_eq_push2, spec_dup2_lt, spec_dup2_mstore_push1_add, spec_dup3_and, spec_iszero_push2,
    spec_jump_if_zero, spec_pop2, spec_pop_jump, spec_pop_swap2_swap1_pop, spec_push1_add,
    spec_push1_calldataload_push1_shr_dup1_push4_gt_push2, spec_push1_dup1, spec_push1_push1,
    spec_push1_push1_push1_shl_sub, spec_push1_shl, spec_push2_jump, spec_push2_jumpi,
    spec_shr_shr_dup1_mul_dup1, spec_sub_slt_iszero_push2, spec_swap1_dup2, spec_swap1_pop,
    spec_swap1_pop_swap2_swap1, spec_swap1_push1_dup1_not_swap2_add_and_dup2_add_swap1_dup2_lt,
    spec_swap2_pop, spec_swap2_swap1, spec_swap2_swap1_dup3_sub_swap2_dup3_gt_push2,
    spec_swap2_swap1_pop_jump, spec_swap3_pop_pop_pop, charged,
};
use crate::interpreter::machine::{
    BASE, HIGH, InstructionResult, LOW, MID, MachineView, VERYLOW, expand_memory, lemma_expand_memory_gas,
    memory_expansion_fails, nth, op_add, op_and, op_calldataload, op_dup, op_eq, op_gt, op_iszero, op_lt,
    op_mul, op_not, op_pop, op_push, op_shl, op_shr, op_slt, op_sub, op_swap, store_word,
};
use crate::interpreter::word::{
    w_add, w_and, word_from,
};
use super::{
    fused_step_matches, lemma_effect_ok, lemma_run_unfold, plain_effect, plain_run, plain_run_completes,
    plain_step, super_step, with_code,
};

verus! {

#[verifier::rlimit(100)]
#[verifier::spinoff_prover]
pub(crate) proof fn runs_push1_calldataload_push1_shr_dup1_push4_gt_push2(m: MachineView, f: u8)
    requires
        plain_run_completes(0, m),
    ensures
        fused_step_matches(0, m, f),
{
    let r = rule_shape(0);
    let i = m.pc;
    assert(r.checks[0] == (0usize, op::PUSH1));
    assert(r.checks[1] == (2usize, op::CALLDATALOAD));
    assert(r.checks[2] == (3usize, op::PUSH1));
    assert(r.checks[3] == (5usize, op::SHR));
    assert(r.checks[4] == (6usize, op::DUP1));
    assert(r.checks[5] == (7usize, op::PUSH4));
    assert(r.checks[6] == (12usize, op::GT));
    assert(r.checks[7] == (13usize, op::PUSH2));
    assert(m.code[i + 0] == op::PUSH1);
    assert(m.code[i + 2] == op::CALLDATALOAD);
    assert(m.code[i + 3] == op::PUSH1);
    assert(m.code[i + 5] == op::SHR);
    assert(m.code[i + 6] == op::DUP1);
    assert(m.code[i + 7] == op::PUSH4);
    assert(m.code[i + 12] == op::GT);
    assert(m.code[i + 13] == op::PUSH2);
    let u = rule_apply(m.code, i, r, f);
    assert(u.len() == m.code.len() && u[i] == op::PUSH1CALLDATALOADPUSH1SHRDUP1PUSH4GTPUSH2 && u[i + 1] == m.code[i + 1] && u[i + 4] == m.code[i + 4] && u[i + 8] == m.code[i + 8] && u[i + 9] == m.code[i + 9] && u[i + 10] == m.code[i + 10] && u[i + 11] == m.code[i + 11] && u[i + 14] == m.code[i + 14] && u[i + 15] == m.code[i + 15]) by {
        reveal_with_fuel(apply_checks, 9);
        lemma_apply_checks_len(m.code, i, r, f, 8);
    }
    let mu = with_code(m, u);
    assert(super_step(mu) == Some(spec_push1_calldataload_push1_shr_dup1_push4_gt_push2(mu.with_pc(i + 1)))) by {
        reveal(super_step);
    }
    lemma_run_unfold(m, 8);
    let p0 = m.with_pc(i + 1);
    let g1 = plain_effect(p0, VERYLOW as int, 0, 1, op_push(p0.stack, word_from(p0.code_byte(p0.pc) as u64)), p0.pc + 1);
    let m1 = g1;
    assert(plain_step(m) == Some(m1)) by {
        reveal(plain_step);
    }
    lemma_run_unfold(m1, 7);
    lemma_effect_ok(p0, VERYLOW as int, 0, 1, op_push(p0.stack, word_from(p0.code_byte(p0.pc) as u64)), p0.pc + 1);
    let p1 = m1.with_pc(i + 3);
    let g2 = plain_effect(p1, VERYLOW as int, 1, 0, op_calldataload(p1.stack, p1.input), p1.pc);
    let m2 = g2;
    assert(plain_step(m1) == Some(m2)) by {
        reveal(plain_step);
    }
    lemma_run_unfold(m2, 6);
    lemma_effect_ok(p1, VERYLOW as int, 1, 0, op_calldataload(p1.stack, p1.input), p1.pc);
    let p2 = m2.with_pc(i + 4);
    let g3 = plain_effect(p2, VERYLOW as int, 0, 1, op_push(p2.stack, word_from(p2.code_byte(p2.pc) as u64)), p2.pc + 1);
    let m3 = g3;
    assert(plain_step(m2) == Some(m3)) by {
        reveal(plain_step);
    }
    lemma_run_unfold(m3, 5);
    lemma_effect_ok(p2, VERYLOW as int, 0, 1, op_push(p2.stack, word_from(p2.code_byte(p2.pc) as u64)), p2.pc + 1);
    let p3 = m3.with_pc(i + 6);
    let g4 = plain_effect(p3, VERYLOW as int, 2, 0, op_shr(p3.stack), p3.pc);
    let m4 = g4;
    assert(plain_step(m3) == Some(m4)) by {
        reveal(plain_step);
    }
    lemma_run_unfold(m4, 4);
    lemma_effect_ok(p3, VERYLOW as int, 2, 0, op_shr(p3.stack), p3.pc);
    let p4 = m4.with_pc(i + 7);
    let g5 = plain_effect(p4, VERYLOW as int, 1, 1, op_dup(p4.stack, 1), p4.pc);
    let m5 = g5;
    assert(plain_step(m4) == Some(m5)) by {
        reveal(plain_step);
    }
    lemma_run_unfold(m5, 3);
    lemma_effect_ok(p4, VERYLOW as int, 1, 1, op_dup(p4.stack, 1), p4.pc);
    let p5 = m5.with_pc(i + 8);
    let g6 = plain_effect(p5, VERYLOW as int, 0, 1, op_push(p5.stack, word_from(p5.code_u32(p5.pc) as u64)), p5.pc + 4);
    let m6 = g6;
    assert(plain_step(m5) == Some(m6)) by {
        reveal(plain_step);
    }
    lemma_run_unfold(m6, 2);
    lemma_effect_ok(p5, VERYLOW as int, 0, 1, op_push(p5.stack, word_from(p5.code_u32(p5.pc) as u64)), p5.pc + 4);
    let p6 = m6.with_pc(i + 13);
    let g7 = plain_effect(p6, VERYLOW as int, 2, 0, op_gt(p6.stack), p6.pc);
    let m7 = g7;
    assert(plain_step(m6) == Some(m7)) by {
        reveal(plain_step);
    }
    lemma_run_unfold(m7, 1);
    lemma_effect_ok(p6, VERYLOW as int, 2, 0, op_gt(p6.stack), p6.pc);
    let p7 = m7.with_pc(i + 14);
    let g8 = plain_effect(p7, VERYLOW as int, 0, 1, op_push(p7.stack, word_from(p7.code_u16(p7.pc) as u64)), p7.pc + 2);
    let m8 = g8;
    assert(plain_step(m7) == Some(m8)) by {
        reveal(plain_step);
    }
    assert(plain_run(m8, 0) == Some(m8));
    assert(m8.halted is None);
    lemma_effect_ok(p7, VERYLOW as int, 0, 1, op_push(p7.stack, word_from(p7.code_u16(p7.pc) as u64)), p7.pc + 2);
    assert(mu.code_byte(i + 1) == m.code_byte(i + 1));
    assert(mu.code_byte(i + 4) == m.code_byte(i + 4));
    assert(mu.code_byte(i + 8) == m.code_byte(i + 8));
    assert(mu.code_byte(i + 9) == m.code_byte(i + 9));
    assert(mu.code_byte(i + 10) == m.code_byte(i + 10));
    assert(mu.code_byte(i + 11) == m.code_byte(i + 11));
    assert(mu.code_byte(i + 14) == m.code_byte(i + 14));
    assert(mu.code_byte(i + 15) == m.code_byte(i + 15));
}

#[verifier::rlimit(100)]
#[verifier::spinoff_prover]
pub(crate) proof fn runs_swap1_push1_dup1_not_swap2_add_and_dup2_add_swap1_dup2_lt(m: MachineView, f: u8)
    requires
        plain_run_completes(1, m),
    ensures
        fused_step_matches(1, m, f),
{
    let r = rule_shape(1);
    let i = m.pc;
    assert(r.checks[0] == (0usize, op::SWAP1));
    assert(r.checks[1] == (1usize, op::PUSH1));
    assert(r.checks[2] == (3usize, op::DUP1));
    assert(r.checks[3] == (4usize, op::NOT));
    assert(r.checks[4] == (5usize, op::SWAP2));
    assert(r.checks[5] == (6usize, op::ADD));
    assert(r.checks[6] == (7usize, op::AND));
    assert(r.checks[7] == (8usize, op::DUP2));
    assert(r.checks[8] == (9usize, op::ADD));
    assert(r.checks[9] == (10usize, op::SWAP1));
    assert(r.checks[10] == (11usize, op::DUP2));
    assert(r.checks[11] == (12usize, op::LT));
    assert(m.code[i + 0] == op::SWAP1);
    assert(m.code[i + 1] == op::PUSH1);
    assert(m.code[i + 3] == op::DUP1);
    assert(m.code[i + 4] == op::NOT);
    assert(m.code[i + 5] == op::SWAP2);
    assert(m.code[i + 6] == op::ADD);
    assert(m.code[i + 7] == op::AND);
    assert(m.code[i + 8] == op::DUP2);
    assert(m.code[i + 9] == op::ADD);
    assert(m.code[i + 10] == op::SWAP1);
    assert(m.code[i + 11] == op::DUP2);
    assert(m.code[i + 12] == op::LT);
    let u = rule_apply(m.code, i, r, f);
    assert(u.len() == m.code.len() && u[i] == op::SWAP1PUSH1DUP1NOTSWAP2ADDANDDUP2ADDSWAP1DUP2LT && u[i + 2] == m.code[i + 2]) by {
        reveal_with_fuel(apply_checks, 13);
        lemma_apply_checks_len(m.code, i, r, f, 12);
    }
    let mu = with_code(m, u);
    assert(super_step(mu) == Some(spec_swap1_push1_dup1_not_swap2_add_and_dup2_add_swap1_dup2_lt(mu.with_pc(i + 1)))) by {
        reveal(super_step);
    }
    lemma_run_unfold(m, 12);
    let p0 = m.with_pc(i + 1);
    let g1 = plain_effect(p0, VERYLOW as int, 2, 0, op_swap(p0.stack, 1), p0.pc);
    let m1 = g1;
    assert(plain_step(m) == Some(m1)) by {
        reveal(plain_step);
    }
    lemma_run_unfold(m1, 11);
    lemma_effect_ok(p0, VERYLOW as int, 2, 0, op_swap(p0.stack, 1), p0.pc);
    let p1 = m1.with_pc(i + 2);
    let g2 = plain_effect(p1, VERYLOW as int, 0, 1, op_push(p1.stack, word_from(p1.code_byte(p1.pc) as u64)), p1.pc + 1);
    let m2 = g2;
    assert(plain_step(m1) == Some(m2)) by {
        reveal(plain_step);
    }
    lemma_run_unfold(m2, 10);
    lemma_effect_ok(p1, VERYLOW as int, 0, 1, op_push(p1.stack, word_from(p1.code_byte(p1.pc) as u64)), p1.pc + 1);
    let p2 = m2.with_pc(i + 4);
    let g3 = plain_effect(p2, VERYLOW as int, 1, 1, op_dup(p2.stack, 1), p2.pc);
    let m3 = g3;
    assert(plain_step(m2) == Some(m3)) by {
        reveal(plain_step);
    }
    lemma_run_unfold(m3, 9);
    lemma_effect_ok(p2, VERYLOW as int, 1, 1, op_dup(p2.stack, 1), p2.pc);
    let p3 = m3.with_pc(i + 5);
    let g4 = plain_effect(p3, VERYLOW as int, 1, 0, op_not(p3.stack), p3.pc);
    let m4 = g4;
    assert(plain_step(m3) == Some(m4)) by {
        reveal(plain_step);
    }
    lemma_run_unfold(m4, 8);
    lemma_effect_ok(p3, VERYLOW as int, 1, 0, op_not(p3.stack), p3.pc);
    let p4 = m4.with_pc(i + 6);
    let g5 = plain_effect(p4, VERYLOW as int, 3, 0, op_swap(p4.stack, 2), p4.pc);
    let m5 = g5;
    assert(plain_step(m4) == Some(m5)) by {
        reveal(plain_step);
    }
    lemma_run_unfold(m5, 7);
    lemma_effect_ok(p4, VERYLOW as int, 3, 0, op_swap(p4.stack, 2), p4.pc);
    let p5 = m5.with_pc(i + 7);
    let g6 = plain_effect(p5, VERYLOW as int, 2, 0, op_add(p5.stack), p5.pc);
    let m6 = g6;
    assert(plain_step(m5) == Some(m6)) by {
        reveal(plain_step);
    }
    lemma_run_unfold(m6, 6);
    lemma_effect_ok(p5, VERYLOW as int, 2, 0, op_add(p5.stack), p5.pc);
    let p6 = m6.with_pc(i + 8);
    let g7 = plain_effect(p6, VERYLOW as int, 2, 0, op_and(p6.stack), p6.pc);
    let m7 = g7;
    assert(plain_step(m6) == Some(m7)) by {
        reveal(plain_step);
    }
    lemma_run_unfold(m7, 5);
    lemma_effect_ok(p6, VERYLOW as int, 2, 0, op_and(p6.stack), p6.pc);
    let p7 = m7.with_pc(i + 9);
    let g8 = plain_effect(p7, VERYLOW as int, 2, 1, op_dup(p7.stack, 2), p7.pc);
    let m8 = g8;
    assert(plain_step(m7) == Some(m8)) by {
        reveal(plain_step);
    }
    lemma_run_unfold(m8, 4);
    lemma_effect_ok(p7, VERYLOW as int, 2, 1, op_dup(p7.stack, 2), p7.pc);
    let p8 = m8.with_pc(i + 10);
    let g9 = plain_effect(p8, VERYLOW as int, 2, 0, op_add(p8.stack), p8.pc);
    let m9 = g9;
    assert(plain_step(m8) == Some(m9)) by {
        reveal(plain_step);
    }
    lemma_run_unfold(m9, 3);
    lemma_effect_ok(p8, VERYLOW as int, 2, 0, op_add(p8.stack), p8.pc);
    let p9 = m9.with_pc(i + 11);
    let g10 = plain_effect(p9, VERYLOW as int, 2, 0, op_swap(p9.stack, 1), p9.pc);
    let m10 = g10;
    assert(plain_step(m9) == Some(m10)) by {
        reveal(plain_step);
    }
    lemma_run_unfold(m10, 2);
    lemma_effect_ok(p9, VERYLOW as int, 2, 0, op_swap(p9.stack, 1), p9.pc);
    let p10 = m10.with_pc(i + 12);
    let g11 = plain_effect(p10, VERYLOW as int, 2, 1, op_dup(p10.stack, 2), p10.pc);
    let m11 = g11;
    assert(plain_step(m10) == Some(m11)) by {
        reveal(plain_step);
    }
    lemma_run_unfold(m11, 1);
    lemma_effect_ok(p10, VERYLOW as int, 2, 1, op_dup(p10.stack, 2), p10.pc);
    let p11 = m11.with_pc(i + 13);
    let g12 = plain_effect(p11, VERYLOW as int, 2, 0, op_lt(p11.stack), p11.pc);
    let m12 = g12;
    assert(plain_step(m11) == Some(m12)) by {
        reveal(plain_step);
    }
    assert(plain_run(m12, 0) == Some(m12));
    assert(m12.halted is None);
    lemma_effect_ok(p11, VERYLOW as int, 2, 0, op_lt(p11.stack), p11.pc);
    assert(mu.code_byte(i + 2) == m.code_byte(i + 2));
}

#[verifier::rlimit(100)]
#[verifier::spinoff_prover]
pub(crate) proof fn runs_dup1_push4_eq_push2(m: MachineView, f: u8)
    requires
        plain_run_completes(2, m),
    ensures
        fused_step_matches(2, m, f),
{
    let r = rule_shape(2);
    let i = m.pc;
    assert(r.checks[0] == (0usize, op::DUP1));
    assert(r.checks[1] == (1usize, op::PUSH4));
    assert(r.checks[2] == (6usize, op::EQ));
    assert(r.checks[3] == (7usize, op::PUSH2));
    assert(m.code[i + 0] == op::DUP1);
    assert(m.code[i + 1] == op::PUSH4);
    assert(m.code[i + 6] == op::EQ);
    assert(m.code[i + 7] == op::PUSH2);
    let u = rule_apply(m.code, i, r, f);
    assert(u.len() == m.code.len() && u[i] == op::DUP1PUSH4EQPUSH2 && u[i + 2] == m.code[i + 2] && u[i + 3] == m.code[i + 3] && u[i + 4] == m.code[i + 4] && u[i + 5] == m.code[i + 5] && u[i + 8] == m.code[i + 8] && u[i + 9] == m.code[i + 9]) by {
        reveal_with_fuel(apply_checks, 5);
        lemma_apply_checks_len(m.code, i, r, f, 4);
    }
    let mu = with_code(m, u);
    assert(super_step(mu) == Some(spec_dup1_push4_eq_push2(mu.with_pc(i + 1)))) by {
        reveal(super_step);
    }
    lemma_run_unfold(m, 4);
    let p0 = m.with_pc(i + 1);
    let g1 = plain_effect(p0, VERYLOW as int, 1, 1, op_dup(p0.stack, 1), p0.pc);
    let m1 = g1;
    assert(plain_step(m) == Some(m1)) by {
        reveal(plain_step);
    }
    lemma_run_unfold(m1, 3);
    lemma_effect_ok(p0, VERYLOW as int, 1, 1, op_dup(p0.stack, 1), p0.pc);
    let p1 = m1.with_pc(i + 2);
    let g2 = plain_effect(p1, VERYLOW as int, 0, 1, op_push(p1.stack, word_from(p1.code_u32(p1.pc) as u64)), p1.pc + 4);
    let m2 = g2;
    assert(plain_step(m1) == Some(m2)) by {
        reveal(plain_step);
    }
    lemma_run_unfold(m2, 2);
    lemma_effect_ok(p1, VERYLOW as int, 0, 1, op_push(p1.stack, word_from(p1.code_u32(p1.pc) as u64)), p1.pc + 4);
    let p2 = m2.with_pc(i + 7);
    let g3 = plain_effect(p2, VERYLOW as int, 2, 0, op_eq(p2.stack), p2.pc);
    let m3 = g3;
    assert(plain_step(m2) == Some(m3)) by {
        reveal(plain_step);
    }
    lemma_run_unfold(m3, 1);
    lemma_effect_ok(p2, VERYLOW as int, 2, 0, op_eq(p2.stack), p2.pc);
    let p3 = m3.with_pc(i + 8);
    let g4 = plain_effect(p3, VERYLOW as int, 0, 1, op_push(p3.stack, word_from(p3.code_u16(p3.pc) as u64)), p3.pc + 2);
    let m4 = g4;
    assert(plain_step(m3) == Some(m4)) by {
        reveal(plain_step);
    }
    assert(plain_run(m4, 0) == Some(m4));
    assert(m4.halted is None);
    lemma_effect_ok(p3, VERYLOW as int, 0, 1, op_push(p3.stack, word_from(p3.code_u16(p3.pc) as u64)), p3.pc + 2);
    assert(mu.code_byte(i + 2) == m.code_byte(i + 2));
    assert(mu.code_byte(i + 3) == m.code_byte(i + 3));
    assert(mu.code_byte(i + 4) == m.code_byte(i + 4));
    assert(mu.code_byte(i + 5) == m.code_byte(i + 5));
    assert(mu.code_byte(i + 8) == m.code_byte(i + 8));
    assert(mu.code_byte(i + 9) == m.code_byte(i + 9));
}

#[verifier::rlimit(100)]
#[verifier::spinoff_prover]
pub(crate) proof fn runs_push1_push1_push1_shl_sub(m: MachineView, f: u8)
    requires
        plain_run_completes(3, m),
    ensures
        fused_step_matches(3, m, f),
{
    let r = rule_shape(3);
    let i = m.pc;
    assert(r.checks[0] == (0usize, op::PUSH1));
    assert(r.checks[1] == (2usize, op::PUSH1));
    assert(r.checks[2] == (4usize, op::PUSH1));
    assert(r.checks[3] == (6usize, op::SHL));
    assert(r.checks[4] == (7usize, op::SUB));
    assert(m.code[i + 0] == op::PUSH1);
    assert(m.code[i + 2] == op::PUSH1);
    assert(m.code[i + 4] == op::PUSH1);
    assert(m.code[i + 6] == op::SHL);
    assert(m.code[i + 7] == op::SUB);
    let u = rule_apply(m.code, i, r, f);
    assert(u.len() == m.code.len() && u[i] == op::PUSH1PUSH1PUSH1SHLSUB && u[i + 1] == m.code[i + 1] && u[i + 3] == m.code[i + 3] && u[i + 5] == m.code[i + 5]) by {
        reveal_with_fuel(apply_checks, 6);
        lemma_apply_checks_len(m.code, i, r, f, 5);
    }
    let mu = with_code(m, u);
    assert(super_step(mu) == Some(spec_push1_push1_push1_shl_sub(mu.with_pc(i + 1)))) by {
        reveal(super_step);
    }
    lemma_run_unfold(m, 5);
    let p0 = m.with_pc(i + 1);
    let g1 = plain_effect(p0, VERYLOW as int, 0, 1, op_push(p0.stack, word_from(p0.code_byte(p0.pc) as u64)), p0.pc + 1);
    let m1 = g1;
    assert(plain_step(m) == Some(m1)) by {
        reveal(plain_step);
    }
    lemma_run_unfold(m1, 4);
    lemma_effect_ok(p0, VERYLOW as int, 0, 1, op_push(p0.stack, word_from(p0.code_byte(p0.pc) as u64)), p0.pc + 1);
    let p1 = m1.with_pc(i + 3);
    let g2 = plain_effect(p1, VERYLOW as int, 0, 1, op_push(p1.stack, word_from(p1.code_byte(p1.pc) as u64)), p1.pc + 1);
    let m2 = g2;
    assert(plain_step(m1) == Some(m2)) by {
        reveal(plain_step);
    }
    lemma_run_unfold(m2, 3);
    lemma_effect_ok(p1, VERYLOW as int, 0, 1, op_push(p1.stack, word_from(p1.code_byte(p1.pc) as u64)), p1.pc + 1);
    let p2 = m2.with_pc(i + 5);
    let g3 = plain_effect(p2, VERYLOW as int, 0, 1, op_push(p2.stack, word_from(p2.code_byte(p2.pc) as u64)), p2.pc + 1);
    let m3 = g3;
    assert(plain_step(m2) == Some(m3)) by {
        reveal(plain_step);
    }
    lemma_run_unfold(m3, 2);
    lemma_effect_ok(p2, VERYLOW as int, 0, 1, op_push(p2.stack, word_from(p2.code_byte(p2.pc) as u64)), p2.pc + 1);
    let p3 = m3.with_pc(i + 7);
    let g4 = plain_effect(p3, VERYLOW as int, 2, 0, op_shl(p3.stack), p3.pc);
    let m4 = g4;
    assert(plain_step(m3) == Some(m4)) by {
        reveal(plain_step);
    }
    lemma_run_unfold(m4, 1);
    lemma_effect_ok(p3, VERYLOW as int, 2, 0, op_shl(p3.stack), p3.pc);
    let p4 = m4.with_pc(i + 8);
    let g5 = plain_effect(p4, VERYLOW as int, 2, 0, op_sub(p4.stack), p4.pc);
    let m5 = g5;
    assert(plain_step(m4) == Some(m5)) by {
        reveal(plain_step);
    }
    assert(plain_run(m5, 0) == Some(m5));
    assert(m5.halted is None);
    lemma_effect_ok(p4, VERYLOW as int, 2, 0, op_sub(p4.stack), p4.pc);
    assert(mu.code_byte(i + 1) == m.code_byte(i + 1));
    assert(mu.code_byte(i + 3) == m.code_byte(i + 3));
    assert(mu.code_byte(i + 5) == m.code_byte(i + 5));
}

#[verifier::rlimit(100)]
#[verifier::spinoff_prover]
pub(crate) proof fn runs_and_dup2_add_swap1_dup2_lt(m: MachineView, f: u8)
    requires
        plain_run_completes(4, m),
        w_and(nth(m.stack, 0), nth(m.stack, 1)) == w_add(nth(m.stack, 0), nth(m.stack, 1)),
    ensures
        fused_step_matches(4, m, f),
{
    let r = rule_shape(4);
    let i = m.pc;
    assert(r.checks[0] == (0usize, op::AND));
    assert(r.checks[1] == (1usize, op::DUP2));
    assert(r.checks[2] == (2usize, op::ADD));
    assert(r.checks[3] == (3usize, op::SWAP1));
    assert(r.checks[4] == (4usize, op::DUP2));
    assert(r.checks[5] == (5usize, op::LT));
    assert(m.code[i + 0] == op::AND);
    assert(m.code[i + 1] == op::DUP2);
    assert(m.code[i + 2] == op::ADD);
    assert(m.code[i + 3] == op::SWAP1);
    assert(m.code[i + 4] == op::DUP2);
    assert(m.code[i + 5] == op::LT);
    let u = rule_apply(m.code, i, r, f);
    assert(u.len() == m.code.len() && u[i] == op::ANDDUP2ADDSWAP1DUP2LT) by {
        reveal_with_fuel(apply_checks, 7);
        lemma_apply_checks_len(m.code, i, r, f, 6);
    }
    let mu = with_code(m, u);
    assert(super_step(mu) == Some(spec_and_dup2_add_swap1_dup2_lt(mu.with_pc(i + 1)))) by {
        reveal(super_step);
    }
    lemma_run_unfold(m, 6);
    let p0 = m.with_pc(i + 1);
    let g1 = plain_effect(p0, VERYLOW as int, 2, 0, op_and(p0.stack), p0.pc);
    let m1 = g1;
    assert(plain_step(m) == Some(m1)) by {
        reveal(plain_step);
    }
    lemma_run_unfold(m1, 5);
    lemma_effect_ok(p0, VERYLOW as int, 2, 0, op_and(p0.stack), p0.pc);
    let p1 = m1.with_pc(i + 2);
    let g2 = plain_effect(p1, VERYLOW as int, 2, 1, op_dup(p1.stack, 2), p1.pc);
    let m2 = g2;
    assert(plain_step(m1) == Some(m2)) by {
        reveal(plain_step);
    }
    lemma_run_unfold(m2, 4);
    lemma_effect_ok(p1, VERYLOW as int, 2, 1, op_dup(p1.stack, 2), p1.pc);
    let p2 = m2.with_pc(i + 3);
    let g3 = plain_effect(p2, VERYLOW as int, 2, 0, op_add(p2.stack), p2.pc);
    let m3 = g3;
    assert(plain_step(m2) == Some(m3)) by {
        reveal(plain_step);
    }
    lemma_run_unfold(m3, 3);
    lemma_effect_ok(p2, VERYLOW as int, 2, 0, op_add(p2.stack), p2.pc);
    let p3 = m3.with_pc(i + 4);
    let g4 = plain_effect(p3, VERYLOW as int, 2, 0, op_swap(p3.stack, 1), p3.pc);
    let m4 = g4;
    assert(plain_step(m3) == Some(m4)) by {
        reveal(plain_step);
    }
    lemma_run_unfold(m4, 2);
    lemma_effect_ok(p3, VERYLOW as int, 2, 0, op_swap(p3.stack, 1), p3.pc);
    let p4 = m4.with_pc(i + 5);
    let g5 = plain_effect(p4, VERYLOW as int, 2, 1, op_dup(p4.stack, 2), p4.pc);
    let m5 = g5;
    assert(plain_step(m4) == Some(m5)) by {
        reveal(plain_step);
    }
    lemma_run_unfold(m5, 1);
    lemma_effect_ok(p4, VERYLOW as int, 2, 1, op_dup(p4.stack, 2), p4.pc);
    let p5 = m5.with_pc(i + 6);
    let g6 = plain_effect(p5, VERYLOW as int, 2, 0, op_lt(p5.stack), p5.pc);
    let m6 = g6;
    assert(plain_step(m5) == Some(m6)) by {
        reveal(plain_step);
    }
    assert(plain_run(m6, 0) == Some(m6));
    assert(m6.halted is None);
    lemma_effect_ok(p5, VERYLOW as int, 2, 0, op_lt(p5.stack), p5.pc);
}

#[verifier::rlimit(100)]
#[verifier::spinoff_prover]
pub(crate) proof fn runs_and_swap1_pop_swap2_swap1(m: MachineView, f: u8)
    requires
        plain_run_completes(5, m),
    ensures
        fused_step_matches(5, m, f),
{
    let r = rule_shape(5);
    let i = m.pc;
    assert(r.checks[0] == (0usize, op::AND));
    assert(r.checks[1] == (1usize, op::SWAP1));
    assert(r.checks[2] == (2usize, op::POP));
    assert(r.checks[3] == (3usize, op::SWAP2));
    assert(r.checks[4] == (4usize, op::SWAP1));
    assert(m.code[i + 0] == op::AND);
    assert(m.code[i + 1] == op::SWAP1);
    assert(m.code[i + 2] == op::POP);
    assert(m.code[i + 3] == op::SWAP2);
    assert(m.code[i + 4] == op::SWAP1);
    let u = rule_apply(m.code, i, r, f);
    assert(u.len() == m.code.len() && u[i] == op::ANDSWAP1POPSWAP2SWAP1) by {
        reveal_with_fuel(apply_checks, 6);
        lemma_apply_checks_len(m.code, i, r, f, 5);
    }
    let mu = with_code(m, u);
    assert(super_step(mu) == Some(spec_and_swap1_pop_swap2_swap1(mu.with_pc(i + 1)))) by {
        reveal(super_step);
    }
    lemma_run_unfold(m, 5);
    let p0 = m.with_pc(i + 1);
    let g1 = plain_effect(p0, VERYLOW as int, 2, 0, op_and(p0.stack), p0.pc);
    let m1 = g1;
    assert(plain_step(m) == Some(m1)) by {
        reveal(plain_step);
    }
    lemma_run_unfold(m1, 4);
    lemma_effect_ok(p0, VERYLOW as int, 2, 0, op_and(p0.stack), p0.pc);
    let p1 = m1.with_pc(i + 2);
    let g2 = plain_effect(p1, VERYLOW as int, 2, 0, op_swap(p1.stack, 1), p1.pc);
    let m2 = g2;
    assert(plain_step(m1) == Some(m2)) by {
        reveal(plain_step);
    }
    lemma_run_unfold(m2, 3);
    lemma_effect_ok(p1, VERYLOW as int, 2, 0, op_swap(p1.stack, 1), p1.pc);
    let p2 = m2.with_pc(i + 3);
    let g3 = plain_effect(p2, BASE as int, 1, 0, op_pop(p2.stack), p2.pc);
    let m3 = g3;
    assert(plain_step(m2) == Some(m3)) by {
        reveal(plain_step);
    }
    lemma_run_unfold(m3, 2);
    lemma_effect_ok(p2, BASE as int, 1, 0, op_pop(p2.stack), p2.pc);
    let p3 = m3.with_pc(i + 4);
    let g4 = plain_effect(p3, VERYLOW as int, 3, 0, op_swap(p3.stack, 2), p3.pc);
    let m4 = g4;
    assert(plain_step(m3) == Some(m4)) by {
        reveal(plain_step);
    }
    lemma_run_unfold(m4, 1);
    lemma_effect_ok(p3, VERYLOW as int, 3, 0, op_swap(p3.stack, 2), p3.pc);
    let p4 = m4.with_pc(i + 5);
    let g5 = plain_effect(p4, VERYLOW as int, 2, 0, op_swap(p4.stack, 1), p4.pc);
    let m5 = g5;
    assert(plain_step(m4) == Some(m5)) by {
        reveal(plain_step);
    }
    assert(plain_run(m5, 0) == Some(m5));
    assert(m5.halted is None);
    lemma_effect_ok(p4, VERYLOW as int, 2, 0, op_swap(p4.stack, 1), p4.pc);
}

#[verifier::rlimit(100)]
#[verifier::spinoff_prover]
pub(crate) proof fn runs_jump_if_zero(m: MachineView, f: u8)
    requires
        plain_run_completes(6, m),
    ensures
        fused_step_matches(6, m, f),
{
    let r = rule_shape(6);
    let i = m.pc;
    assert(r.checks[0] == (0usize, op::ISZERO));
    assert(r.checks[1] == (1usize, op::PUSH2));
    assert(r.checks[2] == (4usize, op::JUMPI));
    assert(m.code[i + 0] == op::ISZERO);
    assert(m.code[i + 1] == op::PUSH2);
    assert(m.code[i + 4] == op::JUMPI);
    let u = rule_apply(m.code, i, r, f);
    assert(u.len() == m.code.len() && u[i] == op::JUMPIFZERO && u[i + 2] == m.code[i + 2] && u[i + 3] == m.code[i + 3]) by {
        reveal_with_fuel(apply_checks, 4);
        lemma_apply_checks_len(m.code, i, r, f, 3);
    }
    let mu = with_code(m, u);
    assert(super_step(mu) == Some(spec_jump_if_zero(mu.with_pc(i + 1)))) by {
        reveal(super_step);
    }
    lemma_run_unfold(m, 3);
    let p0 = m.with_pc(i + 1);
    let g1 = plain_effect(p0, VERYLOW as int, 1, 0, op_iszero(p0.stack), p0.pc);
    let m1 = g1;
    assert(plain_step(m) == Some(m1)) by {
        reveal(plain_step);
    }
    lemma_run_unfold(m1, 2);
    lemma_effect_ok(p0, VERYLOW as int, 1, 0, op_iszero(p0.stack), p0.pc);
    let p1 = m1.with_pc(i + 2);
    let g2 = plain_effect(p1, VERYLOW as int, 0, 1, op_push(p1.stack, word_from(p1.code_u16(p1.pc) as u64)), p1.pc + 2);
    let m2 = g2;
    assert(plain_step(m1) == Some(m2)) by {
        reveal(plain_step);
    }
    lemma_run_unfold(m2, 1);
    lemma_effect_ok(p1, VERYLOW as int, 0, 1, op_push(p1.stack, word_from(p1.code_u16(p1.pc) as u64)), p1.pc + 2);
    let p2 = m2.with_pc(i + 5);
    let g3 = plain_effect(p2, HIGH as int, 2, 0, op_pop(op_pop(p2.stack)), p2.pc);
    let m3 = if g3.halted is None && nth(p2.stack, 1).value() != 0 { g3.jump_to(nth(p2.stack, 0)) } else { g3 };
    assert(plain_step(m2) == Some(m3)) by {
        reveal(plain_step);
    }
    assert(plain_run(m3, 0) == Some(m3));
    assert(m3.halted is None);
    assert(g3.halted is None);
    lemma_effect_ok(p2, HIGH as int, 2, 0, op_pop(op_pop(p2.stack)), p2.pc);
    assert(mu.code_byte(i + 2) == m.code_byte(i + 2));
    assert(mu.code_byte(i + 3) == m.code_byte(i + 3));
}

#[verifier::rlimit(100)]
#[verifier::spinoff_prover]
pub(crate) proof fn runs_dup2_mstore_push1_add(m: MachineView, f: u8)
    requires
        plain_run_completes(7, m),
    ensures
        fused_step_matches(7, m, f),
{
    let r = rule_shape(7);
    let i = m.pc;
    assert(r.checks[0] == (0usize, op::DUP2));
    assert(r.checks[1] == (1usize, op::MSTORE));
    assert(r.checks[2] == (2usize, op::PUSH1));
    assert(r.checks[3] == (4usize, op::ADD));
    assert(m.code[i + 0] == op::DUP2);
    assert(m.code[i + 1] == op::MSTORE);
    assert(m.code[i + 2] == op::PUSH1);
    assert(m.code[i + 4] == op::ADD);
    let u = rule_apply(m.code, i, r, f);
    assert(u.len() == m.code.len() && u[i] == op::DUP2MSTOREPUSH1ADD && u[i + 3] == m.code[i + 3]) by {
        reveal_with_fuel(apply_checks, 5);
        lemma_apply_checks_len(m.code, i, r, f, 4);
    }
    let mu = with_code(m, u);
    assert(super_step(mu) == Some(spec_dup2_mstore_push1_add(mu.with_pc(i + 1)))) by {
        reveal(super_step);
    }
    lemma_run_unfold(m, 4);
    let p0 = m.with_pc(i + 1);
    let g1 = plain_effect(p0, VERYLOW as int, 2, 1, op_dup(p0.stack, 2), p0.pc);
    let m1 = g1;
    assert(plain_step(m) == Some(m1)) by {
        reveal(plain_step);
    }
    lemma_run_unfold(m1, 3);
    lemma_effect_ok(p0, VERYLOW as int, 2, 1, op_dup(p0.stack, 2), p0.pc);
    let p1 = m1.with_pc(i + 2);
    let g2 = plain_effect(p1, VERYLOW as int, 2, 0, op_pop(op_pop(p1.stack)), p1.pc);
    let m2 = if g2.halted is Some { g2 } else if nth(p1.stack, 0).value() > usize::MAX { g2.halt(InstructionResult::InvalidOperandOOG) } else if memory_expansion_fails(g2, nth(p1.stack, 0).value() + 32) { g2.halt(InstructionResult::MemoryOOG) } else { MachineView { memory: store_word(expand_memory(g2, nth(p1.stack, 0).value() + 32).memory, nth(p1.stack, 0).value(), nth(p1.stack, 1)), ..expand_memory(g2, nth(p1.stack, 0).value() + 32) } };
    assert(plain_step(m1) == Some(m2)) by {
        reveal(plain_step);
    }
    lemma_run_unfold(m2, 2);
    lemma_effect_ok(p1, VERYLOW as int, 2, 0, op_pop(op_pop(p1.stack)), p1.pc);
    let p2 = m2.with_pc(i + 3);
    let g3 = plain_effect(p2, VERYLOW as int, 0, 1, op_push(p2.stack, word_from(p2.code_byte(p2.pc) as u64)), p2.pc + 1);
    let m3 = g3;
    assert(plain_step(m2) == Some(m3)) by {
        reveal(plain_step);
    }
    lemma_run_unfold(m3, 1);
    lemma_effect_ok(p2, VERYLOW as int, 0, 1, op_push(p2.stack, word_from(p2.code_byte(p2.pc) as u64)), p2.pc + 1);
    let p3 = m3.with_pc(i + 5);
    let g4 = plain_effect(p3, VERYLOW as int, 2, 0, op_add(p3.stack), p3.pc);
    let m4 = g4;
    assert(plain_step(m3) == Some(m4)) by {
        reveal(plain_step);
    }
    assert(plain_run(m4, 0) == Some(m4));
    assert(m4.halted is None);
    lemma_effect_ok(p3, VERYLOW as int, 2, 0, op_add(p3.stack), p3.pc);
    assert(mu.code_byte(i + 3) == m.code_byte(i + 3));
    assert(op_pop(op_pop(op_dup(p0.stack, 2))) =~= op_pop(p0.stack));
    let off = nth(m.stack, 1);
    let end = off.value() + 32;
    assert(nth(p1.stack, 0) == off && nth(p1.stack, 1) == nth(m.stack, 0));
    assert(!memory_expansion_fails(g2, end) && off.value() <= usize::MAX);
    lemma_expand_memory_gas(g2, end);
    let gh = charged(mu.with_pc(i + 1), 4 * VERYLOW);
    let h = gh.with_stack(op_pop(gh.stack));
    assert(h.memory == g2.memory && h.gas == g2.gas - 2 * VERYLOW);
    assert(!memory_expansion_fails(h, end));
    assert(expand_memory(h, end).memory == expand_memory(g2, end).memory);
    assert(expand_memory(h, end).gas == expand_memory(g2, end).gas - 2 * VERYLOW);
}

#[verifier::rlimit(100)]
#[verifier::spinoff_prover]
pub(crate) proof fn runs_swap2_swap1_pop_jump(m: MachineView, f: u8)
    requires
        plain_run_completes(8, m),
    ensures
        fused_step_matches(8, m, f),
{
    let r = rule_shape(8);
    let i = m.pc;
    assert(r.checks[0] == (0usize, op::SWAP2));
    assert(r.checks[1] == (1usize, op::SWAP1));
    assert(r.checks[2] == (2usize, op::POP));
    assert(r.checks[3] == (3usize, op::JUMP));
    assert(m.code[i + 0] == op::SWAP2);
    assert(m.code[i + 1] == op::SWAP1);
    assert(m.code[i + 2] == op::POP);
    assert(m.code[i + 3] == op::JUMP);
    let u = rule_apply(m.code, i, r, f);
    assert(u.len() == m.code.len() && u[i] == op::SWAP2SWAP1POPJUMP) by {
        reveal_with_fuel(apply_checks, 5);
        lemma_apply_checks_len(m.code, i, r, f, 4);
    }
    let mu = with_code(m, u);
    assert(super_step(mu) == Some(spec_swap2_swap1_pop_jump(mu.with_pc(i + 1)))) by {
        reveal(super_step);
    }
    lemma_run_unfold(m, 4);
    let p0 = m.with_pc(i + 1);
    let g1 = plain_effect(p0, VERYLOW as int, 3, 0, op_swap(p0.stack, 2), p0.pc);
    let m1 = g1;
    assert(plain_step(m) == Some(m1)) by {
        reveal(plain_step);
    }
    lemma_run_unfold(m1, 3);
    lemma_effect_ok(p0, VERYLOW as int, 3, 0, op_swap(p0.stack, 2), p0.pc);
    let p1 = m1.with_pc(i + 2);
    let g2 = plain_effect(p1, VERYLOW as int, 2, 0, op_swap(p1.stack, 1), p1.pc);
    let m2 = g2;
    assert(plain_step(m1) == Some(m2)) by {
        reveal(plain_step);
    }
    lemma_run_unfold(m2, 2);
    lemma_effect_ok(p1, VERYLOW as int, 2, 0, op_swap(p1.stack, 1), p1.pc);
    let p2 = m2.with_pc(i + 3);
    let g3 = plain_effect(p2, BASE as int, 1, 0, op_pop(p2.stack), p2.pc);
    let m3 = g3;
    assert(plain_step(m2) == Some(m3)) by {
        reveal(plain_step);
    }
    lemma_run_unfold(m3, 1);
    lemma_effect_ok(p2, BASE as int, 1, 0, op_pop(p2.stack), p2.pc);
    let p3 = m3.with_pc(i + 4);
    let g4 = plain_effect(p3, MID as int, 1, 0, op_pop(p3.stack), p3.pc);
    let m4 = if g4.halted is None { g4.jump_to(nth(p3.stack, 0)) } else { g4 };
    assert(plain_step(m3) == Some(m4)) by {
        reveal(plain_step);
    }
    assert(plain_run(m4, 0) == Some(m4));
    assert(m4.halted is None);
    assert(g4.halted is None);
    lemma_effect_ok(p3, MID as int, 1, 0, op_pop(p3.stack), p3.pc);
}

#[verifier::rlimit(100)]
#[verifier::spinoff_prover]
pub(crate) proof fn runs_swap1_pop_swap2_swap1(m: MachineView, f: u8)
    requires
        plain_run_completes(9, m),
    ensures
        fused_step_matches(9, m, f),
{
    let r = rule_shape(9);
    let i = m.pc;
    assert(r.checks[0] == (0usize, op::SWAP1));
    assert(r.checks[1] == (1usize, op::POP));
    assert(r.checks[2] == (2usize, op::SWAP2));
    assert(r.checks[3] == (3usize, op::SWAP1));
    assert(m.code[i + 0] == op::SWAP1);
    assert(m.code[i + 1] == op::POP);
    assert(m.code[i + 2] == op::SWAP2);
    assert(m.code[i + 3] == op::SWAP1);
    let u = rule_apply(m.code, i, r, f);
    assert(u.len() == m.code.len() && u[i] == op::SWAP1POPSWAP2SWAP1) by {
        reveal_with_fuel(apply_checks, 5);
        lemma_apply_checks_len(m.code, i, r, f, 4);
    }
    let mu = with_code(m, u);
    assert(super_step(mu) == Some(spec_swap1_pop_swap2_swap1(mu.with_pc(i + 1)))) by {
        reveal(super_step);
    }
    lemma_run_unfold(m, 4);
    let p0 = m.with_pc(i + 1);
    let g1 = plain_effect(p0, VERYLOW as int, 2, 0, op_swap(p0.stack, 1), p0.pc);
    let m1 = g1;
    assert(plain_step(m) == Some(m1)) by {
        reveal(plain_step);
    }
    lemma_run_unfold(m1, 3);
    lemma_effect_ok(p0, VERYLOW as int, 2, 0, op_swap(p0.stack, 1), p0.pc);
    let p1 = m1.with_pc(i + 2);
    let g2 = plain_effect(p1, BASE as int, 1, 0, op_pop(p1.stack), p1.pc);
    let m2 = g2;
    assert(plain_step(m1) == Some(m2)) by {
        reveal(plain_step);
    }
    lemma_run_unfold(m2, 2);
    lemma_effect_ok(p1, BASE as int, 1, 0, op_pop(p1.stack), p1.pc);
    let p2 = m2.with_pc(i + 3);
    let g3 = plain_effect(p2, VERYLOW as int, 3, 0, op_swap(p2.stack, 2), p2.pc);
    let m3 = g3;
    assert(plain_step(m2) == Some(m3)) by {
        reveal(plain_step);
    }
    lemma_run_unfold(m3, 1);
    lemma_effect_ok(p2, VERYLOW as int, 3, 0, op_swap(p2.stack, 2), p2.pc);
    let p3 = m3.with_pc(i + 4);
    let g4 = plain_effect(p3, VERYLOW as int, 2, 0, op_swap(p3.stack, 1), p3.pc);
    let m4 = g4;
    assert(plain_step(m3) == Some(m4)) by {
        reveal(plain_step);
    }
    assert(plain_run(m4, 0) == Some(m4));
    assert(m4.halted is None);
    lemma_effect_ok(p3, VERYLOW as int, 2, 0, op_swap(p3.stack, 1), p3.pc);
}

#[verifier::rlimit(100)]
#[verifier::spinoff_prover]
pub(crate) proof fn runs_pop_swap2_swap1_pop(m: MachineView, f: u8)
    requires
        plain_run_completes(10, m),
    ensures
        fused_step_matches(10, m, f),
{
    let r = rule_shape(10);
    let i = m.pc;
    assert(r.checks[0] == (0usize, op::POP));
    assert(r.checks[1] == (1usize, op::SWAP2));
    assert(r.checks[2] == (2usize, op::SWAP1));
    assert(r.checks[3] == (3usize, op::POP));
    assert(m.code[i + 0] == op::POP);
    assert(m.code[i + 1] == op::SWAP2);
    assert(m.code[i + 2] == op::SWAP1);
    assert(m.code[i + 3] == op::POP);
    let u = rule_apply(m.code, i, r, f);
    assert(u.len() == m.code.len() && u[i] == op::POPSWAP2SWAP1POP) by {
        reveal_with_fuel(apply_checks, 5);
        lemma_apply_checks_len(m.code, i, r, f, 4);
    }
    let mu = with_code(m, u);
    assert(super_step(mu) == Some(spec_pop_swap2_swap1_pop(mu.with_pc(i + 1)))) by {
        reveal(super_step);
    }
    lemma_run_unfold(m, 4);
    let p0 = m.with_pc(i + 1);
    let g1 = plain_effect(p0, BASE as int, 1, 0, op_pop(p0.stack), p0.pc);
    let m1 = g1;
    assert(plain_step(m) == Some(m1)) by {
        reveal(plain_step);
    }
    lemma_run_unfold(m1, 3);
    lemma_effect_ok(p0, BASE as int, 1, 0, op_pop(p0.stack), p0.pc);
    let p1 = m1.with_pc(i + 2);
    let g2 = plain_effect(p1, VERYLOW as int, 3, 0, op_swap(p1.stack, 2), p1.pc);
    let m2 = g2;
    assert(plain_step(m1) == Some(m2)) by {
        reveal(plain_step);
    }
    lemma_run_unfold(m2, 2);
    lemma_effect_ok(p1, VERYLOW as int, 3, 0, op_swap(p1.stack, 2), p1.pc);
    let p2 = m2.with_pc(i + 3);
    let g3 = plain_effect(p2, VERYLOW as int, 2, 0, op_swap(p2.stack, 1), p2.pc);
    let m3 = g3;
    assert(plain_step(m2) == Some(m3)) by {
        reveal(plain_step);
    }
    lemma_run_unfold(m3, 1);
    lemma_effect_ok(p2, VERYLOW as int, 2, 0, op_swap(p2.stack, 1), p2.pc);
    let p3 = m3.with_pc(i + 4);
    let g4 = plain_effect(p3, BASE as int, 1, 0, op_pop(p3.stack), p3.pc);
    let m4 = g4;
    assert(plain_step(m3) == Some(m4)) by {
        reveal(plain_step);
    }
    assert(plain_run(m4, 0) == Some(m4));
    assert(m4.halted is None);
    lemma_effect_ok(p3, BASE as int, 1, 0, op_pop(p3.stack), p3.pc);
}

#[verifier::rlimit(100)]
#[verifier::spinoff_prover]
pub(crate) proof fn runs_push2_jump(m: MachineView, f: u8)
    requires
        plain_run_completes(11, m),
    ensures
        fused_step_matches(11, m, f),
{
    let r = rule_shape(11);
    let i = m.pc;
    assert(r.checks[0] == (0usize, op::PUSH2));
    assert(r.checks[1] == (3usize, op::JUMP));
    assert(m.code[i + 0] == op::PUSH2);
    assert(m.code[i + 3] == op::JUMP);
    let u = rule_apply(m.code, i, r, f);
    assert(u.len() == m.code.len() && u[i] == op::PUSH2JUMP && u[i + 1] == m.code[i + 1] && u[i + 2] == m.code[i + 2]) by {
        reveal_with_fuel(apply_checks, 3);
        lemma_apply_checks_len(m.code, i, r, f, 2);
    }
    let mu = with_code(m, u);
    assert(super_step(mu) == Some(spec_push2_jump(mu.with_pc(i + 1)))) by {
        reveal(super_step);
    }
    lemma_run_unfold(m, 2);
    let p0 = m.with_pc(i + 1);
    let g1 = plain_effect(p0, VERYLOW as int, 0, 1, op_push(p0.stack, word_from(p0.code_u16(p0.pc) as u64)), p0.pc + 2);
    let m1 = g1;
    assert(plain_step(m) == Some(m1)) by {
        reveal(plain_step);
    }
    lemma_run_unfold(m1, 1);
    lemma_effect_ok(p0, VERYLOW as int, 0, 1, op_push(p0.stack, word_from(p0.code_u16(p0.pc) as u64)), p0.pc + 2);
    let p1 = m1.with_pc(i + 4);
    let g2 = plain_effect(p1, MID as int, 1, 0, op_pop(p1.stack), p1.pc);
    let m2 = if g2.halted is None { g2.jump_to(nth(p1.stack, 0)) } else { g2 };
    assert(plain_step(m1) == Some(m2)) by {
        reveal(plain_step);
    }
    assert(plain_run(m2, 0) == Some(m2));
    assert(m2.halted is None);
    assert(g2.halted is None);
    lemma_effect_ok(p1, MID as int, 1, 0, op_pop(p1.stack), p1.pc);
    assert(mu.code_byte(i + 1) == m.code_byte(i + 1));
    assert(mu.code_byte(i + 2) == m.code_byte(i + 2));
}

#[verifier::rlimit(100)]
#[verifier::spinoff_prover]
pub(crate) proof fn runs_push2_jumpi(m: MachineView, f: u8)
    requires
        plain_run_completes(12, m),
    ensures
        fused_step_matches(12, m, f),
{
    let r = rule_shape(12);
    let i = m.pc;
    assert(r.checks[0] == (0usize, op::PUSH2));
    assert(r.checks[1] == (3usize, op::JUMPI));
    assert(m.code[i + 0] == op::PUSH2);
    assert(m.code[i + 3] == op::JUMPI);
    let u = rule_apply(m.code, i, r, f);
    assert(u.len() == m.code.len() && u[i] == op::PUSH2JUMPI && u[i + 1] == m.code[i + 1] && u[i + 2] == m.code[i + 2]) by {
        reveal_with_fuel(apply_checks, 3);
        lemma_apply_checks_len(m.code, i, r, f, 2);
    }
    let mu = with_code(m, u);
    assert(super_step(mu) == Some(spec_push2_jumpi(mu.with_pc(i + 1)))) by {
        reveal(super_step);
    }
    lemma_run_unfold(m, 2);
    let p0 = m.with_pc(i + 1);
    let g1 = plain_effect(p0, VERYLOW as int, 0, 1, op_push(p0.stack, word_from(p0.code_u16(p0.pc) as u64)), p0.pc + 2);
    let m1 = g1;
    assert(plain_step(m) == Some(m1)) by {
        reveal(plain_step);
    }
    lemma_run_unfold(m1, 1);
    lemma_effect_ok(p0, VERYLOW as int, 0, 1, op_push(p0.stack, word_from(p0.code_u16(p0.pc) as u64)), p0.pc + 2);
    let p1 = m1.with_pc(i + 4);
    let g2 = plain_effect(p1, HIGH as int, 2, 0, op_pop(op_pop(p1.stack)), p1.pc);
    let m2 = if g2.halted is None && nth(p1.stack, 1).value() != 0 { g2.jump_to(nth(p1.stack, 0)) } else { g2 };
    assert(plain_step(m1) == Some(m2)) by {
        reveal(plain_step);
    }
    assert(plain_run(m2, 0) == Some(m2));
    assert(m2.halted is None);
    assert(g2.halted is None);
    lemma_effect_ok(p1, HIGH as int, 2, 0, op_pop(op_pop(p1.stack)), p1.pc);
    assert(mu.code_byte(i + 1) == m.code_byte(i + 1));
    assert(mu.code_byte(i + 2) == m.code_byte(i + 2));
}

#[verifier::rlimit(100)]
#[verifier::spinoff_prover]
pub(crate) proof fn runs_push1_push1(m: MachineView, f: u8)
    requires
        plain_run_completes(13, m),
    ensures
        fused_step_matches(13, m, f),
{
    let r = rule_shape(13);
    let i = m.pc;
    assert(r.checks[0] == (0usize, op::PUSH1));
    assert(r.checks[1] == (2usize, op::PUSH1));
    assert(m.code[i + 0] == op::PUSH1);
    assert(m.code[i + 2] == op::PUSH1);
    let u = rule_apply(m.code, i, r, f);
    assert(u.len() == m.code.len() && u[i] == op::PUSH1PUSH1 && u[i + 1] == m.code[i + 1] && u[i + 3] == m.code[i + 3]) by {
        reveal_with_fuel(apply_checks, 3);
        lemma_apply_checks_len(m.code, i, r, f, 2);
    }
    let mu = with_code(m, u);
    assert(super_step(mu) == Some(spec_push1_push1(mu.with_pc(i + 1)))) by {
        reveal(super_step);
    }
    lemma_run_unfold(m, 2);
    let p0 = m.with_pc(i + 1);
    let g1 = plain_effect(p0, VERYLOW as int, 0, 1, op_push(p0.stack, word_from(p0.code_byte(p0.pc) as u64)), p0.pc + 1);
    let m1 = g1;
    assert(plain_step(m) == Some(m1)) by {
        reveal(plain_step);
    }
    lemma_run_unfold(m1, 1);
    lemma_effect_ok(p0, VERYLOW as int, 0, 1, op_push(p0.stack, word_from(p0.code_byte(p0.pc) as u64)), p0.pc + 1);
    let p1 = m1.with_pc(i + 3);
    let g2 = plain_effect(p1, VERYLOW as int, 0, 1, op_push(p1.stack, word_from(p1.code_byte(p1.pc) as u64)), p1.pc + 1);
    let m2 = g2;
    assert(plain_step(m1) == Some(m2)) by {
        reveal(plain_step);
    }
    assert(plain_run(m2, 0) == Some(m2));
    assert(m2.halted is None);
    lemma_effect_ok(p1, VERYLOW as int, 0, 1, op_push(p1.stack, word_from(p1.code_byte(p1.pc) as u64)), p1.pc + 1);
    assert(mu.code_byte(i + 1) == m.code_byte(i + 1));
    assert(mu.code_byte(i + 3) == m.code_byte(i + 3));
}

#[verifier::rlimit(100)]
#[verifier::spinoff_prover]
pub(crate) proof fn runs_iszero_push2(m: MachineView, f: u8)
    requires
        plain_run_completes(14, m),
    ensures
        fused_step_matches(14, m, f),
{
    let r = rule_shape(14);
    let i = m.pc;
    assert(r.checks[0] == (0usize, op::ISZERO));
    assert(r.checks[1] == (1usize, op::PUSH2));
    assert(m.code[i + 0] == op::ISZERO);
    assert(m.code[i + 1] == op::PUSH2);
    let u = rule_apply(m.code, i, r, f);
    assert(u.len() == m.code.len() && u[i] == op::ISZEROPUSH2 && u[i + 2] == m.code[i + 2] && u[i + 3] == m.code[i + 3]) by {
        reveal_with_fuel(apply_checks, 3);
        lemma_apply_checks_len(m.code, i, r, f, 2);
    }
    let mu = with_code(m, u);
    assert(super_step(mu) == Some(spec_iszero_push2(mu.with_pc(i + 1)))) by {
        reveal(super_step);
    }
    lemma_run_unfold(m, 2);
    let p0 = m.with_pc(i + 1);
    let g1 = plain_effect(p0, VERYLOW as int, 1, 0, op_iszero(p0.stack), p0.pc);
    let m1 = g1;
    assert(plain_step(m) == Some(m1)) by {
        reveal(plain_step);
    }
    lemma_run_unfold(m1, 1);
    lemma_effect_ok(p0, VERYLOW as int, 1, 0, op_iszero(p0.stack), p0.pc);
    let p1 = m1.with_pc(i + 2);
    let g2 = plain_effect(p1, VERYLOW as int, 0, 1, op_push(p1.stack, word_from(p1.code_u16(p1.pc) as u64)), p1.pc + 2);
    let m2 = g2;
    assert(plain_step(m1) == Some(m2)) by {
        reveal(plain_step);
    }
    assert(plain_run(m2, 0) == Some(m2));
    assert(m2.halted is None);
    lemma_effect_ok(p1, VERYLOW as int, 0, 1, op_push(p1.stack, word_from(p1.code_u16(p1.pc) as u64)), p1.pc + 2);
    assert(mu.code_byte(i + 2) == m.code_byte(i + 2));
    assert(mu.code_byte(i + 3) == m.code_byte(i + 3));
}

#[verifier::rlimit(100)]
#[verifier::spinoff_prover]
pub(crate) proof fn runs_push1_add(m: MachineView, f: u8)
    requires
        plain_run_completes(15, m),
    ensures
        fused_step_matches(15, m, f),
{
    let r = rule_shape(15);
    let i = m.pc;
    assert(r.checks[0] == (0usize, op::PUSH1));
    assert(r.checks[1] == (2usize, op::ADD));
    assert(m.code[i + 0] == op::PUSH1);
    assert(m.code[i + 2] == op::ADD);
    let u = rule_apply(m.code, i, r, f);
    assert(u.len() == m.code.len() && u[i] == op::PUSH1ADD && u[i + 1] == m.code[i + 1]) by {
        reveal_with_fuel(apply_checks, 3);
        lemma_apply_checks_len(m.code, i, r, f, 2);
    }
    let mu = with_code(m, u);
    assert(super_step(mu) == Some(spec_push1_add(mu.with_pc(i + 1)))) by {
        reveal(super_step);
    }
    lemma_run_unfold(m, 2);
    let p0 = m.with_pc(i + 1);
    let g1 = plain_effect(p0, VERYLOW as int, 0, 1, op_push(p0.stack, word_from(p0.code_byte(p0.pc) as u64)), p0.pc + 1);
    let m1 = g1;
    assert(plain_step(m) == Some(m1)) by {
        reveal(plain_step);
    }
    lemma_run_unfold(m1, 1);
    lemma_effect_ok(p0, VERYLOW as int, 0, 1, op_push(p0.stack, word_from(p0.code_byte(p0.pc) as u64)), p0.pc + 1);
    let p1 = m1.with_pc(i + 3);
    let g2 = plain_effect(p1, VERYLOW as int, 2, 0, op_add(p1.stack), p1.pc);
    let m2 = g2;
    assert(plain_step(m1) == Some(m2)) by {
        reveal(plain_step);
    }
    assert(plain_run(m2, 0) == Some(m2));
    assert(m2.halted is None);
    lemma_effect_ok(p1, VERYLOW as int, 2, 0, op_add(p1.stack), p1.pc);
    assert(mu.code_byte(i + 1) == m.code_byte(i + 1));
}

#[verifier::rlimit(100)]
#[verifier::spinoff_prover]
pub(crate) proof fn runs_push1_shl(m: MachineView, f: u8)
    requires
        plain_run_completes(16, m),
    ensures
        fused_step_matches(16, m, f),
{
    let r = rule_shape(16);
    let i = m.pc;
    assert(r.checks[0] == (0usize, op::PUSH1));
    assert(r.checks[1] == (2usize, op::SHL));
    assert(m.code[i + 0] == op::PUSH1);
    assert(m.code[i + 2] == op::SHL);
    let u = rule_apply(m.code, i, r, f);
    assert(u.len() == m.code.len() && u[i] == op::PUSH1SHL && u[i + 1] == m.code[i + 1]) by {
        reveal_with_fuel(apply_checks, 3);
        lemma_apply_checks_len(m.code, i, r, f, 2);
    }
    let mu = with_code(m, u);
    assert(super_step(mu) == Some(spec_push1_shl(mu.with_pc(i + 1)))) by {
        reveal(super_step);
    }
    lemma_run_unfold(m, 2);
    let p0 = m.with_pc(i + 1);
    let g1 = plain_effect(p0, VERYLOW as int, 0, 1, op_push(p0.stack, word_from(p0.code_byte(p0.pc) as u64)), p0.pc + 1);
    let m1 = g1;
    assert(plain_step(m) == Some(m1)) by {
        reveal(plain_step);
    }
    lemma_run_unfold(m1, 1);
    lemma_effect_ok(p0, VERYLOW as int, 0, 1, op_push(p0.stack, word_from(p0.code_byte(p0.pc) as u64)), p0.pc + 1);
    let p1 = m1.with_pc(i + 3);
    let g2 = plain_effect(p1, VERYLOW as int, 2, 0, op_shl(p1.stack), p1.pc);
    let m2 = g2;
    assert(plain_step(m1) == Some(m2)) by {
        reveal(plain_step);
    }
    assert(plain_run(m2, 0) == Some(m2));
    assert(m2.halted is None);
    lemma_effect_ok(p1, VERYLOW as int, 2, 0, op_shl(p1.stack), p1.pc);
    assert(mu.code_byte(i + 1) == m.code_byte(i + 1));
}

#[verifier::rlimit(100)]
#[verifier::spinoff_prover]
pub(crate) proof fn runs_push1_dup1(m: MachineView, f: u8)
    requires
        plain_run_completes(17, m),
    ensures
        fused_step_matches(17, m, f),
{
    let r = rule_shape(17);
    let i = m.pc;
    assert(r.checks[0] == (0usize, op::PUSH1));
    assert(r.checks[1] == (2usize, op::DUP1));
    assert(m.code[i + 0] == op::PUSH1);
    assert(m.code[i + 2] == op::DUP1);
    let u = rule_apply(m.code, i, r, f);
    assert(u.len() == m.code.len() && u[i] == op::PUSH1DUP1 && u[i + 1] == m.code[i + 1]) by {
        reveal_with_fuel(apply_checks, 3);
        lemma_apply_checks_len(m.code, i, r, f, 2);
    }
    let mu = with_code(m, u);
    assert(super_step(mu) == Some(spec_push1_dup1(mu.with_pc(i + 1)))) by {
        reveal(super_step);
    }
    lemma_run_unfold(m, 2);
    let p0 = m.with_pc(i + 1);
    let g1 = plain_effect(p0, VERYLOW as int, 0, 1, op_push(p0.stack, word_from(p0.code_byte(p0.pc) as u64)), p0.pc + 1);
    let m1 = g1;
    assert(plain_step(m) == Some(m1)) by {
        reveal(plain_step);
    }
    lemma_run_unfold(m1, 1);
    lemma_effect_ok(p0, VERYLOW as int, 0, 1, op_push(p0.stack, word_from(p0.code_byte(p0.pc) as u64)), p0.pc + 1);
    let p1 = m1.with_pc(i + 3);
    let g2 = plain_effect(p1, VERYLOW as int, 1, 1, op_dup(p1.stack, 1), p1.pc);
    let m2 = g2;
    assert(plain_step(m1) == Some(m2)) by {
        reveal(plain_step);
    }
    assert(plain_run(m2, 0) == Some(m2));
    assert(m2.halted is None);
    lemma_effect_ok(p1, VERYLOW as int, 1, 1, op_dup(p1.stack, 1), p1.pc);
    assert(mu.code_byte(i + 1) == m.code_byte(i + 1));
}

#[verifier::rlimit(100)]
#[verifier::spinoff_prover]
pub(crate) proof fn runs_swap1_pop(m: MachineView, f: u8)
    requires
        plain_run_completes(18, m),
    ensures
        fused_step_matches(18, m, f),
{
    let r = rule_shape(18);
    let i = m.pc;
    assert(r.checks[0] == (0usize, op::SWAP1));
    assert(r.checks[1] == (1usize, op::POP));
    assert(m.code[i + 0] == op::SWAP1);
    assert(m.code[i + 1] == op::POP);
    let u = rule_apply(m.code, i, r, f);
    assert(u.len() == m.code.len() && u[i] == op::SWAP1POP) by {
        reveal_with_fuel(apply_checks, 3);
        lemma_apply_checks_len(m.code, i, r, f, 2);
    }
    let mu = with_code(m, u);
    assert(super_step(mu) == Some(spec_swap1_pop(mu.with_pc(i + 1)))) by {
        reveal(super_step);
    }
    lemma_run_unfold(m, 2);
    let p0 = m.with_pc(i + 1);
    let g1 = plain_effect(p0, VERYLOW as int, 2, 0, op_swap(p0.stack, 1), p0.pc);
    let m1 = g1;
    assert(plain_step(m) == Some(m1)) by {
        reveal(plain_step);
    }
    lemma_run_unfold(m1, 1);
    lemma_effect_ok(p0, VERYLOW as int, 2, 0, op_swap(p0.stack, 1), p0.pc);
    let p1 = m1.with_pc(i + 2);
    let g2 = plain_effect(p1, BASE as int, 1, 0, op_pop(p1.stack), p1.pc);
    let m2 = g2;
    assert(plain_step(m1) == Some(m2)) by {
        reveal(plain_step);
    }
    assert(plain_run(m2, 0) == Some(m2));
    assert(m2.halted is None);
    lemma_effect_ok(p1, BASE as int, 1, 0, op_pop(p1.stack), p1.pc);
}

#[verifier::rlimit(100)]
#[verifier::spinoff_prover]
pub(crate) proof fn runs_pop_jump(m: MachineView, f: u8)
    requires
        plain_run_completes(19, m),
    ensures
        fused_step_matches(19, m, f),
{
    let r = rule_shape(19);
    let i = m.pc;
    assert(r.checks[0] == (0usize, op::POP));
    assert(r.checks[1] == (1usize, op::JUMP));
    assert(m.code[i + 0] == op::POP);
    assert(m.code[i + 1] == op::JUMP);
    let u = rule_apply(m.code, i, r, f);
    assert(u.len() == m.code.len() && u[i] == op::POPJUMP) by {
        reveal_with_fuel(apply_checks, 3);
        lemma_apply_checks_len(m.code, i, r, f, 2);
    }
    let mu = with_code(m, u);
    assert(super_step(mu) == Some(spec_pop_jump(mu.with_pc(i + 1)))) by {
        reveal(super_step);
    }
    lemma_run_unfold(m, 2);
    let p0 = m.with_pc(i + 1);
    let g1 = plain_effect(p0, BASE as int, 1, 0, op_pop(p0.stack), p0.pc);
    let m1 = g1;
    assert(plain_step(m) == Some(m1)) by {
        reveal(plain_step);
    }
    lemma_run_unfold(m1, 1);
    lemma_effect_ok(p0, BASE as int, 1, 0, op_pop(p0.stack), p0.pc);
    let p1 = m1.with_pc(i + 2);
    let g2 = plain_effect(p1, MID as int, 1, 0, op_pop(p1.stack), p1.pc);
    let m2 = if g2.halted is None { g2.jump_to(nth(p1.stack, 0)) } else { g2 };
    assert(plain_step(m1) == Some(m2)) by {
        reveal(plain_step);
    }
    assert(plain_run(m2, 0) == Some(m2));
    assert(m2.halted is None);
    assert(g2.halted is None);
    lemma_effect_ok(p1, MID as int, 1, 0, op_pop(p1.stack), p1.pc);
}

#[verifier::rlimit(100)]
#[verifier::spinoff_prover]
pub(crate) proof fn runs_pop2(m: MachineView, f: u8)
    requires
        plain_run_completes(20, m),
    ensures
        fused_step_matches(20, m, f),
{
    let r = rule_shape(20);
    let i = m.pc;
    assert(r.checks[0] == (0usize, op::POP));
    assert(r.checks[1] == (1usize, op::POP));
    assert(m.code[i + 0] == op::POP);
    assert(m.code[i + 1] == op::POP);
    let u = rule_apply(m.code, i, r, f);
    assert(u.len() == m.code.len() && u[i] == op::POP2) by {
        reveal_with_fuel(apply_checks, 3);
        lemma_apply_checks_len(m.code, i, r, f, 2);
    }
    let mu = with_code(m, u);
    assert(super_step(mu) == Some(spec_pop2(mu.with_pc(i + 1)))) by {
        reveal(super_step);
    }
    lemma_run_unfold(m, 2);
    let p0 = m.with_pc(i + 1);
    let g1 = plain_effect(p0, BASE as int, 1, 0, op_pop(p0.stack), p0.pc);
    let m1 = g1;
    assert(plain_step(m) == Some(m1)) by {
        reveal(plain_step);
    }
    lemma_run_unfold(m1, 1);
    lemma_effect_ok(p0, BASE as int, 1, 0, op_pop(p0.stack), p0.pc);
    let p1 = m1.with_pc(i + 2);
    let g2 = plain_effect(p1, BASE as int, 1, 0, op_pop(p1.stack), p1.pc);
    let m2 = g2;
    assert(plain_step(m1) == Some(m2)) by {
        reveal(plain_step);
    }
    assert(plain_run(m2, 0) == Some(m2));
    assert(m2.halted is None);
    lemma_effect_ok(p1, BASE as int, 1, 0, op_pop(p1.stack), p1.pc);
}

#[verifier::rlimit(100)]
#[verifier::spinoff_prover]
pub(crate) proof fn runs_swap2_swap1(m: MachineView, f: u8)
    requires
        plain_run_completes(21, m),
    ensures
        fused_step_matches(21, m, f),
{
    let r = rule_shape(21);
    let i = m.pc;
    assert(r.checks[0] == (0usize, op::SWAP2));
    assert(r.checks[1] == (1usize, op::SWAP1));
    assert(m.code[i + 0] == op::SWAP2);
    assert(m.code[i + 1] == op::SWAP1);
    let u = rule_apply(m.code, i, r, f);
    assert(u.len() == m.code.len() && u[i] == op::SWAP2SWAP1) by {
        reveal_with_fuel(apply_checks, 3);
        lemma_apply_checks_len(m.code, i, r, f, 2);
    }
    let mu = with_code(m, u);
    assert(super_step(mu) == Some(spec_swap2_swap1(mu.with_pc(i + 1)))) by {
        reveal(super_step);
    }
    lemma_run_unfold(m, 2);
    let p0 = m.with_pc(i + 1);
    let g1 = plain_effect(p0, VERYLOW as int, 3, 0, op_swap(p0.stack, 2), p0.pc);
    let m1 = g1;
    assert(plain_step(m) == Some(m1)) by {
        reveal(plain_step);
    }
    lemma_run_unfold(m1, 1);
    lemma_effect_ok(p0, VERYLOW as int, 3, 0, op_swap(p0.stack, 2), p0.pc);
    let p1 = m1.with_pc(i + 2);
    let g2 = plain_effect(p1, VERYLOW as int, 2, 0, op_swap(p1.stack, 1), p1.pc);
    let m2 = g2;
    assert(plain_step(m1) == Some(m2)) by {
        reveal(plain_step);
    }
    assert(plain_run(m2, 0) == Some(m2));
    assert(m2.halted is None);
    lemma_effect_ok(p1, VERYLOW as int, 2, 0, op_swap(p1.stack, 1), p1.pc);
}

#[verifier::rlimit(100)]
#[verifier::spinoff_prover]
pub(crate) proof fn runs_swap2_pop(m: MachineView, f: u8)
    requires
        plain_run_completes(22, m),
    ensures
        fused_step_matches(22, m, f),
{
    let r = rule_shape(22);
    let i = m.pc;
    assert(r.checks[0] == (0usize, op::SWAP2));
    assert(r.checks[1] == (1usize, op::POP));
    assert(m.code[i + 0] == op::SWAP2);
    assert(m.code[i + 1] == op::POP);
    let u = rule_apply(m.code, i, r, f);
    assert(u.len() == m.code.len() && u[i] == op::SWAP2POP) by {
        reveal_with_fuel(apply_checks, 3);
        lemma_apply_checks_len(m.code, i, r, f, 2);
    }
    let mu = with_code(m, u);
    assert(super_step(mu) == Some(spec_swap2_pop(mu.with_pc(i + 1)))) by {
        reveal(super_step);
    }
    lemma_run_unfold(m, 2);
    let p0 = m.with_pc(i + 1);
    let g1 = plain_effect(p0, VERYLOW as int, 3, 0, op_swap(p0.stack, 2), p0.pc);
    let m1 = g1;
    assert(plain_step(m) == Some(m1)) by {
        reveal(plain_step);
    }
    lemma_run_unfold(m1, 1);
    lemma_effect_ok(p0, VERYLOW as int, 3, 0, op_swap(p0.stack, 2), p0.pc);
    let p1 = m1.with_pc(i + 2);
    let g2 = plain_effect(p1, BASE as int, 1, 0, op_pop(p1.stack), p1.pc);
    let m2 = g2;
    assert(plain_step(m1) == Some(m2)) by {
        reveal(plain_step);
    }
    assert(plain_run(m2, 0) == Some(m2));
    assert(m2.halted is None);
    lemma_effect_ok(p1, BASE as int, 1, 0, op_pop(p1.stack), p1.pc);
}

#[verifier::rlimit(100)]
#[verifier::spinoff_prover]
pub(crate) proof fn runs_dup2_lt(m: MachineView, f: u8)
    requires
        plain_run_completes(23, m),
    ensures
        fused_step_matches(23, m, f),
{
    let r = rule_shape(23);
    let i = m.pc;
    assert(r.checks[0] == (0usize, op::DUP2));
    assert(r.checks[1] == (1usize, op::LT));
    assert(m.code[i + 0] == op::DUP2);
    assert(m.code[i + 1] == op::LT);
    let u = rule_apply(m.code, i, r, f);
    assert(u.len() == m.code.len() && u[i] == op::DUP2LT) by {
        reveal_with_fuel(apply_checks, 3);
        lemma_apply_checks_len(m.code, i, r, f, 2);
    }
    let mu = with_code(m, u);
    assert(super_step(mu) == Some(spec_dup2_lt(mu.with_pc(i + 1)))) by {
        reveal(super_step);
    }
    lemma_run_unfold(m, 2);
    let p0 = m.with_pc(i + 1);
    let g1 = plain_effect(p0, VERYLOW as int, 2, 1, op_dup(p0.stack, 2), p0.pc);
    let m1 = g1;
    assert(plain_step(m) == Some(m1)) by {
        reveal(plain_step);
    }
    lemma_run_unfold(m1, 1);
    lemma_effect_ok(p0, VERYLOW as int, 2, 1, op_dup(p0.stack, 2), p0.pc);
    let p1 = m1.with_pc(i + 2);
    let g2 = plain_effect(p1, VERYLOW as int, 2, 0, op_lt(p1.stack), p1.pc);
    let m2 = g2;
    assert(plain_step(m1) == Some(m2)) by {
        reveal(plain_step);
    }
    assert(plain_run(m2, 0) == Some(m2));
    assert(m2.halted is None);
    lemma_effect_ok(p1, VERYLOW as int, 2, 0, op_lt(p1.stack), p1.pc);
}

#[verifier::rlimit(100)]
#[verifier::spinoff_prover]
pub(crate) proof fn runs_dup3_and(m: MachineView, f: u8)
    requires
        plain_run_completes(24, m),
    ensures
        fused_step_matches(24, m, f),
{
    let r = rule_shape(24);
    let i = m.pc;
    assert(r.checks[0] == (0usize, op::DUP3));
    assert(r.checks[1] == (1usize, op::AND));
    assert(m.code[i + 0] == op::DUP3);
    assert(m.code[i + 1] == op::AND);
    let u = rule_apply(m.code, i, r, f);
    assert(u.len() == m.code.len() && u[i] == op::DUP3AND) by {
        reveal_with_fuel(apply_checks, 3);
        lemma_apply_checks_len(m.code, i, r, f, 2);
    }
    let mu = with_code(m, u);
    assert(super_step(mu) == Some(spec_dup3_and(mu.with_pc(i + 1)))) by {
        reveal(super_step);
    }
    lemma_run_unfold(m, 2);
    let p0 = m.with_pc(i + 1);
    let g1 = plain_effect(p0, VERYLOW as int, 3, 1, op_dup(p0.stack, 3), p0.pc);
    let m1 = g1;
    assert(plain_step(m) == Some(m1)) by {
        reveal(plain_step);
    }
    lemma_run_unfold(m1, 1);
    lemma_effect_ok(p0, VERYLOW as int, 3, 1, op_dup(p0.stack, 3), p0.pc);
    let p1 = m1.with_pc(i + 2);
    let g2 = plain_effect(p1, VERYLOW as int, 2, 0, op_and(p1.stack), p1.pc);
    let m2 = g2;
    assert(plain_step(m1) == Some(m2)) by {
        reveal(plain_step);
    }
    assert(plain_run(m2, 0) == Some(m2));
    assert(m2.halted is None);
    lemma_effect_ok(p1, VERYLOW as int, 2, 0, op_and(p1.stack), p1.pc);
}

#[verifier::rlimit(100)]
#[verifier::spinoff_prover]
pub(crate) proof fn runs_swap2_swap1_dup3_sub_swap2_dup3_gt_push2(m: MachineView, f: u8)
    requires
        plain_run_completes(25, m),
        m.gas >= 7 * VERYLOW + MID,
    ensures
        fused_step_matches(25, m, f),
{
    let r = rule_shape(25);
    let i = m.pc;
    assert(r.checks[0] == (0usize, op::SWAP2));
    assert(r.checks[1] == (1usize, op::SWAP1));
    assert(r.checks[2] == (2usize, op::DUP3));
    assert(r.checks[3] == (3usize, op::SUB));
    assert(r.checks[4] == (4usize, op::SWAP2));
    assert(r.checks[5] == (5usize, op::DUP3));
    assert(r.checks[6] == (6usize, op::GT));
    assert(r.checks[7] == (7usize, op::PUSH2));
    assert(m.code[i + 0] == op::SWAP2);
    assert(m.code[i + 1] == op::SWAP1);
    assert(m.code[i + 2] == op::DUP3);
    assert(m.code[i + 3] == op::SUB);
    assert(m.code[i + 4] == op::SWAP2);
    assert(m.code[i + 5] == op::DUP3);
    assert(m.code[i + 6] == op::GT);
    assert(m.code[i + 7] == op::PUSH2);
    let u = rule_apply(m.code, i, r, f);
    assert(u.len() == m.code.len() && u[i] == op::SWAP2SWAP1DUP3SUBSWAP2DUP3GTPUSH2 && u[i + 8] == m.code[i + 8] && u[i + 9] == m.code[i + 9]) by {
        reveal_with_fuel(apply_checks, 9);
        lemma_apply_checks_len(m.code, i, r, f, 8);
    }
    let mu = with_code(m, u);
    assert(super_step(mu) == Some(spec_swap2_swap1_dup3_sub_swap2_dup3_gt_push2(mu.with_pc(i + 1)))) by {
        reveal(super_step);
    }
    lemma_run_unfold(m, 8);
    let p0 = m.with_pc(i + 1);
    let g1 = plain_effect(p0, VERYLOW as int, 3, 0, op_swap(p0.stack, 2), p0.pc);
    let m1 = g1;
    assert(plain_step(m) == Some(m1)) by {
        reveal(plain_step);
    }
    lemma_run_unfold(m1, 7);
    lemma_effect_ok(p0, VERYLOW as int, 3, 0, op_swap(p0.stack, 2), p0.pc);
    let p1 = m1.with_pc(i + 2);
    let g2 = plain_effect(p1, VERYLOW as int, 2, 0, op_swap(p1.stack, 1), p1.pc);
    let m2 = g2;
    assert(plain_step(m1) == Some(m2)) by {
        reveal(plain_step);
    }
    lemma_run_unfold(m2, 6);
    lemma_effect_ok(p1, VERYLOW as int, 2, 0, op_swap(p1.stack, 1), p1.pc);
    let p2 = m2.with_pc(i + 3);
    let g3 = plain_effect(p2, VERYLOW as int, 3, 1, op_dup(p2.stack, 3), p2.pc);
    let m3 = g3;
    assert(plain_step(m2) == Some(m3)) by {
        reveal(plain_step);
    }
    lemma_run_unfold(m3, 5);
    lemma_effect_ok(p2, VERYLOW as int, 3, 1, op_dup(p2.stack, 3), p2.pc);
    let p3 = m3.with_pc(i + 4);
    let g4 = plain_effect(p3, VERYLOW as int, 2, 0, op_sub(p3.stack), p3.pc);
    let m4 = g4;
    assert(plain_step(m3) == Some(m4)) by {
        reveal(plain_step);
    }
    lemma_run_unfold(m4, 4);
    lemma_effect_ok(p3, VERYLOW as int, 2, 0, op_sub(p3.stack), p3.pc);
    let p4 = m4.with_pc(i + 5);
    let g5 = plain_effect(p4, VERYLOW as int, 3, 0, op_swap(p4.stack, 2), p4.pc);
    let m5 = g5;
    assert(plain_step(m4) == Some(m5)) by {
        reveal(plain_step);
    }
    lemma_run_unfold(m5, 3);
    lemma_effect_ok(p4, VERYLOW as int, 3, 0, op_swap(p4.stack, 2), p4.pc);
    let p5 = m5.with_pc(i + 6);
    let g6 = plain_effect(p5, VERYLOW as int, 3, 1, op_dup(p5.stack, 3), p5.pc);
    let m6 = g6;
    assert(plain_step(m5) == Some(m6)) by {
        reveal(plain_step);
    }
    lemma_run_unfold(m6, 2);
    lemma_effect_ok(p5, VERYLOW as int, 3, 1, op_dup(p5.stack, 3), p5.pc);
    let p6 = m6.with_pc(i + 7);
    let g7 = plain_effect(p6, VERYLOW as int, 2, 0, op_gt(p6.stack), p6.pc);
    let m7 = g7;
    assert(plain_step(m6) == Some(m7)) by {
        reveal(plain_step);
    }
    lemma_run_unfold(m7, 1);
    lemma_effect_ok(p6, VERYLOW as int, 2, 0, op_gt(p6.stack), p6.pc);
    let p7 = m7.with_pc(i + 8);
    let g8 = plain_effect(p7, VERYLOW as int, 0, 1, op_push(p7.stack, word_from(p7.code_u16(p7.pc) as u64)), p7.pc + 2);
    let m8 = g8;
    assert(plain_step(m7) == Some(m8)) by {
        reveal(plain_step);
    }
    assert(plain_run(m8, 0) == Some(m8));
    assert(m8.halted is None);
    lemma_effect_ok(p7, VERYLOW as int, 0, 1, op_push(p7.stack, word_from(p7.code_u16(p7.pc) as u64)), p7.pc + 2);
    assert(mu.code_byte(i + 8) == m.code_byte(i + 8));
    assert(mu.code_byte(i + 9) == m.code_byte(i + 9));
}

#[verifier::rlimit(100)]
#[verifier::spinoff_prover]
pub(crate) proof fn runs_swap1_dup2(m: MachineView, f: u8)
    requires
        plain_run_completes(26, m),
    ensures
        fused_step_matches(26, m, f),
{
    let r = rule_shape(26);
    let i = m.pc;
    assert(r.checks[0] == (0usize, op::SWAP1));
    assert(r.checks[1] == (1usize, op::DUP2));
    assert(m.code[i + 0] == op::SWAP1);
    assert(m.code[i + 1] == op::DUP2);
    let u = rule_apply(m.code, i, r, f);
    assert(u.len() == m.code.len() && u[i] == op::SWAP1DUP2) by {
        reveal_with_fuel(apply_checks, 3);
        lemma_apply_checks_len(m.code, i, r, f, 2);
    }
    let mu = with_code(m, u);
    assert(super_step(mu) == Some(spec_swap1_dup2(mu.with_pc(i + 1)))) by {
        reveal(super_step);
    }
    lemma_run_unfold(m, 2);
    let p0 = m.with_pc(i + 1);
    let g1 = plain_effect(p0, VERYLOW as int, 2, 0, op_swap(p0.stack, 1), p0.pc);
    let m1 = g1;
    assert(plain_step(m) == Some(m1)) by {
        reveal(plain_step);
    }
    lemma_run_unfold(m1, 1);
    lemma_effect_ok(p0, VERYLOW as int, 2, 0, op_swap(p0.stack, 1), p0.pc);
    let p1 = m1.with_pc(i + 2);
    let g2 = plain_effect(p1, VERYLOW as int, 2, 1, op_dup(p1.stack, 2), p1.pc);
    let m2 = g2;
    assert(plain_step(m1) == Some(m2)) by {
        reveal(plain_step);
    }
    assert(plain_run(m2, 0) == Some(m2));
    assert(m2.halted is None);
    lemma_effect_ok(p1, VERYLOW as int, 2, 1, op_dup(p1.stack, 2), p1.pc);
}

#[verifier::rlimit(100)]
#[verifier::spinoff_prover]
pub(crate) proof fn runs_shr_shr_dup1_mul_dup1(m: MachineView, f: u8)
    requires
        plain_run_completes(27, m),
    ensures
        fused_step_matches(27, m, f),
{
    let r = rule_shape(27);
    let i = m.pc;
    assert(r.checks[0] == (0usize, op::SHR));
    assert(r.checks[1] == (1usize, op::SHR));
    assert(r.checks[2] == (2usize, op::DUP1));
    assert(r.checks[3] == (3usize, op::MUL));
    assert(r.checks[4] == (4usize, op::DUP1));
    assert(m.code[i + 0] == op::SHR);
    assert(m.code[i + 1] == op::SHR);
    assert(m.code[i + 2] == op::DUP1);
    assert(m.code[i + 3] == op::MUL);
    assert(m.code[i + 4] == op::DUP1);
    let u = rule_apply(m.code, i, r, f);
    assert(u.len() == m.code.len() && u[i] == op::SHRSHRDUP1MULDUP1) by {
        reveal_with_fuel(apply_checks, 6);
        lemma_apply_checks_len(m.code, i, r, f, 5);
    }
    let mu = with_code(m, u);
    assert(super_step(mu) == Some(spec_shr_shr_dup1_mul_dup1(mu.with_pc(i + 1)))) by {
        reveal(super_step);
    }
    lemma_run_unfold(m, 5);
    let p0 = m.with_pc(i + 1);
    let g1 = plain_effect(p0, VERYLOW as int, 2, 0, op_shr(p0.stack), p0.pc);
    let m1 = g1;
    assert(plain_step(m) == Some(m1)) by {
        reveal(plain_step);
    }
    lemma_run_unfold(m1, 4);
    lemma_effect_ok(p0, VERYLOW as int, 2, 0, op_shr(p0.stack), p0.pc);
    let p1 = m1.with_pc(i + 2);
    let g2 = plain_effect(p1, VERYLOW as int, 2, 0, op_shr(p1.stack), p1.pc);
    let m2 = g2;
    assert(plain_step(m1) == Some(m2)) by {
        reveal(plain_step);
    }
    lemma_run_unfold(m2, 3);
    lemma_effect_ok(p1, VERYLOW as int, 2, 0, op_shr(p1.stack), p1.pc);
    let p2 = m2.with_pc(i + 3);
    let g3 = plain_effect(p2, VERYLOW as int, 1, 1, op_dup(p2.stack, 1), p2.pc);
    let m3 = g3;
    assert(plain_step(m2) == Some(m3)) by {
        reveal(plain_step);
    }
    lemma_run_unfold(m3, 2);
    lemma_effect_ok(p2, VERYLOW as int, 1, 1, op_dup(p2.stack, 1), p2.pc);
    let p3 = m3.with_pc(i + 4);
    let g4 = plain_effect(p3, LOW as int, 2, 0, op_mul(p3.stack), p3.pc);
    let m4 = g4;
    assert(plain_step(m3) == Some(m4)) by {
        reveal(plain_step);
    }
    lemma_run_unfold(m4, 1);
    lemma_effect_ok(p3, LOW as int, 2, 0, op_mul(p3.stack), p3.pc);
    let p4 = m4.with_pc(i + 5);
    let g5 = plain_effect(p4, VERYLOW as int, 1, 1, op_dup(p4.stack, 1), p4.pc);
    let m5 = g5;
    assert(plain_step(m4) == Some(m5)) by {
        reveal(plain_step);
    }
    assert(plain_run(m5, 0) == Some(m5));
    assert(m5.halted is None);
    lemma_effect_ok(p4, VERYLOW as int, 1, 1, op_dup(p4.stack, 1), p4.pc);
}

#[verifier::rlimit(100)]
#[verifier::spinoff_prover]
pub(crate) proof fn runs_swap3_pop_pop_pop(m: MachineView, f: u8)
    requires
        plain_run_completes(28, m),
    ensures
        fused_step_matches(28, m, f),
{
    let r = rule_shape(28);
    let i = m.pc;
    assert(r.checks[0] == (0usize, op::SWAP3));
    assert(r.checks[1] == (1usize, op::POP));
    assert(r.checks[2] == (2usize, op::POP));
    assert(r.checks[3] == (3usize, op::POP));
    assert(m.code[i + 0] == op::SWAP3);
    assert(m.code[i + 1] == op::POP);
    assert(m.code[i + 2] == op::POP);
    assert(m.code[i + 3] == op::POP);
    let u = rule_apply(m.code, i, r, f);
    assert(u.len() == m.code.len() && u[i] == op::SWAP3POPPOPPOP) by {
        reveal_with_fuel(apply_checks, 5);
        lemma_apply_checks_len(m.code, i, r, f, 4);
    }
    let mu = with_code(m, u);
    assert(super_step(mu) == Some(spec_swap3_pop_pop_pop(mu.with_pc(i + 1)))) by {
        reveal(super_step);
    }
    lemma_run_unfold(m, 4);
    let p0 = m.with_pc(i + 1);
    let g1 = plain_effect(p0, VERYLOW as int, 4, 0, op_swap(p0.stack, 3), p0.pc);
    let m1 = g1;
    assert(plain_step(m) == Some(m1)) by {
        reveal(plain_step);
    }
    lemma_run_unfold(m1, 3);
    lemma_effect_ok(p0, VERYLOW as int, 4, 0, op_swap(p0.stack, 3), p0.pc);
    let p1 = m1.with_pc(i + 2);
    let g2 = plain_effect(p1, BASE as int, 1, 0, op_pop(p1.stack), p1.pc);
    let m2 = g2;
    assert(plain_step(m1) == Some(m2)) by {
        reveal(plain_step);
    }
    lemma_run_unfold(m2, 2);
    lemma_effect_ok(p1, BASE as int, 1, 0, op_pop(p1.stack), p1.pc);
    let p2 = m2.with_pc(i + 3);
    let g3 = plain_effect(p2, BASE as int, 1, 0, op_pop(p2.stack), p2.pc);
    let m3 = g3;
    assert(plain_step(m2) == Some(m3)) by {
        reveal(plain_step);
    }
    lemma_run_unfold(m3, 1);
    lemma_effect_ok(p2, BASE as int, 1, 0, op_pop(p2.stack), p2.pc);
    let p3 = m3.with_pc(i + 4);
    let g4 = plain_effect(p3, BASE as int, 1, 0, op_pop(p3.stack), p3.pc);
    let m4 = g4;
    assert(plain_step(m3) == Some(m4)) by {
        reveal(plain_step);
    }
    assert(plain_run(m4, 0) == Some(m4));
    assert(m4.halted is None);
    lemma_effect_ok(p3, BASE as int, 1, 0, op_pop(p3.stack), p3.pc);
}

#[verifier::rlimit(100)]
#[verifier::spinoff_prover]
pub(crate) proof fn runs_sub_slt_iszero_push2(m: MachineView, f: u8)
    requires
        plain_run_completes(29, m),
    ensures
        fused_step_matches(29, m, f),
{
    let r = rule_shape(29);
    let i = m.pc;
    assert(r.checks[0] == (0usize, op::SUB));
    assert(r.checks[1] == (1usize, op::SLT));
    assert(r.checks[2] == (2usize, op::ISZERO));
    assert(r.checks[3] == (3usize, op::PUSH2));
    assert(m.code[i + 0] == op::SUB);
    assert(m.code[i + 1] == op::SLT);
    assert(m.code[i + 2] == op::ISZERO);
    assert(m.code[i + 3] == op::PUSH2);
    let u = rule_apply(m.code, i, r, f);
    assert(u.len() == m.code.len() && u[i] == op::SUBSLTISZEROPUSH2 && u[i + 4] == m.code[i + 4] && u[i + 5] == m.code[i + 5]) by {
        reveal_with_fuel(apply_checks, 5);
        lemma_apply_checks_len(m.code, i, r, f, 4);
    }
    let mu = with_code(m, u);
    assert(super_step(mu) == Some(spec_sub_slt_iszero_push2(mu.with_pc(i + 1)))) by {
        reveal(super_step);
    }
    lemma_run_unfold(m, 4);
    let p0 = m.with_pc(i + 1);
    let g1 = plain_effect(p0, VERYLOW as int, 2, 0, op_sub(p0.stack), p0.pc);
    let m1 = g1;
    assert(plain_step(m) == Some(m1)) by {
        reveal(plain_step);
    }
    lemma_run_unfold(m1, 3);
    lemma_effect_ok(p0, VERYLOW as int, 2, 0, op_sub(p0.stack), p0.pc);
    let p1 = m1.with_pc(i + 2);
    let g2 = plain_effect(p1, VERYLOW as int, 2, 0, op_slt(p1.stack), p1.pc);
    let m2 = g2;
    assert(plain_step(m1) == Some(m2)) by {
        reveal(plain_step);
    }
    lemma_run_unfold(m2, 2);
    lemma_effect_ok(p1, VERYLOW as int, 2, 0, op_slt(p1.stack), p1.pc);
    let p2 = m2.with_pc(i + 3);
    let g3 = plain_effect(p2, VERYLOW as int, 1, 0, op_iszero(p2.stack), p2.pc);
    let m3 = g3;
    assert(plain_step(m2) == Some(m3)) by {
        reveal(plain_step);
    }
    lemma_run_unfold(m3, 1);
    lemma_effect_ok(p2, VERYLOW as int, 1, 0, op_iszero(p2.stack), p2.pc);
    let p3 = m3.with_pc(i + 4);
    let g4 = plain_effect(p3, VERYLOW as int, 0, 1, op_push(p3.stack, word_from(p3.code_u16(p3.pc) as u64)), p3.pc + 2);
    let m4 = g4;
    assert(plain_step(m3) == Some(m4)) by {
        reveal(plain_step);
    }
    assert(plain_run(m4, 0) == Some(m4));
    assert(m4.halted is None);
    lemma_effect_ok(p3, VERYLOW as int, 0, 1, op_push(p3.stack, word_from(p3.code_u16(p3.pc) as u64)), p3.pc + 2);
    assert(mu.code_byte(i + 4) == m.code_byte(i + 4));
    assert(mu.code_byte(i + 5) == m.code_byte(i + 5));
}

#[verifier::rlimit(100)]
#[verifier::spinoff_prover]
pub(crate) proof fn runs_dup11_mul_dup3_sub_mul_dup1(m: MachineView, f: u8)
    requires
        plain_run_completes(30, m),
    ensures
        fused_step_matches(30, m, f),
{
    let r = rule_shape(30);
    let i = m.pc;
    assert(r.checks[0] == (0usize, op::DUP11));
    assert(r.checks[1] == (1usize, op::MUL));
    assert(r.checks[2] == (2usize, op::DUP3));
    assert(r.checks[3] == (3usize, op::SUB));
    assert(r.checks[4] == (4usize, op::MUL));
    assert(r.checks[5] == (5usize, op::DUP1));
    assert(m.code[i + 0] == op::DUP11);
    assert(m.code[i + 1] == op::MUL);
    assert(m.code[i + 2] == op::DUP3);
    assert(m.code[i + 3] == op::SUB);
    assert(m.code[i + 4] == op::MUL);
    assert(m.code[i + 5] == op::DUP1);
    let u = rule_apply(m.code, i, r, f);
    assert(u.len() == m.code.len() && u[i] == op::DUP11MULDUP3SUBMULDUP1) by {
        reveal_with_fuel(apply_checks, 7);
        lemma_apply_checks_len(m.code, i, r, f, 6);
    }
    let mu = with_code(m, u);
    assert(super_step(mu) == Some(spec_dup11_mul_dup3_sub_mul_dup1(mu.with_pc(i + 1)))) by {
        reveal(super_step);
    }
    lemma_run_unfold(m, 6);
    let p0 = m.with_pc(i + 1);
    let g1 = plain_effect(p0, VERYLOW as int, 11, 1, op_dup(p0.stack, 11), p0.pc);
    let m1 = g1;
    assert(plain_step(m) == Some(m1)) by {
        reveal(plain_step);
    }
    lemma_run_unfold(m1, 5);
    lemma_effect_ok(p0, VERYLOW as int, 11, 1, op_dup(p0.stack, 11), p0.pc);
    let p1 = m1.with_pc(i + 2);
    let g2 = plain_effect(p1, LOW as int, 2, 0, op_mul(p1.stack), p1.pc);
    let m2 = g2;
    assert(plain_step(m1) == Some(m2)) by {
        reveal(plain_step);
    }
    lemma_run_unfold(m2, 4);
    lemma_effect_ok(p1, LOW as int, 2, 0, op_mul(p1.stack), p1.pc);
    let p2 = m2.with_pc(i + 3);
    let g3 = plain_effect(p2, VERYLOW as int, 3, 1, op_dup(p2.stack, 3), p2.pc);
    let m3 = g3;
    assert(plain_step(m2) == Some(m3)) by {
        reveal(plain_step);
    }
    lemma_run_unfold(m3, 3);
    lemma_effect_ok(p2, VERYLOW as int, 3, 1, op_dup(p2.stack, 3), p2.pc);
    let p3 = m3.with_pc(i + 4);
    let g4 = plain_effect(p3, VERYLOW as int, 2, 0, op_sub(p3.stack), p3.pc);
    let m4 = g4;
    assert(plain_step(m3) == Some(m4)) by {
        reveal(plain_step);
    }
    lemma_run_unfold(m4, 2);
    lemma_effect_ok(p3, VERYLOW as int, 2, 0, op_sub(p3.stack), p3.pc);
    let p4 = m4.with_pc(i + 5);
    let g5 = plain_effect(p4, LOW as int, 2, 0, op_mul(p4.stack), p4.pc);
    let m5 = g5;
    assert(plain_step(m4) == Some(m5)) by {
        reveal(plain_step);
    }
    lemma_run_unfold(m5, 1);
    lemma_effect_ok(p4, LOW as int, 2, 0, op_mul(p4.stack), p4.pc);
    let p5 = m5.with_pc(i + 6);
    let g6 = plain_effect(p5, VERYLOW as int, 1, 1, op_dup(p5.stack, 1), p5.pc);
    let m6 = g6;
    assert(plain_step(m5) == Some(m6)) by {
        reveal(plain_step);
    }
    assert(plain_run(m6, 0) == Some(m6));
    assert(m6.halted is None);
    lemma_effect_ok(p5, VERYLOW as int, 1, 1, op_dup(p5.stack, 1), p5.pc);
}

} // verus!
