//! For each fusion rule: its super-instruction reads no code outside its
//! window, and a rewrite puts it at the window's start.

use vstd::prelude::*;
use crate::bytecode::opcode as op;
use crate::fusion::{
    apply_checks, lemma_apply_checks_len, rule_apply, rule_matches, rule_shape, agree_on,
};
use crate::interpreter::complex::{
    spec_and_dup2_add_swap1_dup2_lt, spec_and_swap1_pop_swap2_swap1, spec_dup11_mul_dup3_sub_mul_dup1,
    spec_dup1_push4_eq_push2, spec_dup2_lt, spec_dup2_mstore_push1_add, spec_dup3_and, spec_iszero_push2,
    spec_jump_if_zero, spec_pop2, spec_pop_jump, spec_pop_swap2_swap1_pop, spec_push1_add,
    spec_push1_calldataload_push1_shr_dup1_push4_gt_push2, spec_push1_dup1, spec_push1_push1,
    spec_push1_push1_push1_shl_sub, spec_push1_shl, spec_push2_jump, spec_push2_jumpi,
    spec_shr_shr_dup1_mul_dup1, spec_sub_slt_iszero_push2, spec_swap1_dup2, spec_swap1_pop,
    spec_swap1_pop_swap2_swap1, spec_swap1_push1_dup1_not_swap2_add_and_dup2_add_swap1_dup2_lt,
    spec_swap2_pop, spec_swap2_swap1, spec_swap2_swap1_dup3_sub_swap2_dup3_gt_push2,
    spec_swap2_swap1_pop_jump, spec_swap3_pop_pop_pop,
};
use crate::interpreter::machine::{
    MachineView,
};
use super::{
    super_step, with_code,
};

verus! {

pub(crate) proof fn window_of_push1_calldataload_push1_shr_dup1_push4_gt_push2(m: MachineView, c: Seq<u8>)
    requires
        0 <= m.pc,
        m.pc + 15 < m.code.len(),
        agree_on(m.code, c, m.pc, m.pc + 15),
        m.code[m.pc] == op::PUSH1CALLDATALOADPUSH1SHRDUP1PUSH4GTPUSH2,
    ensures
        super_step(with_code(m, c)) == Some(with_code(spec_push1_calldataload_push1_shr_dup1_push4_gt_push2(m.with_pc(m.pc + 1)), c)),
        super_step(m) == Some(spec_push1_calldataload_push1_shr_dup1_push4_gt_push2(m.with_pc(m.pc + 1))),
{
    let i = m.pc;
    let mc = with_code(m, c);
    assert(m.code[i + 0] == c[i + 0]);
    assert(m.code[i + 1] == c[i + 1]);
    assert(m.code[i + 2] == c[i + 2]);
    assert(m.code[i + 3] == c[i + 3]);
    assert(m.code[i + 4] == c[i + 4]);
    assert(m.code[i + 5] == c[i + 5]);
    assert(m.code[i + 6] == c[i + 6]);
    assert(m.code[i + 7] == c[i + 7]);
    assert(m.code[i + 8] == c[i + 8]);
    assert(m.code[i + 9] == c[i + 9]);
    assert(m.code[i + 10] == c[i + 10]);
    assert(m.code[i + 11] == c[i + 11]);
    assert(m.code[i + 12] == c[i + 12]);
    assert(m.code[i + 13] == c[i + 13]);
    assert(m.code[i + 14] == c[i + 14]);
    assert(m.code[i + 15] == c[i + 15]);
    assert(super_step(m) == Some(spec_push1_calldataload_push1_shr_dup1_push4_gt_push2(m.with_pc(i + 1)))) by {
        reveal(super_step);
    }
    assert(super_step(mc) == Some(spec_push1_calldataload_push1_shr_dup1_push4_gt_push2(mc.with_pc(i + 1)))) by {
        reveal(super_step);
    }
    assert(spec_push1_calldataload_push1_shr_dup1_push4_gt_push2(mc.with_pc(i + 1)) == with_code(spec_push1_calldataload_push1_shr_dup1_push4_gt_push2(m.with_pc(i + 1)), c));
}

pub(crate) proof fn window_of_swap1_push1_dup1_not_swap2_add_and_dup2_add_swap1_dup2_lt(m: MachineView, c: Seq<u8>)
    requires
        0 <= m.pc,
        m.pc + 12 < m.code.len(),
        agree_on(m.code, c, m.pc, m.pc + 12),
        m.code[m.pc] == op::SWAP1PUSH1DUP1NOTSWAP2ADDANDDUP2ADDSWAP1DUP2LT,
    ensures
        super_step(with_code(m, c)) == Some(with_code(spec_swap1_push1_dup1_not_swap2_add_and_dup2_add_swap1_dup2_lt(m.with_pc(m.pc + 1)), c)),
        super_step(m) == Some(spec_swap1_push1_dup1_not_swap2_add_and_dup2_add_swap1_dup2_lt(m.with_pc(m.pc + 1))),
{
    let i = m.pc;
    let mc = with_code(m, c);
    assert(m.code[i + 0] == c[i + 0]);
    assert(m.code[i + 1] == c[i + 1]);
    assert(m.code[i + 2] == c[i + 2]);
    assert(m.code[i + 3] == c[i + 3]);
    assert(m.code[i + 4] == c[i + 4]);
    assert(m.code[i + 5] == c[i + 5]);
    assert(m.code[i + 6] == c[i + 6]);
    assert(m.code[i + 7] == c[i + 7]);
    assert(m.code[i + 8] == c[i + 8]);
    assert(m.code[i + 9] == c[i + 9]);
    assert(m.code[i + 10] == c[i + 10]);
    assert(m.code[i + 11] == c[i + 11]);
    assert(m.code[i + 12] == c[i + 12]);
    assert(super_step(m) == Some(spec_swap1_push1_dup1_not_swap2_add_and_dup2_add_swap1_dup2_lt(m.with_pc(i + 1)))) by {
        reveal(super_step);
    }
    assert(super_step(mc) == Some(spec_swap1_push1_dup1_not_swap2_add_and_dup2_add_swap1_dup2_lt(mc.with_pc(i + 1)))) by {
        reveal(super_step);
    }
    assert(spec_swap1_push1_dup1_not_swap2_add_and_dup2_add_swap1_dup2_lt(mc.with_pc(i + 1)) == with_code(spec_swap1_push1_dup1_not_swap2_add_and_dup2_add_swap1_dup2_lt(m.with_pc(i + 1)), c));
}

pub(crate) proof fn window_of_dup1_push4_eq_push2(m: MachineView, c: Seq<u8>)
    requires
        0 <= m.pc,
        m.pc + 9 < m.code.len(),
        agree_on(m.code, c, m.pc, m.pc + 9),
        m.code[m.pc] == op::DUP1PUSH4EQPUSH2,
    ensures
        super_step(with_code(m, c)) == Some(with_code(spec_dup1_push4_eq_push2(m.with_pc(m.pc + 1)), c)),
        super_step(m) == Some(spec_dup1_push4_eq_push2(m.with_pc(m.pc + 1))),
{
    let i = m.pc;
    let mc = with_code(m, c);
    assert(m.code[i + 0] == c[i + 0]);
    assert(m.code[i + 1] == c[i + 1]);
    assert(m.code[i + 2] == c[i + 2]);
    assert(m.code[i + 3] == c[i + 3]);
    assert(m.code[i + 4] == c[i + 4]);
    assert(m.code[i + 5] == c[i + 5]);
    assert(m.code[i + 6] == c[i + 6]);
    assert(m.code[i + 7] == c[i + 7]);
    assert(m.code[i + 8] == c[i + 8]);
    assert(m.code[i + 9] == c[i + 9]);
    assert(super_step(m) == Some(spec_dup1_push4_eq_push2(m.with_pc(i + 1)))) by {
        reveal(super_step);
    }
    assert(super_step(mc) == Some(spec_dup1_push4_eq_push2(mc.with_pc(i + 1)))) by {
        reveal(super_step);
    }
    assert(spec_dup1_push4_eq_push2(mc.with_pc(i + 1)) == with_code(spec_dup1_push4_eq_push2(m.with_pc(i + 1)), c));
}

pub(crate) proof fn window_of_push1_push1_push1_shl_sub(m: MachineView, c: Seq<u8>)
    requires
        0 <= m.pc,
        m.pc + 7 < m.code.len(),
        agree_on(m.code, c, m.pc, m.pc + 7),
        m.code[m.pc] == op::PUSH1PUSH1PUSH1SHLSUB,
    ensures
        super_step(with_code(m, c)) == Some(with_code(spec_push1_push1_push1_shl_sub(m.with_pc(m.pc + 1)), c)),
        super_step(m) == Some(spec_push1_push1_push1_shl_sub(m.with_pc(m.pc + 1))),
{
    let i = m.pc;
    let mc = with_code(m, c);
    assert(m.code[i + 0] == c[i + 0]);
    assert(m.code[i + 1] == c[i + 1]);
    assert(m.code[i + 2] == c[i + 2]);
    assert(m.code[i + 3] == c[i + 3]);
    assert(m.code[i + 4] == c[i + 4]);
    assert(m.code[i + 5] == c[i + 5]);
    assert(m.code[i + 6] == c[i + 6]);
    assert(m.code[i + 7] == c[i + 7]);
    assert(super_step(m) == Some(spec_push1_push1_push1_shl_sub(m.with_pc(i + 1)))) by {
        reveal(super_step);
    }
    assert(super_step(mc) == Some(spec_push1_push1_push1_shl_sub(mc.with_pc(i + 1)))) by {
        reveal(super_step);
    }
    assert(spec_push1_push1_push1_shl_sub(mc.with_pc(i + 1)) == with_code(spec_push1_push1_push1_shl_sub(m.with_pc(i + 1)), c));
}

pub(crate) proof fn window_of_and_dup2_add_swap1_dup2_lt(m: MachineView, c: Seq<u8>)
    requires
        0 <= m.pc,
        m.pc + 5 < m.code.len(),
        agree_on(m.code, c, m.pc, m.pc + 5),
        m.code[m.pc] == op::ANDDUP2ADDSWAP1DUP2LT,
    ensures
        super_step(with_code(m, c)) == Some(with_code(spec_and_dup2_add_swap1_dup2_lt(m.with_pc(m.pc + 1)), c)),
        super_step(m) == Some(spec_and_dup2_add_swap1_dup2_lt(m.with_pc(m.pc + 1))),
{
    let i = m.pc;
    let mc = with_code(m, c);
    assert(m.code[i + 0] == c[i + 0]);
    assert(m.code[i + 1] == c[i + 1]);
    assert(m.code[i + 2] == c[i + 2]);
    assert(m.code[i + 3] == c[i + 3]);
    assert(m.code[i + 4] == c[i + 4]);
    assert(m.code[i + 5] == c[i + 5]);
    assert(super_step(m) == Some(spec_and_dup2_add_swap1_dup2_lt(m.with_pc(i + 1)))) by {
        reveal(super_step);
    }
    assert(super_step(mc) == Some(spec_and_dup2_add_swap1_dup2_lt(mc.with_pc(i + 1)))) by {
        reveal(super_step);
    }
    assert(spec_and_dup2_add_swap1_dup2_lt(mc.with_pc(i + 1)) == with_code(spec_and_dup2_add_swap1_dup2_lt(m.with_pc(i + 1)), c));
}

pub(crate) proof fn window_of_and_swap1_pop_swap2_swap1(m: MachineView, c: Seq<u8>)
    requires
        0 <= m.pc,
        m.pc + 4 < m.code.len(),
        agree_on(m.code, c, m.pc, m.pc + 4),
        m.code[m.pc] == op::ANDSWAP1POPSWAP2SWAP1,
    ensures
        super_step(with_code(m, c)) == Some(with_code(spec_and_swap1_pop_swap2_swap1(m.with_pc(m.pc + 1)), c)),
        super_step(m) == Some(spec_and_swap1_pop_swap2_swap1(m.with_pc(m.pc + 1))),
{
    let i = m.pc;
    let mc = with_code(m, c);
    assert(m.code[i + 0] == c[i + 0]);
    assert(m.code[i + 1] == c[i + 1]);
    assert(m.code[i + 2] == c[i + 2]);
    assert(m.code[i + 3] == c[i + 3]);
    assert(m.code[i + 4] == c[i + 4]);
    assert(super_step(m) == Some(spec_and_swap1_pop_swap2_swap1(m.with_pc(i + 1)))) by {
        reveal(super_step);
    }
    assert(super_step(mc) == Some(spec_and_swap1_pop_swap2_swap1(mc.with_pc(i + 1)))) by {
        reveal(super_step);
    }
    assert(spec_and_swap1_pop_swap2_swap1(mc.with_pc(i + 1)) == with_code(spec_and_swap1_pop_swap2_swap1(m.with_pc(i + 1)), c));
}

pub(crate) proof fn window_of_jump_if_zero(m: MachineView, c: Seq<u8>)
    requires
        0 <= m.pc,
        m.pc + 4 < m.code.len(),
        agree_on(m.code, c, m.pc, m.pc + 4),
        m.code[m.pc] == op::JUMPIFZERO,
    ensures
        super_step(with_code(m, c)) == Some(with_code(spec_jump_if_zero(m.with_pc(m.pc + 1)), c)),
        super_step(m) == Some(spec_jump_if_zero(m.with_pc(m.pc + 1))),
{
    let i = m.pc;
    let mc = with_code(m, c);
    assert(m.code[i + 0] == c[i + 0]);
    assert(m.code[i + 1] == c[i + 1]);
    assert(m.code[i + 2] == c[i + 2]);
    assert(m.code[i + 3] == c[i + 3]);
    assert(m.code[i + 4] == c[i + 4]);
    assert(super_step(m) == Some(spec_jump_if_zero(m.with_pc(i + 1)))) by {
        reveal(super_step);
    }
    assert(super_step(mc) == Some(spec_jump_if_zero(mc.with_pc(i + 1)))) by {
        reveal(super_step);
    }
    assert(spec_jump_if_zero(mc.with_pc(i + 1)) == with_code(spec_jump_if_zero(m.with_pc(i + 1)), c));
}

pub(crate) proof fn window_of_dup2_mstore_push1_add(m: MachineView, c: Seq<u8>)
    requires
        0 <= m.pc,
        m.pc + 4 < m.code.len(),
        agree_on(m.code, c, m.pc, m.pc + 4),
        m.code[m.pc] == op::DUP2MSTOREPUSH1ADD,
    ensures
        super_step(with_code(m, c)) == Some(with_code(spec_dup2_mstore_push1_add(m.with_pc(m.pc + 1)), c)),
        super_step(m) == Some(spec_dup2_mstore_push1_add(m.with_pc(m.pc + 1))),
{
    let i = m.pc;
    let mc = with_code(m, c);
    assert(m.code[i + 0] == c[i + 0]);
    assert(m.code[i + 1] == c[i + 1]);
    assert(m.code[i + 2] == c[i + 2]);
    assert(m.code[i + 3] == c[i + 3]);
    assert(m.code[i + 4] == c[i + 4]);
    assert(super_step(m) == Some(spec_dup2_mstore_push1_add(m.with_pc(i + 1)))) by {
        reveal(super_step);
    }
    assert(super_step(mc) == Some(spec_dup2_mstore_push1_add(mc.with_pc(i + 1)))) by {
        reveal(super_step);
    }
    assert(spec_dup2_mstore_push1_add(mc.with_pc(i + 1)) == with_code(spec_dup2_mstore_push1_add(m.with_pc(i + 1)), c));
}

pub(crate) proof fn window_of_swap2_swap1_pop_jump(m: MachineView, c: Seq<u8>)
    requires
        0 <= m.pc,
        m.pc + 3 < m.code.len(),
        agree_on(m.code, c, m.pc, m.pc + 3),
        m.code[m.pc] == op::SWAP2SWAP1POPJUMP,
    ensures
        super_step(with_code(m, c)) == Some(with_code(spec_swap2_swap1_pop_jump(m.with_pc(m.pc + 1)), c)),
        super_step(m) == Some(spec_swap2_swap1_pop_jump(m.with_pc(m.pc + 1))),
{
    let i = m.pc;
    let mc = with_code(m, c);
    assert(m.code[i + 0] == c[i + 0]);
    assert(m.code[i + 1] == c[i + 1]);
    assert(m.code[i + 2] == c[i + 2]);
    assert(m.code[i + 3] == c[i + 3]);
    assert(super_step(m) == Some(spec_swap2_swap1_pop_jump(m.with_pc(i + 1)))) by {
        reveal(super_step);
    }
    assert(super_step(mc) == Some(spec_swap2_swap1_pop_jump(mc.with_pc(i + 1)))) by {
        reveal(super_step);
    }
    assert(spec_swap2_swap1_pop_jump(mc.with_pc(i + 1)) == with_code(spec_swap2_swap1_pop_jump(m.with_pc(i + 1)), c));
}

pub(crate) proof fn window_of_swap1_pop_swap2_swap1(m: MachineView, c: Seq<u8>)
    requires
        0 <= m.pc,
        m.pc + 3 < m.code.len(),
        agree_on(m.code, c, m.pc, m.pc + 3),
        m.code[m.pc] == op::SWAP1POPSWAP2SWAP1,
    ensures
        super_step(with_code(m, c)) == Some(with_code(spec_swap1_pop_swap2_swap1(m.with_pc(m.pc + 1)), c)),
        super_step(m) == Some(spec_swap1_pop_swap2_swap1(m.with_pc(m.pc + 1))),
{
    let i = m.pc;
    let mc = with_code(m, c);
    assert(m.code[i + 0] == c[i + 0]);
    assert(m.code[i + 1] == c[i + 1]);
    assert(m.code[i + 2] == c[i + 2]);
    assert(m.code[i + 3] == c[i + 3]);
    assert(super_step(m) == Some(spec_swap1_pop_swap2_swap1(m.with_pc(i + 1)))) by {
        reveal(super_step);
    }
    assert(super_step(mc) == Some(spec_swap1_pop_swap2_swap1(mc.with_pc(i + 1)))) by {
        reveal(super_step);
    }
    assert(spec_swap1_pop_swap2_swap1(mc.with_pc(i + 1)) == with_code(spec_swap1_pop_swap2_swap1(m.with_pc(i + 1)), c));
}

pub(crate) proof fn window_of_pop_swap2_swap1_pop(m: MachineView, c: Seq<u8>)
    requires
        0 <= m.pc,
        m.pc + 3 < m.code.len(),
        agree_on(m.code, c, m.pc, m.pc + 3),
        m.code[m.pc] == op::POPSWAP2SWAP1POP,
    ensures
        super_step(with_code(m, c)) == Some(with_code(spec_pop_swap2_swap1_pop(m.with_pc(m.pc + 1)), c)),
        super_step(m) == Some(spec_pop_swap2_swap1_pop(m.with_pc(m.pc + 1))),
{
    let i = m.pc;
    let mc = with_code(m, c);
    assert(m.code[i + 0] == c[i + 0]);
    assert(m.code[i + 1] == c[i + 1]);
    assert(m.code[i + 2] == c[i + 2]);
    assert(m.code[i + 3] == c[i + 3]);
    assert(super_step(m) == Some(spec_pop_swap2_swap1_pop(m.with_pc(i + 1)))) by {
        reveal(super_step);
    }
    assert(super_step(mc) == Some(spec_pop_swap2_swap1_pop(mc.with_pc(i + 1)))) by {
        reveal(super_step);
    }
    assert(spec_pop_swap2_swap1_pop(mc.with_pc(i + 1)) == with_code(spec_pop_swap2_swap1_pop(m.with_pc(i + 1)), c));
}

pub(crate) proof fn window_of_push2_jump(m: MachineView, c: Seq<u8>)
    requires
        0 <= m.pc,
        m.pc + 3 < m.code.len(),
        agree_on(m.code, c, m.pc, m.pc + 3),
        m.code[m.pc] == op::PUSH2JUMP,
    ensures
        super_step(with_code(m, c)) == Some(with_code(spec_push2_jump(m.with_pc(m.pc + 1)), c)),
        super_step(m) == Some(spec_push2_jump(m.with_pc(m.pc + 1))),
{
    let i = m.pc;
    let mc = with_code(m, c);
    assert(m.code[i + 0] == c[i + 0]);
    assert(m.code[i + 1] == c[i + 1]);
    assert(m.code[i + 2] == c[i + 2]);
    assert(m.code[i + 3] == c[i + 3]);
    assert(super_step(m) == Some(spec_push2_jump(m.with_pc(i + 1)))) by {
        reveal(super_step);
    }
    assert(super_step(mc) == Some(spec_push2_jump(mc.with_pc(i + 1)))) by {
        reveal(super_step);
    }
    assert(spec_push2_jump(mc.with_pc(i + 1)) == with_code(spec_push2_jump(m.with_pc(i + 1)), c));
}

pub(crate) proof fn window_of_push2_jumpi(m: MachineView, c: Seq<u8>)
    requires
        0 <= m.pc,
        m.pc + 3 < m.code.len(),
        agree_on(m.code, c, m.pc, m.pc + 3),
        m.code[m.pc] == op::PUSH2JUMPI,
    ensures
        super_step(with_code(m, c)) == Some(with_code(spec_push2_jumpi(m.with_pc(m.pc + 1)), c)),
        super_step(m) == Some(spec_push2_jumpi(m.with_pc(m.pc + 1))),
{
    let i = m.pc;
    let mc = with_code(m, c);
    assert(m.code[i + 0] == c[i + 0]);
    assert(m.code[i + 1] == c[i + 1]);
    assert(m.code[i + 2] == c[i + 2]);
    assert(m.code[i + 3] == c[i + 3]);
    assert(super_step(m) == Some(spec_push2_jumpi(m.with_pc(i + 1)))) by {
        reveal(super_step);
    }
    assert(super_step(mc) == Some(spec_push2_jumpi(mc.with_pc(i + 1)))) by {
        reveal(super_step);
    }
    assert(spec_push2_jumpi(mc.with_pc(i + 1)) == with_code(spec_push2_jumpi(m.with_pc(i + 1)), c));
}

pub(crate) proof fn window_of_push1_push1(m: MachineView, c: Seq<u8>)
    requires
        0 <= m.pc,
        m.pc + 3 < m.code.len(),
        agree_on(m.code, c, m.pc, m.pc + 3),
        m.code[m.pc] == op::PUSH1PUSH1,
    ensures
        super_step(with_code(m, c)) == Some(with_code(spec_push1_push1(m.with_pc(m.pc + 1)), c)),
        super_step(m) == Some(spec_push1_push1(m.with_pc(m.pc + 1))),
{
    let i = m.pc;
    let mc = with_code(m, c);
    assert(m.code[i + 0] == c[i + 0]);
    assert(m.code[i + 1] == c[i + 1]);
    assert(m.code[i + 2] == c[i + 2]);
    assert(m.code[i + 3] == c[i + 3]);
    assert(super_step(m) == Some(spec_push1_push1(m.with_pc(i + 1)))) by {
        reveal(super_step);
    }
    assert(super_step(mc) == Some(spec_push1_push1(mc.with_pc(i + 1)))) by {
        reveal(super_step);
    }
    assert(spec_push1_push1(mc.with_pc(i + 1)) == with_code(spec_push1_push1(m.with_pc(i + 1)), c));
}

pub(crate) proof fn window_of_iszero_push2(m: MachineView, c: Seq<u8>)
    requires
        0 <= m.pc,
        m.pc + 3 < m.code.len(),
        agree_on(m.code, c, m.pc, m.pc + 3),
        m.code[m.pc] == op::ISZEROPUSH2,
    ensures
        super_step(with_code(m, c)) == Some(with_code(spec_iszero_push2(m.with_pc(m.pc + 1)), c)),
        super_step(m) == Some(spec_iszero_push2(m.with_pc(m.pc + 1))),
{
    let i = m.pc;
    let mc = with_code(m, c);
    assert(m.code[i + 0] == c[i + 0]);
    assert(m.code[i + 1] == c[i + 1]);
    assert(m.code[i + 2] == c[i + 2]);
    assert(m.code[i + 3] == c[i + 3]);
    assert(super_step(m) == Some(spec_iszero_push2(m.with_pc(i + 1)))) by {
        reveal(super_step);
    }
    assert(super_step(mc) == Some(spec_iszero_push2(mc.with_pc(i + 1)))) by {
        reveal(super_step);
    }
    assert(spec_iszero_push2(mc.with_pc(i + 1)) == with_code(spec_iszero_push2(m.with_pc(i + 1)), c));
}

pub(crate) proof fn window_of_push1_add(m: MachineView, c: Seq<u8>)
    requires
        0 <= m.pc,
        m.pc + 2 < m.code.len(),
        agree_on(m.code, c, m.pc, m.pc + 2),
        m.code[m.pc] == op::PUSH1ADD,
    ensures
        super_step(with_code(m, c)) == Some(with_code(spec_push1_add(m.with_pc(m.pc + 1)), c)),
        super_step(m) == Some(spec_push1_add(m.with_pc(m.pc + 1))),
{
    let i = m.pc;
    let mc = with_code(m, c);
    assert(m.code[i + 0] == c[i + 0]);
    assert(m.code[i + 1] == c[i + 1]);
    assert(m.code[i + 2] == c[i + 2]);
    assert(super_step(m) == Some(spec_push1_add(m.with_pc(i + 1)))) by {
        reveal(super_step);
    }
    assert(super_step(mc) == Some(spec_push1_add(mc.with_pc(i + 1)))) by {
        reveal(super_step);
    }
    assert(spec_push1_add(mc.with_pc(i + 1)) == with_code(spec_push1_add(m.with_pc(i + 1)), c));
}

pub(crate) proof fn window_of_push1_shl(m: MachineView, c: Seq<u8>)
    requires
        0 <= m.pc,
        m.pc + 2 < m.code.len(),
        agree_on(m.code, c, m.pc, m.pc + 2),
        m.code[m.pc] == op::PUSH1SHL,
    ensures
        super_step(with_code(m, c)) == Some(with_code(spec_push1_shl(m.with_pc(m.pc + 1)), c)),
        super_step(m) == Some(spec_push1_shl(m.with_pc(m.pc + 1))),
{
    let i = m.pc;
    let mc = with_code(m, c);
    assert(m.code[i + 0] == c[i + 0]);
    assert(m.code[i + 1] == c[i + 1]);
    assert(m.code[i + 2] == c[i + 2]);
    assert(super_step(m) == Some(spec_push1_shl(m.with_pc(i + 1)))) by {
        reveal(super_step);
    }
    assert(super_step(mc) == Some(spec_push1_shl(mc.with_pc(i + 1)))) by {
        reveal(super_step);
    }
    assert(spec_push1_shl(mc.with_pc(i + 1)) == with_code(spec_push1_shl(m.with_pc(i + 1)), c));
}

pub(crate) proof fn window_of_push1_dup1(m: MachineView, c: Seq<u8>)
    requires
        0 <= m.pc,
        m.pc + 2 < m.code.len(),
        agree_on(m.code, c, m.pc, m.pc + 2),
        m.code[m.pc] == op::PUSH1DUP1,
    ensures
        super_step(with_code(m, c)) == Some(with_code(spec_push1_dup1(m.with_pc(m.pc + 1)), c)),
        super_step(m) == Some(spec_push1_dup1(m.with_pc(m.pc + 1))),
{
    let i = m.pc;
    let mc = with_code(m, c);
    assert(m.code[i + 0] == c[i + 0]);
    assert(m.code[i + 1] == c[i + 1]);
    assert(m.code[i + 2] == c[i + 2]);
    assert(super_step(m) == Some(spec_push1_dup1(m.with_pc(i + 1)))) by {
        reveal(super_step);
    }
    assert(super_step(mc) == Some(spec_push1_dup1(mc.with_pc(i + 1)))) by {
        reveal(super_step);
    }
    assert(spec_push1_dup1(mc.with_pc(i + 1)) == with_code(spec_push1_dup1(m.with_pc(i + 1)), c));
}

pub(crate) proof fn window_of_swap1_pop(m: MachineView, c: Seq<u8>)
    requires
        0 <= m.pc,
        m.pc + 1 < m.code.len(),
        agree_on(m.code, c, m.pc, m.pc + 1),
        m.code[m.pc] == op::SWAP1POP,
    ensures
        super_step(with_code(m, c)) == Some(with_code(spec_swap1_pop(m.with_pc(m.pc + 1)), c)),
        super_step(m) == Some(spec_swap1_pop(m.with_pc(m.pc + 1))),
{
    let i = m.pc;
    let mc = with_code(m, c);
    assert(m.code[i + 0] == c[i + 0]);
    assert(m.code[i + 1] == c[i + 1]);
    assert(super_step(m) == Some(spec_swap1_pop(m.with_pc(i + 1)))) by {
        reveal(super_step);
    }
    assert(super_step(mc) == Some(spec_swap1_pop(mc.with_pc(i + 1)))) by {
        reveal(super_step);
    }
    assert(spec_swap1_pop(mc.with_pc(i + 1)) == with_code(spec_swap1_pop(m.with_pc(i + 1)), c));
}

pub(crate) proof fn window_of_pop_jump(m: MachineView, c: Seq<u8>)
    requires
        0 <= m.pc,
        m.pc + 1 < m.code.len(),
        agree_on(m.code, c, m.pc, m.pc + 1),
        m.code[m.pc] == op::POPJUMP,
    ensures
        super_step(with_code(m, c)) == Some(with_code(spec_pop_jump(m.with_pc(m.pc + 1)), c)),
        super_step(m) == Some(spec_pop_jump(m.with_pc(m.pc + 1))),
{
    let i = m.pc;
    let mc = with_code(m, c);
    assert(m.code[i + 0] == c[i + 0]);
    assert(m.code[i + 1] == c[i + 1]);
    assert(super_step(m) == Some(spec_pop_jump(m.with_pc(i + 1)))) by {
        reveal(super_step);
    }
    assert(super_step(mc) == Some(spec_pop_jump(mc.with_pc(i + 1)))) by {
        reveal(super_step);
    }
    assert(spec_pop_jump(mc.with_pc(i + 1)) == with_code(spec_pop_jump(m.with_pc(i + 1)), c));
}

pub(crate) proof fn window_of_pop2(m: MachineView, c: Seq<u8>)
    requires
        0 <= m.pc,
        m.pc + 1 < m.code.len(),
        agree_on(m.code, c, m.pc, m.pc + 1),
        m.code[m.pc] == op::POP2,
    ensures
        super_step(with_code(m, c)) == Some(with_code(spec_pop2(m.with_pc(m.pc + 1)), c)),
        super_step(m) == Some(spec_pop2(m.with_pc(m.pc + 1))),
{
    let i = m.pc;
    let mc = with_code(m, c);
    assert(m.code[i + 0] == c[i + 0]);
    assert(m.code[i + 1] == c[i + 1]);
    assert(super_step(m) == Some(spec_pop2(m.with_pc(i + 1)))) by {
        reveal(super_step);
    }
    assert(super_step(mc) == Some(spec_pop2(mc.with_pc(i + 1)))) by {
        reveal(super_step);
    }
    assert(spec_pop2(mc.with_pc(i + 1)) == with_code(spec_pop2(m.with_pc(i + 1)), c));
}

pub(crate) proof fn window_of_swap2_swap1(m: MachineView, c: Seq<u8>)
    requires
        0 <= m.pc,
        m.pc + 1 < m.code.len(),
        agree_on(m.code, c, m.pc, m.pc + 1),
        m.code[m.pc] == op::SWAP2SWAP1,
    ensures
        super_step(with_code(m, c)) == Some(with_code(spec_swap2_swap1(m.with_pc(m.pc + 1)), c)),
        super_step(m) == Some(spec_swap2_swap1(m.with_pc(m.pc + 1))),
{
    let i = m.pc;
    let mc = with_code(m, c);
    assert(m.code[i + 0] == c[i + 0]);
    assert(m.code[i + 1] == c[i + 1]);
    assert(super_step(m) == Some(spec_swap2_swap1(m.with_pc(i + 1)))) by {
        reveal(super_step);
    }
    assert(super_step(mc) == Some(spec_swap2_swap1(mc.with_pc(i + 1)))) by {
        reveal(super_step);
    }
    assert(spec_swap2_swap1(mc.with_pc(i + 1)) == with_code(spec_swap2_swap1(m.with_pc(i + 1)), c));
}

pub(crate) proof fn window_of_swap2_pop(m: MachineView, c: Seq<u8>)
    requires
        0 <= m.pc,
        m.pc + 1 < m.code.len(),
        agree_on(m.code, c, m.pc, m.pc + 1),
        m.code[m.pc] == op::SWAP2POP,
    ensures
        super_step(with_code(m, c)) == Some(with_code(spec_swap2_pop(m.with_pc(m.pc + 1)), c)),
        super_step(m) == Some(spec_swap2_pop(m.with_pc(m.pc + 1))),
{
    let i = m.pc;
    let mc = with_code(m, c);
    assert(m.code[i + 0] == c[i + 0]);
    assert(m.code[i + 1] == c[i + 1]);
    assert(super_step(m) == Some(spec_swap2_pop(m.with_pc(i + 1)))) by {
        reveal(super_step);
    }
    assert(super_step(mc) == Some(spec_swap2_pop(mc.with_pc(i + 1)))) by {
        reveal(super_step);
    }
    assert(spec_swap2_pop(mc.with_pc(i + 1)) == with_code(spec_swap2_pop(m.with_pc(i + 1)), c));
}

pub(crate) proof fn window_of_dup2_lt(m: MachineView, c: Seq<u8>)
    requires
        0 <= m.pc,
        m.pc + 1 < m.code.len(),
        agree_on(m.code, c, m.pc, m.pc + 1),
        m.code[m.pc] == op::DUP2LT,
    ensures
        super_step(with_code(m, c)) == Some(with_code(spec_dup2_lt(m.with_pc(m.pc + 1)), c)),
        super_step(m) == Some(spec_dup2_lt(m.with_pc(m.pc + 1))),
{
    let i = m.pc;
    let mc = with_code(m, c);
    assert(m.code[i + 0] == c[i + 0]);
    assert(m.code[i + 1] == c[i + 1]);
    assert(super_step(m) == Some(spec_dup2_lt(m.with_pc(i + 1)))) by {
        reveal(super_step);
    }
    assert(super_step(mc) == Some(spec_dup2_lt(mc.with_pc(i + 1)))) by {
        reveal(super_step);
    }
    assert(spec_dup2_lt(mc.with_pc(i + 1)) == with_code(spec_dup2_lt(m.with_pc(i + 1)), c));
}

pub(crate) proof fn window_of_dup3_and(m: MachineView, c: Seq<u8>)
    requires
        0 <= m.pc,
        m.pc + 1 < m.code.len(),
        agree_on(m.code, c, m.pc, m.pc + 1),
        m.code[m.pc] == op::DUP3AND,
    ensures
        super_step(with_code(m, c)) == Some(with_code(spec_dup3_and(m.with_pc(m.pc + 1)), c)),
        super_step(m) == Some(spec_dup3_and(m.with_pc(m.pc + 1))),
{
    let i = m.pc;
    let mc = with_code(m, c);
    assert(m.code[i + 0] == c[i + 0]);
    assert(m.code[i + 1] == c[i + 1]);
    assert(super_step(m) == Some(spec_dup3_and(m.with_pc(i + 1)))) by {
        reveal(super_step);
    }
    assert(super_step(mc) == Some(spec_dup3_and(mc.with_pc(i + 1)))) by {
        reveal(super_step);
    }
    assert(spec_dup3_and(mc.with_pc(i + 1)) == with_code(spec_dup3_and(m.with_pc(i + 1)), c));
}

pub(crate) proof fn window_of_swap2_swap1_dup3_sub_swap2_dup3_gt_push2(m: MachineView, c: Seq<u8>)
    requires
        0 <= m.pc,
        m.pc + 9 < m.code.len(),
        agree_on(m.code, c, m.pc, m.pc + 9),
        m.code[m.pc] == op::SWAP2SWAP1DUP3SUBSWAP2DUP3GTPUSH2,
    ensures
        super_step(with_code(m, c)) == Some(with_code(spec_swap2_swap1_dup3_sub_swap2_dup3_gt_push2(m.with_pc(m.pc + 1)), c)),
        super_step(m) == Some(spec_swap2_swap1_dup3_sub_swap2_dup3_gt_push2(m.with_pc(m.pc + 1))),
{
    let i = m.pc;
    let mc = with_code(m, c);
    assert(m.code[i + 0] == c[i + 0]);
    assert(m.code[i + 1] == c[i + 1]);
    assert(m.code[i + 2] == c[i + 2]);
    assert(m.code[i + 3] == c[i + 3]);
    assert(m.code[i + 4] == c[i + 4]);
    assert(m.code[i + 5] == c[i + 5]);
    assert(m.code[i + 6] == c[i + 6]);
    assert(m.code[i + 7] == c[i + 7]);
    assert(m.code[i + 8] == c[i + 8]);
    assert(m.code[i + 9] == c[i + 9]);
    assert(super_step(m) == Some(spec_swap2_swap1_dup3_sub_swap2_dup3_gt_push2(m.with_pc(i + 1)))) by {
        reveal(super_step);
    }
    assert(super_step(mc) == Some(spec_swap2_swap1_dup3_sub_swap2_dup3_gt_push2(mc.with_pc(i + 1)))) by {
        reveal(super_step);
    }
    assert(spec_swap2_swap1_dup3_sub_swap2_dup3_gt_push2(mc.with_pc(i + 1)) == with_code(spec_swap2_swap1_dup3_sub_swap2_dup3_gt_push2(m.with_pc(i + 1)), c));
}

pub(crate) proof fn window_of_swap1_dup2(m: MachineView, c: Seq<u8>)
    requires
        0 <= m.pc,
        m.pc + 1 < m.code.len(),
        agree_on(m.code, c, m.pc, m.pc + 1),
        m.code[m.pc] == op::SWAP1DUP2,
    ensures
        super_step(with_code(m, c)) == Some(with_code(spec_swap1_dup2(m.with_pc(m.pc + 1)), c)),
        super_step(m) == Some(spec_swap1_dup2(m.with_pc(m.pc + 1))),
{
    let i = m.pc;
    let mc = with_code(m, c);
    assert(m.code[i + 0] == c[i + 0]);
    assert(m.code[i + 1] == c[i + 1]);
    assert(super_step(m) == Some(spec_swap1_dup2(m.with_pc(i + 1)))) by {
        reveal(super_step);
    }
    assert(super_step(mc) == Some(spec_swap1_dup2(mc.with_pc(i + 1)))) by {
        reveal(super_step);
    }
    assert(spec_swap1_dup2(mc.with_pc(i + 1)) == with_code(spec_swap1_dup2(m.with_pc(i + 1)), c));
}

pub(crate) proof fn window_of_shr_shr_dup1_mul_dup1(m: MachineView, c: Seq<u8>)
    requires
        0 <= m.pc,
        m.pc + 4 < m.code.len(),
        agree_on(m.code, c, m.pc, m.pc + 4),
        m.code[m.pc] == op::SHRSHRDUP1MULDUP1,
    ensures
        super_step(with_code(m, c)) == Some(with_code(spec_shr_shr_dup1_mul_dup1(m.with_pc(m.pc + 1)), c)),
        super_step(m) == Some(spec_shr_shr_dup1_mul_dup1(m.with_pc(m.pc + 1))),
{
    let i = m.pc;
    let mc = with_code(m, c);
    assert(m.code[i + 0] == c[i + 0]);
    assert(m.code[i + 1] == c[i + 1]);
    assert(m.code[i + 2] == c[i + 2]);
    assert(m.code[i + 3] == c[i + 3]);
    assert(m.code[i + 4] == c[i + 4]);
    assert(super_step(m) == Some(spec_shr_shr_dup1_mul_dup1(m.with_pc(i + 1)))) by {
        reveal(super_step);
    }
    assert(super_step(mc) == Some(spec_shr_shr_dup1_mul_dup1(mc.with_pc(i + 1)))) by {
        reveal(super_step);
    }
    assert(spec_shr_shr_dup1_mul_dup1(mc.with_pc(i + 1)) == with_code(spec_shr_shr_dup1_mul_dup1(m.with_pc(i + 1)), c));
}

pub(crate) proof fn window_of_swap3_pop_pop_pop(m: MachineView, c: Seq<u8>)
    requires
        0 <= m.pc,
        m.pc + 3 < m.code.len(),
        agree_on(m.code, c, m.pc, m.pc + 3),
        m.code[m.pc] == op::SWAP3POPPOPPOP,
    ensures
        super_step(with_code(m, c)) == Some(with_code(spec_swap3_pop_pop_pop(m.with_pc(m.pc + 1)), c)),
        super_step(m) == Some(spec_swap3_pop_pop_pop(m.with_pc(m.pc + 1))),
{
    let i = m.pc;
    let mc = with_code(m, c);
    assert(m.code[i + 0] == c[i + 0]);
    assert(m.code[i + 1] == c[i + 1]);
    assert(m.code[i + 2] == c[i + 2]);
    assert(m.code[i + 3] == c[i + 3]);
    assert(super_step(m) == Some(spec_swap3_pop_pop_pop(m.with_pc(i + 1)))) by {
        reveal(super_step);
    }
    assert(super_step(mc) == Some(spec_swap3_pop_pop_pop(mc.with_pc(i + 1)))) by {
        reveal(super_step);
    }
    assert(spec_swap3_pop_pop_pop(mc.with_pc(i + 1)) == with_code(spec_swap3_pop_pop_pop(m.with_pc(i + 1)), c));
}

pub(crate) proof fn window_of_sub_slt_iszero_push2(m: MachineView, c: Seq<u8>)
    requires
        0 <= m.pc,
        m.pc + 5 < m.code.len(),
        agree_on(m.code, c, m.pc, m.pc + 5),
        m.code[m.pc] == op::SUBSLTISZEROPUSH2,
    ensures
        super_step(with_code(m, c)) == Some(with_code(spec_sub_slt_iszero_push2(m.with_pc(m.pc + 1)), c)),
        super_step(m) == Some(spec_sub_slt_iszero_push2(m.with_pc(m.pc + 1))),
{
    let i = m.pc;
    let mc = with_code(m, c);
    assert(m.code[i + 0] == c[i + 0]);
    assert(m.code[i + 1] == c[i + 1]);
    assert(m.code[i + 2] == c[i + 2]);
    assert(m.code[i + 3] == c[i + 3]);
    assert(m.code[i + 4] == c[i + 4]);
    assert(m.code[i + 5] == c[i + 5]);
    assert(super_step(m) == Some(spec_sub_slt_iszero_push2(m.with_pc(i + 1)))) by {
        reveal(super_step);
    }
    assert(super_step(mc) == Some(spec_sub_slt_iszero_push2(mc.with_pc(i + 1)))) by {
        reveal(super_step);
    }
    assert(spec_sub_slt_iszero_push2(mc.with_pc(i + 1)) == with_code(spec_sub_slt_iszero_push2(m.with_pc(i + 1)), c));
}

pub(crate) proof fn window_of_dup11_mul_dup3_sub_mul_dup1(m: MachineView, c: Seq<u8>)
    requires
        0 <= m.pc,
        m.pc + 5 < m.code.len(),
        agree_on(m.code, c, m.pc, m.pc + 5),
        m.code[m.pc] == op::DUP11MULDUP3SUBMULDUP1,
    ensures
        super_step(with_code(m, c)) == Some(with_code(spec_dup11_mul_dup3_sub_mul_dup1(m.with_pc(m.pc + 1)), c)),
        super_step(m) == Some(spec_dup11_mul_dup3_sub_mul_dup1(m.with_pc(m.pc + 1))),
{
    let i = m.pc;
    let mc = with_code(m, c);
    assert(m.code[i + 0] == c[i + 0]);
    assert(m.code[i + 1] == c[i + 1]);
    assert(m.code[i + 2] == c[i + 2]);
    assert(m.code[i + 3] == c[i + 3]);
    assert(m.code[i + 4] == c[i + 4]);
    assert(m.code[i + 5] == c[i + 5]);
    assert(super_step(m) == Some(spec_dup11_mul_dup3_sub_mul_dup1(m.with_pc(i + 1)))) by {
        reveal(super_step);
    }
    assert(super_step(mc) == Some(spec_dup11_mul_dup3_sub_mul_dup1(mc.with_pc(i + 1)))) by {
        reveal(super_step);
    }
    assert(spec_dup11_mul_dup3_sub_mul_dup1(mc.with_pc(i + 1)) == with_code(spec_dup11_mul_dup3_sub_mul_dup1(m.with_pc(i + 1)), c));
}

pub(crate) proof fn starts_push1_calldataload_push1_shr_dup1_push4_gt_push2(s: Seq<u8>, p: int, f: u8)
    requires
        rule_matches(s, p, rule_shape(0)),
    ensures
        rule_apply(s, p, rule_shape(0), f)[p] == op::PUSH1CALLDATALOADPUSH1SHRDUP1PUSH4GTPUSH2,
{
    let r = rule_shape(0);
    assert(r.checks[0] == (0usize, op::PUSH1));
    assert(r.checks[1] == (2usize, op::CALLDATALOAD));
    assert(r.checks[2] == (3usize, op::PUSH1));
    assert(r.checks[3] == (5usize, op::SHR));
    assert(r.checks[4] == (6usize, op::DUP1));
    assert(r.checks[5] == (7usize, op::PUSH4));
    assert(r.checks[6] == (12usize, op::GT));
    assert(r.checks[7] == (13usize, op::PUSH2));
    reveal_with_fuel(apply_checks, 9);
    lemma_apply_checks_len(s, p, r, f, 8);
}

pub(crate) proof fn starts_swap1_push1_dup1_not_swap2_add_and_dup2_add_swap1_dup2_lt(s: Seq<u8>, p: int, f: u8)
    requires
        rule_matches(s, p, rule_shape(1)),
    ensures
        rule_apply(s, p, rule_shape(1), f)[p] == op::SWAP1PUSH1DUP1NOTSWAP2ADDANDDUP2ADDSWAP1DUP2LT,
{
    let r = rule_shape(1);
    assert(r.checks[0] == (0usize, op::SWAP1));
    assert(r.checks[1] == (1usize, op::PUSH1));
    assert(r.checks[2] == (3usize, op::DUP1));
    assert(r.checks[3] == (4usize, op::NOT));
    assert(r.checks[4] == (5usize, op::SWAP2));
    assert(r.checks[5] == (6usize, op::ADD));
    assert(r.checks[6] == (7usize, op::AND));
    assert(r.checks[7] == (8usize, op::DUP2));
    assert(r.checks[8] == (9usize, op::ADD));
    assert(r.checks[9] == (10usize, op::SWAP1));
    assert(r.checks[10] == (11usize, op::DUP2));
    assert(r.checks[11] == (12usize, op::LT));
    reveal_with_fuel(apply_checks, 13);
    lemma_apply_checks_len(s, p, r, f, 12);
}

pub(crate) proof fn starts_dup1_push4_eq_push2(s: Seq<u8>, p: int, f: u8)
    requires
        rule_matches(s, p, rule_shape(2)),
    ensures
        rule_apply(s, p, rule_shape(2), f)[p] == op::DUP1PUSH4EQPUSH2,
{
    let r = rule_shape(2);
    assert(r.checks[0] == (0usize, op::DUP1));
    assert(r.checks[1] == (1usize, op::PUSH4));
    assert(r.checks[2] == (6usize, op::EQ));
    assert(r.checks[3] == (7usize, op::PUSH2));
    reveal_with_fuel(apply_checks, 5);
    lemma_apply_checks_len(s, p, r, f, 4);
}

pub(crate) proof fn starts_push1_push1_push1_shl_sub(s: Seq<u8>, p: int, f: u8)
    requires
        rule_matches(s, p, rule_shape(3)),
    ensures
        rule_apply(s, p, rule_shape(3), f)[p] == op::PUSH1PUSH1PUSH1SHLSUB,
{
    let r = rule_shape(3);
    assert(r.checks[0] == (0usize, op::PUSH1));
    assert(r.checks[1] == (2usize, op::PUSH1));
    assert(r.checks[2] == (4usize, op::PUSH1));
    assert(r.checks[3] == (6usize, op::SHL));
    assert(r.checks[4] == (7usize, op::SUB));
    reveal_with_fuel(apply_checks, 6);
    lemma_apply_checks_len(s, p, r, f, 5);
}

pub(crate) proof fn starts_and_dup2_add_swap1_dup2_lt(s: Seq<u8>, p: int, f: u8)
    requires
        rule_matches(s, p, rule_shape(4)),
    ensures
        rule_apply(s, p, rule_shape(4), f)[p] == op::ANDDUP2ADDSWAP1DUP2LT,
{
    let r = rule_shape(4);
    assert(r.checks[0] == (0usize, op::AND));
    assert(r.checks[1] == (1usize, op::DUP2));
    assert(r.checks[2] == (2usize, op::ADD));
    assert(r.checks[3] == (3usize, op::SWAP1));
    assert(r.checks[4] == (4usize, op::DUP2));
    assert(r.checks[5] == (5usize, op::LT));
    reveal_with_fuel(apply_checks, 7);
    lemma_apply_checks_len(s, p, r, f, 6);
}

pub(crate) proof fn starts_and_swap1_pop_swap2_swap1(s: Seq<u8>, p: int, f: u8)
    requires
        rule_matches(s, p, rule_shape(5)),
    ensures
        rule_apply(s, p, rule_shape(5), f)[p] == op::ANDSWAP1POPSWAP2SWAP1,
{
    let r = rule_shape(5);
    assert(r.checks[0] == (0usize, op::AND));
    assert(r.checks[1] == (1usize, op::SWAP1));
    assert(r.checks[2] == (2usize, op::POP));
    assert(r.checks[3] == (3usize, op::SWAP2));
    assert(r.checks[4] == (4usize, op::SWAP1));
    reveal_with_fuel(apply_checks, 6);
    lemma_apply_checks_len(s, p, r, f, 5);
}

pub(crate) proof fn starts_jump_if_zero(s: Seq<u8>, p: int, f: u8)
    requires
        rule_matches(s, p, rule_shape(6)),
    ensures
        rule_apply(s, p, rule_shape(6), f)[p] == op::JUMPIFZERO,
{
    let r = rule_shape(6);
    assert(r.checks[0] == (0usize, op::ISZERO));
    assert(r.checks[1] == (1usize, op::PUSH2));
    assert(r.checks[2] == (4usize, op::JUMPI));
    reveal_with_fuel(apply_checks, 4);
    lemma_apply_checks_len(s, p, r, f, 3);
}

pub(crate) proof fn starts_dup2_mstore_push1_add(s: Seq<u8>, p: int, f: u8)
    requires
        rule_matches(s, p, rule_shape(7)),
    ensures
        rule_apply(s, p, rule_shape(7), f)[p] == op::DUP2MSTOREPUSH1ADD,
{
    let r = rule_shape(7);
    assert(r.checks[0] == (0usize, op::DUP2));
    assert(r.checks[1] == (1usize, op::MSTORE));
    assert(r.checks[2] == (2usize, op::PUSH1));
    assert(r.checks[3] == (4usize, op::ADD));
    reveal_with_fuel(apply_checks, 5);
    lemma_apply_checks_len(s, p, r, f, 4);
}

pub(crate) proof fn starts_swap2_swap1_pop_jump(s: Seq<u8>, p: int, f: u8)
    requires
        rule_matches(s, p, rule_shape(8)),
    ensures
        rule_apply(s, p, rule_shape(8), f)[p] == op::SWAP2SWAP1POPJUMP,
{
    let r = rule_shape(8);
    assert(r.checks[0] == (0usize, op::SWAP2));
    assert(r.checks[1] == (1usize, op::SWAP1));
    assert(r.checks[2] == (2usize, op::POP));
    assert(r.checks[3] == (3usize, op::JUMP));
    reveal_with_fuel(apply_checks, 5);
    lemma_apply_checks_len(s, p, r, f, 4);
}

pub(crate) proof fn starts_swap1_pop_swap2_swap1(s: Seq<u8>, p: int, f: u8)
    requires
        rule_matches(s, p, rule_shape(9)),
    ensures
        rule_apply(s, p, rule_shape(9), f)[p] == op::SWAP1POPSWAP2SWAP1,
{
    let r = rule_shape(9);
    assert(r.checks[0] == (0usize, op::SWAP1));
    assert(r.checks[1] == (1usize, op::POP));
    assert(r.checks[2] == (2usize, op::SWAP2));
    assert(r.checks[3] == (3usize, op::SWAP1));
    reveal_with_fuel(apply_checks, 5);
    lemma_apply_checks_len(s, p, r, f, 4);
}

pub(crate) proof fn starts_pop_swap2_swap1_pop(s: Seq<u8>, p: int, f: u8)
    requires
        rule_matches(s, p, rule_shape(10)),
    ensures
        rule_apply(s, p, rule_shape(10), f)[p] == op::POPSWAP2SWAP1POP,
{
    let r = rule_shape(10);
    assert(r.checks[0] == (0usize, op::POP));
    assert(r.checks[1] == (1usize, op::SWAP2));
    assert(r.checks[2] == (2usize, op::SWAP1));
    assert(r.checks[3] == (3usize, op::POP));
    reveal_with_fuel(apply_checks, 5);
    lemma_apply_checks_len(s, p, r, f, 4);
}

pub(crate) proof fn starts_push2_jump(s: Seq<u8>, p: int, f: u8)
    requires
        rule_matches(s, p, rule_shape(11)),
    ensures
        rule_apply(s, p, rule_shape(11), f)[p] == op::PUSH2JUMP,
{
    let r = rule_shape(11);
    assert(r.checks[0] == (0usize, op::PUSH2));
    assert(r.checks[1] == (3usize, op::JUMP));
    reveal_with_fuel(apply_checks, 3);
    lemma_apply_checks_len(s, p, r, f, 2);
}

pub(crate) proof fn starts_push2_jumpi(s: Seq<u8>, p: int, f: u8)
    requires
        rule_matches(s, p, rule_shape(12)),
    ensures
        rule_apply(s, p, rule_shape(12), f)[p] == op::PUSH2JUMPI,
{
    let r = rule_shape(12);
    assert(r.checks[0] == (0usize, op::PUSH2));
    assert(r.checks[1] == (3usize, op::JUMPI));
    reveal_with_fuel(apply_checks, 3);
    lemma_apply_checks_len(s, p, r, f, 2);
}

pub(crate) proof fn starts_push1_push1(s: Seq<u8>, p: int, f: u8)
    requires
        rule_matches(s, p, rule_shape(13)),
    ensures
        rule_apply(s, p, rule_shape(13), f)[p] == op::PUSH1PUSH1,
{
    let r = rule_shape(13);
    assert(r.checks[0] == (0usize, op::PUSH1));
    assert(r.checks[1] == (2usize, op::PUSH1));
    reveal_with_fuel(apply_checks, 3);
    lemma_apply_checks_len(s, p, r, f, 2);
}

pub(crate) proof fn starts_iszero_push2(s: Seq<u8>, p: int, f: u8)
    requires
        rule_matches(s, p, rule_shape(14)),
    ensures
        rule_apply(s, p, rule_shape(14), f)[p] == op::ISZEROPUSH2,
{
    let r = rule_shape(14);
    assert(r.checks[0] == (0usize, op::ISZERO));
    assert(r.checks[1] == (1usize, op::PUSH2));
    reveal_with_fuel(apply_checks, 3);
    lemma_apply_checks_len(s, p, r, f, 2);
}

pub(crate) proof fn starts_push1_add(s: Seq<u8>, p: int, f: u8)
    requires
        rule_matches(s, p, rule_shape(15)),
    ensures
        rule_apply(s, p, rule_shape(15), f)[p] == op::PUSH1ADD,
{
    let r = rule_shape(15);
    assert(r.checks[0] == (0usize, op::PUSH1));
    assert(r.checks[1] == (2usize, op::ADD));
    reveal_with_fuel(apply_checks, 3);
    lemma_apply_checks_len(s, p, r, f, 2);
}

pub(crate) proof fn starts_push1_shl(s: Seq<u8>, p: int, f: u8)
    requires
        rule_matches(s, p, rule_shape(16)),
    ensures
        rule_apply(s, p, rule_shape(16), f)[p] == op::PUSH1SHL,
{
    let r = rule_shape(16);
    assert(r.checks[0] == (0usize, op::PUSH1));
    assert(r.checks[1] == (2usize, op::SHL));
    reveal_with_fuel(apply_checks, 3);
    lemma_apply_checks_len(s, p, r, f, 2);
}

pub(crate) proof fn starts_push1_dup1(s: Seq<u8>, p: int, f: u8)
    requires
        rule_matches(s, p, rule_shape(17)),
    ensures
        rule_apply(s, p, rule_shape(17), f)[p] == op::PUSH1DUP1,
{
    let r = rule_shape(17);
    assert(r.checks[0] == (0usize, op::PUSH1));
    assert(r.checks[1] == (2usize, op::DUP1));
    reveal_with_fuel(apply_checks, 3);
    lemma_apply_checks_len(s, p, r, f, 2);
}

pub(crate) proof fn starts_swap1_pop(s: Seq<u8>, p: int, f: u8)
    requires
        rule_matches(s, p, rule_shape(18)),
    ensures
        rule_apply(s, p, rule_shape(18), f)[p] == op::SWAP1POP,
{
    let r = rule_shape(18);
    assert(r.checks[0] == (0usize, op::SWAP1));
    assert(r.checks[1] == (1usize, op::POP));
    reveal_with_fuel(apply_checks, 3);
    lemma_apply_checks_len(s, p, r, f, 2);
}

pub(crate) proof fn starts_pop_jump(s: Seq<u8>, p: int, f: u8)
    requires
        rule_matches(s, p, rule_shape(19)),
    ensures
        rule_apply(s, p, rule_shape(19), f)[p] == op::POPJUMP,
{
    let r = rule_shape(19);
    assert(r.checks[0] == (0usize, op::POP));
    assert(r.checks[1] == (1usize, op::JUMP));
    reveal_with_fuel(apply_checks, 3);
    lemma_apply_checks_len(s, p, r, f, 2);
}

pub(crate) proof fn starts_pop2(s: Seq<u8>, p: int, f: u8)
    requires
        rule_matches(s, p, rule_shape(20)),
    ensures
        rule_apply(s, p, rule_shape(20), f)[p] == op::POP2,
{
    let r = rule_shape(20);
    assert(r.checks[0] == (0usize, op::POP));
    assert(r.checks[1] == (1usize, op::POP));
    reveal_with_fuel(apply_checks, 3);
    lemma_apply_checks_len(s, p, r, f, 2);
}

pub(crate) proof fn starts_swap2_swap1(s: Seq<u8>, p: int, f: u8)
    requires
        rule_matches(s, p, rule_shape(21)),
    ensures
        rule_apply(s, p, rule_shape(21), f)[p] == op::SWAP2SWAP1,
{
    let r = rule_shape(21);
    assert(r.checks[0] == (0usize, op::SWAP2));
    assert(r.checks[1] == (1usize, op::SWAP1));
    reveal_with_fuel(apply_checks, 3);
    lemma_apply_checks_len(s, p, r, f, 2);
}

pub(crate) proof fn starts_swap2_pop(s: Seq<u8>, p: int, f: u8)
    requires
        rule_matches(s, p, rule_shape(22)),
    ensures
        rule_apply(s, p, rule_shape(22), f)[p] == op::SWAP2POP,
{
    let r = rule_shape(22);
    assert(r.checks[0] == (0usize, op::SWAP2));
    assert(r.checks[1] == (1usize, op::POP));
    reveal_with_fuel(apply_checks, 3);
    lemma_apply_checks_len(s, p, r, f, 2);
}

pub(crate) proof fn starts_dup2_lt(s: Seq<u8>, p: int, f: u8)
    requires
        rule_matches(s, p, rule_shape(23)),
    ensures
        rule_apply(s, p, rule_shape(23), f)[p] == op::DUP2LT,
{
    let r = rule_shape(23);
    assert(r.checks[0] == (0usize, op::DUP2));
    assert(r.checks[1] == (1usize, op::LT));
    reveal_with_fuel(apply_checks, 3);
    lemma_apply_checks_len(s, p, r, f, 2);
}

pub(crate) proof fn starts_dup3_and(s: Seq<u8>, p: int, f: u8)
    requires
        rule_matches(s, p, rule_shape(24)),
    ensures
        rule_apply(s, p, rule_shape(24), f)[p] == op::DUP3AND,
{
    let r = rule_shape(24);
    assert(r.checks[0] == (0usize, op::DUP3));
    assert(r.checks[1] == (1usize, op::AND));
    reveal_with_fuel(apply_checks, 3);
    lemma_apply_checks_len(s, p, r, f, 2);
}

pub(crate) proof fn starts_swap2_swap1_dup3_sub_swap2_dup3_gt_push2(s: Seq<u8>, p: int, f: u8)
    requires
        rule_matches(s, p, rule_shape(25)),
    ensures
        rule_apply(s, p, rule_shape(25), f)[p] == op::SWAP2SWAP1DUP3SUBSWAP2DUP3GTPUSH2,
{
    let r = rule_shape(25);
    assert(r.checks[0] == (0usize, op::SWAP2));
    assert(r.checks[1] == (1usize, op::SWAP1));
    assert(r.checks[2] == (2usize, op::DUP3));
    assert(r.checks[3] == (3usize, op::SUB));
    assert(r.checks[4] == (4usize, op::SWAP2));
    assert(r.checks[5] == (5usize, op::DUP3));
    assert(r.checks[6] == (6usize, op::GT));
    assert(r.checks[7] == (7usize, op::PUSH2));
    reveal_with_fuel(apply_checks, 9);
    lemma_apply_checks_len(s, p, r, f, 8);
}

pub(crate) proof fn starts_swap1_dup2(s: Seq<u8>, p: int, f: u8)
    requires
        rule_matches(s, p, rule_shape(26)),
    ensures
        rule_apply(s, p, rule_shape(26), f)[p] == op::SWAP1DUP2,
{
    let r = rule_shape(26);
    assert(r.checks[0] == (0usize, op::SWAP1));
    assert(r.checks[1] == (1usize, op::DUP2));
    reveal_with_fuel(apply_checks, 3);
    lemma_apply_checks_len(s, p, r, f, 2);
}

pub(crate) proof fn starts_shr_shr_dup1_mul_dup1(s: Seq<u8>, p: int, f: u8)
    requires
        rule_matches(s, p, rule_shape(27)),
    ensures
        rule_apply(s, p, rule_shape(27), f)[p] == op::SHRSHRDUP1MULDUP1,
{
    let r = rule_shape(27);
    assert(r.checks[0] == (0usize, op::SHR));
    assert(r.checks[1] == (1usize, op::SHR));
    assert(r.checks[2] == (2usize, op::DUP1));
    assert(r.checks[3] == (3usize, op::MUL));
    assert(r.checks[4] == (4usize, op::DUP1));
    reveal_with_fuel(apply_checks, 6);
    lemma_apply_checks_len(s, p, r, f, 5);
}

pub(crate) proof fn starts_swap3_pop_pop_pop(s: Seq<u8>, p: int, f: u8)
    requires
        rule_matches(s, p, rule_shape(28)),
    ensures
        rule_apply(s, p, rule_shape(28), f)[p] == op::SWAP3POPPOPPOP,
{
    let r = rule_shape(28);
    assert(r.checks[0] == (0usize, op::SWAP3));
    assert(r.checks[1] == (1usize, op::POP));
    assert(r.checks[2] == (2usize, op::POP));
    assert(r.checks[3] == (3usize, op::POP));
    reveal_with_fuel(apply_checks, 5);
    lemma_apply_checks_len(s, p, r, f, 4);
}

pub(crate) proof fn starts_sub_slt_iszero_push2(s: Seq<u8>, p: int, f: u8)
    requires
        rule_matches(s, p, rule_shape(29)),
    ensures
        rule_apply(s, p, rule_shape(29), f)[p] == op::SUBSLTISZEROPUSH2,
{
    let r = rule_shape(29);
    assert(r.checks[0] == (0usize, op::SUB));
    assert(r.checks[1] == (1usize, op::SLT));
    assert(r.checks[2] == (2usize, op::ISZERO));
    assert(r.checks[3] == (3usize, op::PUSH2));
    reveal_with_fuel(apply_checks, 5);
    lemma_apply_checks_len(s, p, r, f, 4);
}

pub(crate) proof fn starts_dup11_mul_dup3_sub_mul_dup1(s: Seq<u8>, p: int, f: u8)
    requires
        rule_matches(s, p, rule_shape(30)),
    ensures
        rule_apply(s, p, rule_shape(30), f)[p] == op::DUP11MULDUP3SUBMULDUP1,
{
    let r = rule_shape(30);
    assert(r.checks[0] == (0usize, op::DUP11));
    assert(r.checks[1] == (1usize, op::MUL));
    assert(r.checks[2] == (2usize, op::DUP3));
    assert(r.checks[3] == (3usize, op::SUB));
    assert(r.checks[4] == (4usize, op::MUL));
    assert(r.checks[5] == (5usize, op::DUP1));
    reveal_with_fuel(apply_checks, 7);
    lemma_apply_checks_len(s, p, r, f, 6);
}

} // verus!
