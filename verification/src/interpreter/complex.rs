//! Super-instructions: each executes, in one step, a run of plain
//! instructions that the fusion passes replaced by one opcode.
//!
//! The contract of each names the run it replaces: when gas and stack
//! suffice, the resulting stack is that of the plain instructions applied
//! one after the other, and the program counter moves past the bytes of the
//! run that follow the super-instruction.  On failure the state is the one
//! the super-instruction leaves: gas is charged first, then operands are
//! taken from the stack in the order the instruction takes them.

use vstd::prelude::*;
use crate::interpreter::machine::{
    BASE, HIGH, Interpreter, InstructionResult, LOW, MID, MachineView, STACK_LIMIT, VERYLOW, as_usize,
    calldata_bytes, expand_memory, machine_wf, memory_expansion_fails, nth, op_add, op_and, op_calldataload,
    op_dup, op_eq, op_gt, op_iszero, op_lt, op_mul, op_not, op_pop, op_push, op_shl, op_shr, op_slt, op_sub,
    op_swap, store_word,
};
use crate::interpreter::word::{
    Word, lemma_shr_large, w_shr, word_add, word_and, word_bool, word_from, word_from_be_bytes,
    word_lt, word_mul, word_not, word_shl, word_shr, word_slt, word_sub,
};

verus! {

fn pop_word(stack: &mut Vec<Word>) -> (w: Word)
    requires
        old(stack).len() > 0,
    ensures
        w == old(stack)@.last(),
        final(stack)@ == old(stack)@.drop_last(),
{
    stack.pop().unwrap()
}

/// Charges `cost`; on success the state with the gas taken.
pub open spec fn charged(m: MachineView, cost: int) -> MachineView {
    MachineView { gas: m.gas - cost, ..m }
}

/// The stack without its top `n` words.
pub open spec fn dropped(s: Seq<Word>, n: int) -> Seq<Word> {
    s.subrange(0, s.len() - n)
}

// ---------------------------------------------------------------------------
// AND SWAP1 POP SWAP2 SWAP1
// ---------------------------------------------------------------------------

pub open spec fn spec_and_swap1_pop_swap2_swap1(m: MachineView) -> MachineView {
    let cost = 4 * VERYLOW + BASE;
    if m.gas < cost {
        m.halt(InstructionResult::OutOfGas)
    } else {
        let g = charged(m, cost);
        if g.stack.len() < 2 {
            g.halt(InstructionResult::StackUnderflow)
        } else if g.stack.len() < 5 {
            g.with_stack(dropped(g.stack, 2)).halt(InstructionResult::StackUnderflow)
        } else {
            g.with_stack(op_swap(op_swap(op_pop(op_swap(op_and(g.stack), 1)), 2), 1)).with_pc(g.pc + 4)
        }
    }
}

/// `AND SWAP1 POP SWAP2 SWAP1`.
pub fn and_swap1_pop_swap2_swap1(interp: &mut Interpreter)
    requires
        machine_wf(old(interp)@),
    ensures
        final(interp)@ == spec_and_swap1_pop_swap2_swap1(old(interp)@),
{
    if !interp.record_cost(4 * VERYLOW + BASE) {
        interp.halt(InstructionResult::OutOfGas);
        return;
    }
    let ghost s = interp.stack@;
    if interp.stack.len() < 2 {
        interp.halt(InstructionResult::StackUnderflow);
        return;
    }
    let a = pop_word(&mut interp.stack);
    let b = pop_word(&mut interp.stack);
    let r = word_and(a, b);
    let n = interp.stack.len();
    if n < 3 {
        assert(interp.stack@ =~= dropped(s, 2));
        interp.halt(InstructionResult::StackUnderflow);
        return;
    }
    let c = interp.stack[n - 3];
    let d = interp.stack[n - 2];
    interp.stack.set(n - 1, d);
    interp.stack.set(n - 2, c);
    interp.stack.set(n - 3, r);
    interp.pc = interp.pc + 4;
    assert(interp.stack@ =~= op_swap(op_swap(op_pop(op_swap(op_and(s), 1)), 2), 1));
}


// ---------------------------------------------------------------------------
// SWAP2 SWAP1 POP JUMP
// ---------------------------------------------------------------------------

pub open spec fn spec_swap2_swap1_pop_jump(m: MachineView) -> MachineView {
    let cost = 2 * VERYLOW + BASE + MID;
    if m.gas < cost {
        m.halt(InstructionResult::OutOfGas)
    } else {
        let g = charged(m, cost);
        if g.stack.len() < 2 {
            g.halt(InstructionResult::StackUnderflow)
        } else if g.stack.len() < 3 {
            g.with_stack(dropped(g.stack, 2)).halt(InstructionResult::StackUnderflow)
        } else {
            let s1 = op_pop(op_swap(op_swap(g.stack, 2), 1));
            g.with_stack(op_pop(s1)).jump_to(nth(s1, 0))
        }
    }
}

/// `SWAP2 SWAP1 POP JUMP`.
pub fn swap2_swap1_pop_jump(interp: &mut Interpreter)
    requires
        machine_wf(old(interp)@),
    ensures
        final(interp)@ == spec_swap2_swap1_pop_jump(old(interp)@),
{
    if !interp.record_cost(2 * VERYLOW + BASE + MID) {
        interp.halt(InstructionResult::OutOfGas);
        return;
    }
    let ghost s = interp.stack@;
    if interp.stack.len() < 2 {
        interp.halt(InstructionResult::StackUnderflow);
        return;
    }
    let a = pop_word(&mut interp.stack);
    let _tmp = pop_word(&mut interp.stack);
    let n = interp.stack.len();
    if n < 1 {
        assert(interp.stack@ =~= dropped(s, 2));
        interp.halt(InstructionResult::StackUnderflow);
        return;
    }
    let dest = interp.stack[n - 1];
    interp.stack.set(n - 1, a);
    assert(interp.stack@ =~= op_pop(op_pop(op_swap(op_swap(s, 2), 1))));
    assert(dest == nth(op_pop(op_swap(op_swap(s, 2), 1)), 0));
    interp.jump_to(dest);
}

// ---------------------------------------------------------------------------
// SWAP1 POP SWAP2 SWAP1
// ---------------------------------------------------------------------------

pub open spec fn spec_swap1_pop_swap2_swap1(m: MachineView) -> MachineView {
    let cost = 3 * VERYLOW + BASE;
    if m.gas < cost {
        m.halt(InstructionResult::OutOfGas)
    } else {
        let g = charged(m, cost);
        if g.stack.len() < 1 {
            g.halt(InstructionResult::StackUnderflow)
        } else if g.stack.len() < 4 {
            g.with_stack(dropped(g.stack, 1)).halt(InstructionResult::StackUnderflow)
        } else {
            g.with_stack(op_swap(op_swap(op_pop(op_swap(g.stack, 1)), 2), 1)).with_pc(g.pc + 3)
        }
    }
}

/// `SWAP1 POP SWAP2 SWAP1`.
pub fn swap1_pop_swap2_swap1(interp: &mut Interpreter)
    requires
        machine_wf(old(interp)@),
    ensures
        final(interp)@ == spec_swap1_pop_swap2_swap1(old(interp)@),
{
    if !interp.record_cost(3 * VERYLOW + BASE) {
        interp.halt(InstructionResult::OutOfGas);
        return;
    }
    let ghost s = interp.stack@;
    if interp.stack.len() < 1 {
        interp.halt(InstructionResult::StackUnderflow);
        return;
    }
    let a = pop_word(&mut interp.stack);
    let n = interp.stack.len();
    if n < 3 {
        assert(interp.stack@ =~= dropped(s, 1));
        interp.halt(InstructionResult::StackUnderflow);
        return;
    }
    let b = interp.stack[n - 3];
    let c = interp.stack[n - 2];
    interp.stack.set(n - 1, c);
    interp.stack.set(n - 2, b);
    interp.stack.set(n - 3, a);
    interp.pc = interp.pc + 3;
    assert(interp.stack@ =~= op_swap(op_swap(op_pop(op_swap(s, 1)), 2), 1));
}

// ---------------------------------------------------------------------------
// POP SWAP2 SWAP1 POP
// ---------------------------------------------------------------------------

pub open spec fn spec_pop_swap2_swap1_pop(m: MachineView) -> MachineView {
    let cost = 2 * BASE + 2 * VERYLOW;
    if m.gas < cost {
        m.halt(InstructionResult::OutOfGas)
    } else {
        let g = charged(m, cost);
        if g.stack.len() < 2 {
            g.halt(InstructionResult::StackUnderflow)
        } else if g.stack.len() < 4 {
            g.with_stack(dropped(g.stack, 2)).halt(InstructionResult::StackUnderflow)
        } else {
            g.with_stack(op_pop(op_swap(op_swap(op_pop(g.stack), 2), 1))).with_pc(g.pc + 3)
        }
    }
}

/// `POP SWAP2 SWAP1 POP`.
pub fn pop_swap2_swap1_pop(interp: &mut Interpreter)
    requires
        machine_wf(old(interp)@),
    ensures
        final(interp)@ == spec_pop_swap2_swap1_pop(old(interp)@),
{
    if !interp.record_cost(2 * BASE + 2 * VERYLOW) {
        interp.halt(InstructionResult::OutOfGas);
        return;
    }
    let ghost s = interp.stack@;
    if interp.stack.len() < 2 {
        interp.halt(InstructionResult::StackUnderflow);
        return;
    }
    let _discard = pop_word(&mut interp.stack);
    let b = pop_word(&mut interp.stack);
    let n = interp.stack.len();
    if n < 2 {
        assert(interp.stack@ =~= dropped(s, 2));
        interp.halt(InstructionResult::StackUnderflow);
        return;
    }
    let d = interp.stack[n - 2];
    interp.stack.set(n - 1, d);
    interp.stack.set(n - 2, b);
    interp.pc = interp.pc + 3;
    assert(interp.stack@ =~= op_pop(op_swap(op_swap(op_pop(s), 2), 1)));
}

// ---------------------------------------------------------------------------
// PUSH1 <imm> SHL
// ---------------------------------------------------------------------------

pub open spec fn spec_push1_shl(m: MachineView) -> MachineView {
    let cost = 2 * VERYLOW;
    if m.gas < cost {
        m.halt(InstructionResult::OutOfGas)
    } else {
        let g = charged(m, cost);
        if g.stack.len() < 1 {
            g.halt(InstructionResult::StackUnderflow)
        } else {
            g.with_stack(op_shl(op_push(g.stack, word_from(g.code_byte(g.pc) as u64)))).with_pc(g.pc + 2)
        }
    }
}

/// `PUSH1 <imm> SHL`; the immediate is the byte at the program counter.
pub fn push1_shl(interp: &mut Interpreter)
    requires
        machine_wf(old(interp)@),
    ensures
        final(interp)@ == spec_push1_shl(old(interp)@),
{
    if !interp.record_cost(2 * VERYLOW) {
        interp.halt(InstructionResult::OutOfGas);
        return;
    }
    let shift = interp.code_byte(interp.pc);
    let n = interp.stack.len();
    if n < 1 {
        interp.halt(InstructionResult::StackUnderflow);
        return;
    }
    let ghost s = interp.stack@;
    let v = interp.stack[n - 1];
    interp.stack.set(n - 1, word_shl(v, shift as usize));
    interp.pc = interp.pc + 2;
    assert(interp.stack@ =~= op_shl(op_push(s, word_from(shift as u64))));
}

// ---------------------------------------------------------------------------
// SWAP1 POP
// ---------------------------------------------------------------------------

pub open spec fn spec_swap1_pop(m: MachineView) -> MachineView {
    let cost = VERYLOW + BASE;
    if m.gas < cost {
        m.halt(InstructionResult::OutOfGas)
    } else {
        let g = charged(m, cost);
        if g.stack.len() < 1 {
            g.halt(InstructionResult::StackUnderflow)
        } else if g.stack.len() < 2 {
            g.with_stack(dropped(g.stack, 1)).halt(InstructionResult::StackUnderflow)
        } else {
            g.with_stack(op_pop(op_swap(g.stack, 1))).with_pc(g.pc + 1)
        }
    }
}

/// `SWAP1 POP`.
pub fn swap1_pop(interp: &mut Interpreter)
    requires
        machine_wf(old(interp)@),
    ensures
        final(interp)@ == spec_swap1_pop(old(interp)@),
{
    if !interp.record_cost(VERYLOW + BASE) {
        interp.halt(InstructionResult::OutOfGas);
        return;
    }
    let ghost s = interp.stack@;
    if interp.stack.len() < 1 {
        interp.halt(InstructionResult::StackUnderflow);
        return;
    }
    let a = pop_word(&mut interp.stack);
    let n = interp.stack.len();
    if n < 1 {
        assert(interp.stack@ =~= dropped(s, 1));
        interp.halt(InstructionResult::StackUnderflow);
        return;
    }
    interp.stack.set(n - 1, a);
    interp.pc = interp.pc + 1;
    assert(interp.stack@ =~= op_pop(op_swap(s, 1)));
}

// ---------------------------------------------------------------------------
// POP JUMP
// ---------------------------------------------------------------------------

pub open spec fn spec_pop_jump(m: MachineView) -> MachineView {
    let cost = BASE + MID;
    if m.gas < cost {
        m.halt(InstructionResult::OutOfGas)
    } else {
        let g = charged(m, cost);
        if g.stack.len() < 2 {
            g.halt(InstructionResult::StackUnderflow)
        } else {
            let s1 = op_pop(g.stack);
            g.with_stack(op_pop(s1)).jump_to(nth(s1, 0))
        }
    }
}

/// `POP JUMP`.
pub fn pop_jump(interp: &mut Interpreter)
    requires
        machine_wf(old(interp)@),
    ensures
        final(interp)@ == spec_pop_jump(old(interp)@),
{
    if !interp.record_cost(BASE + MID) {
        interp.halt(InstructionResult::OutOfGas);
        return;
    }
    let ghost s = interp.stack@;
    if interp.stack.len() < 2 {
        interp.halt(InstructionResult::StackUnderflow);
        return;
    }
    let _discard = pop_word(&mut interp.stack);
    let dest = pop_word(&mut interp.stack);
    interp.jump_to(dest);
}

// ---------------------------------------------------------------------------
// POP POP
// ---------------------------------------------------------------------------

pub open spec fn spec_pop2(m: MachineView) -> MachineView {
    let cost = 2 * BASE;
    if m.gas < cost {
        m.halt(InstructionResult::OutOfGas)
    } else {
        let g = charged(m, cost);
        if g.stack.len() < 2 {
            g.halt(InstructionResult::StackUnderflow)
        } else {
            g.with_stack(op_pop(op_pop(g.stack))).with_pc(g.pc + 1)
        }
    }
}

/// `POP POP`.
pub fn pop2(interp: &mut Interpreter)
    requires
        machine_wf(old(interp)@),
    ensures
        final(interp)@ == spec_pop2(old(interp)@),
{
    if !interp.record_cost(2 * BASE) {
        interp.halt(InstructionResult::OutOfGas);
        return;
    }
    if interp.stack.len() < 2 {
        interp.halt(InstructionResult::StackUnderflow);
        return;
    }
    let _a = pop_word(&mut interp.stack);
    let _b = pop_word(&mut interp.stack);
    interp.pc = interp.pc + 1;
}

// ---------------------------------------------------------------------------
// SWAP2 SWAP1
// ---------------------------------------------------------------------------

pub open spec fn spec_swap2_swap1(m: MachineView) -> MachineView {
    let cost = 2 * VERYLOW;
    if m.gas < cost {
        m.halt(InstructionResult::OutOfGas)
    } else {
        let g = charged(m, cost);
        if g.stack.len() < 3 {
            g.halt(InstructionResult::StackUnderflow)
        } else {
            g.with_stack(op_swap(op_swap(g.stack, 2), 1)).with_pc(g.pc + 1)
        }
    }
}

/// `SWAP2 SWAP1`.
pub fn swap2_swap1(interp: &mut Interpreter)
    requires
        machine_wf(old(interp)@),
    ensures
        final(interp)@ == spec_swap2_swap1(old(interp)@),
{
    if !interp.record_cost(2 * VERYLOW) {
        interp.halt(InstructionResult::OutOfGas);
        return;
    }
    let n = interp.stack.len();
    if n < 3 {
        interp.halt(InstructionResult::StackUnderflow);
        return;
    }
    let ghost s = interp.stack@;
    let c = interp.stack[n - 3];
    let b = interp.stack[n - 2];
    let a = interp.stack[n - 1];
    interp.stack.set(n - 1, b);
    interp.stack.set(n - 2, c);
    interp.stack.set(n - 3, a);
    interp.pc = interp.pc + 1;
    assert(interp.stack@ =~= op_swap(op_swap(s, 2), 1));
}

// ---------------------------------------------------------------------------
// SWAP2 POP
// ---------------------------------------------------------------------------

pub open spec fn spec_swap2_pop(m: MachineView) -> MachineView {
    let cost = VERYLOW + BASE;
    if m.gas < cost {
        m.halt(InstructionResult::OutOfGas)
    } else {
        let g = charged(m, cost);
        if g.stack.len() < 3 {
            g.halt(InstructionResult::StackUnderflow)
        } else {
            g.with_stack(op_pop(op_swap(g.stack, 2))).with_pc(g.pc + 1)
        }
    }
}

/// `SWAP2 POP`.
pub fn swap2_pop(interp: &mut Interpreter)
    requires
        machine_wf(old(interp)@),
    ensures
        final(interp)@ == spec_swap2_pop(old(interp)@),
{
    if !interp.record_cost(VERYLOW + BASE) {
        interp.halt(InstructionResult::OutOfGas);
        return;
    }
    let n = interp.stack.len();
    if n < 3 {
        interp.halt(InstructionResult::StackUnderflow);
        return;
    }
    let ghost s = interp.stack@;
    let a = interp.stack[n - 1];
    interp.stack.set(n - 3, a);
    let _x = pop_word(&mut interp.stack);
    interp.pc = interp.pc + 1;
    assert(interp.stack@ =~= op_pop(op_swap(s, 2)));
}

// ---------------------------------------------------------------------------
// ISZERO PUSH2 <dest> JUMPI
// ---------------------------------------------------------------------------

pub open spec fn spec_jump_if_zero(m: MachineView) -> MachineView {
    let cost = 2 * VERYLOW + HIGH;
    if m.gas < cost {
        m.halt(InstructionResult::OutOfGas)
    } else {
        let g = charged(m, cost);
        if g.stack.len() < 1 {
            g.halt(InstructionResult::StackUnderflow)
        } else {
            let dest = word_from(g.code_u16(g.pc + 1) as u64);
            let s1 = op_push(op_iszero(g.stack), dest);
            let rest = g.with_stack(op_pop(op_pop(s1)));
            if nth(s1, 1).value() != 0 {
                rest.jump_to(dest)
            } else {
                rest.with_pc(g.pc + 4)
            }
        }
    }
}

/// `ISZERO PUSH2 <dest> JUMPI`; the destination is in the two bytes after
/// the one at the program counter.
pub fn jump_if_zero(interp: &mut Interpreter)
    requires
        machine_wf(old(interp)@),
    ensures
        final(interp)@ == spec_jump_if_zero(old(interp)@),
{
    if !interp.record_cost(2 * VERYLOW + HIGH) {
        interp.halt(InstructionResult::OutOfGas);
        return;
    }
    if interp.stack.len() < 1 {
        interp.halt(InstructionResult::StackUnderflow);
        return;
    }
    let ghost s = interp.stack@;
    let value = pop_word(&mut interp.stack);
    let ghost dw = word_from(interp@.code_u16(interp.pc + 1) as u64);
    assert(interp.stack@ =~= op_pop(op_pop(op_push(op_iszero(s), dw))));
    if value.is_zero() {
        let dest = interp.code_u16(interp.pc + 1);
        assert(word_from(dest as u64).value() == dest as int);
        if !interp.is_valid_jump(dest as usize) {
            interp.halt(InstructionResult::InvalidJump);
            return;
        }
        interp.pc = dest as usize;
    } else {
        interp.pc = interp.pc + 4;
    }
}

// ---------------------------------------------------------------------------
// SNOP
// ---------------------------------------------------------------------------

/// The filler between the bytes of a fused run: does nothing at all.
pub fn snop(interp: &mut Interpreter)
    ensures
        final(interp)@ == old(interp)@,
{
}

// ---------------------------------------------------------------------------
// DUP3 AND
// ---------------------------------------------------------------------------

pub open spec fn spec_dup3_and(m: MachineView) -> MachineView {
    let cost = VERYLOW as int;
    if m.gas < cost {
        m.halt(InstructionResult::OutOfGas)
    } else {
        let g = charged(m, cost);
        if g.stack.len() < 3 {
            g.halt(InstructionResult::StackUnderflow)
        } else {
            g.with_stack(op_and(op_dup(g.stack, 3))).with_pc(g.pc + 1)
        }
    }
}

/// `DUP3 AND`.
pub fn dup3_and(interp: &mut Interpreter)
    requires
        machine_wf(old(interp)@),
    ensures
        final(interp)@ == spec_dup3_and(old(interp)@),
{
    if !interp.record_cost(VERYLOW) {
        interp.halt(InstructionResult::OutOfGas);
        return;
    }
    let n = interp.stack.len();
    if n < 3 {
        interp.halt(InstructionResult::StackUnderflow);
        return;
    }
    let ghost s = interp.stack@;
    let x = interp.stack[n - 3];
    let y = interp.stack[n - 1];
    interp.stack.set(n - 1, word_and(x, y));
    interp.pc = interp.pc + 1;
    assert(interp.stack@ =~= op_and(op_dup(s, 3)));
}

// ---------------------------------------------------------------------------
// SWAP1 DUP2
// ---------------------------------------------------------------------------

pub open spec fn spec_swap1_dup2(m: MachineView) -> MachineView {
    let cost = 2 * VERYLOW;
    if m.gas < cost {
        m.halt(InstructionResult::OutOfGas)
    } else {
        let g = charged(m, cost);
        if g.stack.len() < 2 {
            g.halt(InstructionResult::StackUnderflow)
        } else if g.stack.len() + 1 > STACK_LIMIT {
            g.with_stack(op_swap(g.stack, 1)).halt(InstructionResult::StackUnderflow)
        } else {
            g.with_stack(op_dup(op_swap(g.stack, 1), 2)).with_pc(g.pc + 1)
        }
    }
}

/// `SWAP1 DUP2`.  When the stack has no room for the copy, the swap has
/// happened and the instruction halts with `StackUnderflow`, the error that
/// this interpreter reports for any failed `DUP`.
pub fn swap1_dup2(interp: &mut Interpreter)
    requires
        machine_wf(old(interp)@),
    ensures
        final(interp)@ == spec_swap1_dup2(old(interp)@),
{
    if !interp.record_cost(2 * VERYLOW) {
        interp.halt(InstructionResult::OutOfGas);
        return;
    }
    let n = interp.stack.len();
    if n < 2 {
        interp.halt(InstructionResult::StackUnderflow);
        return;
    }
    let ghost s = interp.stack@;
    let b = interp.stack[n - 2];
    let a = interp.stack[n - 1];
    interp.stack.set(n - 1, b);
    interp.stack.set(n - 2, a);
    assert(interp.stack@ =~= op_swap(s, 1));
    if n + 1 > STACK_LIMIT {
        interp.halt(InstructionResult::StackUnderflow);
        return;
    }
    let v = interp.stack[n - 2];
    interp.stack.push(v);
    interp.pc = interp.pc + 1;
    assert(interp.stack@ =~= op_dup(op_swap(s, 1), 2));
}

// ---------------------------------------------------------------------------
// SWAP3 POP POP POP
// ---------------------------------------------------------------------------

pub open spec fn spec_swap3_pop_pop_pop(m: MachineView) -> MachineView {
    let cost = VERYLOW + 3 * BASE;
    if m.gas < cost {
        m.halt(InstructionResult::OutOfGas)
    } else {
        let g = charged(m, cost);
        if g.stack.len() < 4 {
            g.halt(InstructionResult::StackUnderflow)
        } else {
            g.with_stack(op_pop(op_pop(op_pop(op_swap(g.stack, 3))))).with_pc(g.pc + 3)
        }
    }
}

/// `SWAP3 POP POP POP`.
pub fn swap3_pop_pop_pop(interp: &mut Interpreter)
    requires
        machine_wf(old(interp)@),
    ensures
        final(interp)@ == spec_swap3_pop_pop_pop(old(interp)@),
{
    if !interp.record_cost(VERYLOW + 3 * BASE) {
        interp.halt(InstructionResult::OutOfGas);
        return;
    }
    let n = interp.stack.len();
    if n < 4 {
        interp.halt(InstructionResult::StackUnderflow);
        return;
    }
    let ghost s = interp.stack@;
    let top = interp.stack[n - 1];
    let fourth = interp.stack[n - 4];
    interp.stack.set(n - 1, fourth);
    interp.stack.set(n - 4, top);
    let _v1 = pop_word(&mut interp.stack);
    let _v2 = pop_word(&mut interp.stack);
    let _v3 = pop_word(&mut interp.stack);
    interp.pc = interp.pc + 3;
    assert(interp.stack@ =~= op_pop(op_pop(op_pop(op_swap(s, 3)))));
}

// ---------------------------------------------------------------------------
// DUP11 MUL DUP3 SUB MUL DUP1
// ---------------------------------------------------------------------------

pub open spec fn spec_dup11_mul_dup3_sub_mul_dup1(m: MachineView) -> MachineView {
    let cost = 4 * VERYLOW + 2 * LOW;
    if m.gas < cost {
        m.halt(InstructionResult::OutOfGas)
    } else {
        let g = charged(m, cost);
        if g.stack.len() < 11 {
            g.halt(InstructionResult::StackUnderflow)
        } else {
            g.with_stack(op_dup(op_mul(op_sub(op_dup(op_mul(op_dup(g.stack, 11)), 3))), 1)).with_pc(g.pc + 5)
        }
    }
}

/// `DUP11 MUL DUP3 SUB MUL DUP1`.
pub fn dup11_mul_dup3_sub_mul_dup1(interp: &mut Interpreter)
    requires
        machine_wf(old(interp)@),
    ensures
        final(interp)@ == spec_dup11_mul_dup3_sub_mul_dup1(old(interp)@),
{
    if !interp.record_cost(4 * VERYLOW + 2 * LOW) {
        interp.halt(InstructionResult::OutOfGas);
        return;
    }
    let len = interp.stack.len();
    if len < 11 {
        interp.halt(InstructionResult::StackUnderflow);
        return;
    }
    let ghost s = interp.stack@;
    let x11 = interp.stack[len - 11];
    let top = pop_word(&mut interp.stack);
    let mul_result = word_mul(x11, top);
    let len2 = interp.stack.len();
    let dup3_value = interp.stack[len2 - 2];
    let sub_result = word_sub(dup3_value, mul_result);
    let z = interp.stack[len2 - 1];
    interp.stack.set(len2 - 1, word_mul(sub_result, z));
    if len2 + 1 > STACK_LIMIT {
        interp.halt(InstructionResult::StackOverflow);
        return;
    }
    let r = interp.stack[len2 - 1];
    interp.stack.push(r);
    interp.pc = interp.pc + 5;
    assert(interp.stack@ =~= op_dup(op_mul(op_sub(op_dup(op_mul(op_dup(s, 11)), 3))), 1));
}


fn bool_word(b: bool) -> (w: Word)
    ensures
        w == word_bool(b),
{
    if b {
        Word::from_u64(1)
    } else {
        Word::from_u64(0)
    }
}

/// Structural equality of words.
fn word_eq(a: Word, b: Word) -> (r: bool)
    ensures
        r == (a == b),
{
    a.l0 == b.l0 && a.l1 == b.l1 && a.l2 == b.l2 && a.l3 == b.l3
}

/// `v >> sh` for a shift amount held in a word (`SHR` semantics).
fn shr_by_word(v: Word, sh: Word) -> (r: Word)
    ensures
        r == w_shr(v, sh.value() as nat),
{
    if word_lt(sh, Word::from_u64(256)) {
        match as_usize(sh) {
            Some(u) => word_shr(v, u),
            None => {
                assert(false);
                Word::zero()
            },
        }
    } else {
        proof {
            lemma_shr_large(v, sh.value() as nat);
        }
        Word::zero()
    }
}

// ---------------------------------------------------------------------------
// PUSH2 <dest> JUMP
// ---------------------------------------------------------------------------

pub open spec fn spec_push2_jump(m: MachineView) -> MachineView {
    let cost = VERYLOW + MID;
    if m.gas < cost {
        m.halt(InstructionResult::OutOfGas)
    } else {
        let g = charged(m, cost);
        let d = word_from(g.code_u16(g.pc) as u64);
        g.with_stack(op_pop(op_push(g.stack, d))).jump_to(d)
    }
}

/// `PUSH2 <dest> JUMP`; the destination is in the two bytes at the program
/// counter.
pub fn push2_jump(interp: &mut Interpreter)
    requires
        machine_wf(old(interp)@),
    ensures
        final(interp)@ == spec_push2_jump(old(interp)@),
{
    if !interp.record_cost(VERYLOW + MID) {
        interp.halt(InstructionResult::OutOfGas);
        return;
    }
    let dest = interp.code_u16(interp.pc);
    assert(interp.stack@ =~= op_pop(op_push(interp.stack@, word_from(dest as u64))));
    interp.jump_to(Word::from_u64(dest as u64));
}

// ---------------------------------------------------------------------------
// PUSH2 <dest> JUMPI
// ---------------------------------------------------------------------------

pub open spec fn spec_push2_jumpi(m: MachineView) -> MachineView {
    let cost = VERYLOW + HIGH;
    if m.gas < cost {
        m.halt(InstructionResult::OutOfGas)
    } else {
        let g = charged(m, cost);
        if g.stack.len() < 1 {
            g.halt(InstructionResult::StackUnderflow)
        } else {
            let s1 = op_push(g.stack, word_from(g.code_u16(g.pc) as u64));
            let rest = g.with_stack(op_pop(op_pop(s1)));
            if nth(s1, 1).value() != 0 {
                rest.jump_to(nth(s1, 0))
            } else {
                rest.with_pc(g.pc + 3)
            }
        }
    }
}

/// `PUSH2 <dest> JUMPI`.
pub fn push2_jumpi(interp: &mut Interpreter)
    requires
        machine_wf(old(interp)@),
    ensures
        final(interp)@ == spec_push2_jumpi(old(interp)@),
{
    if !interp.record_cost(VERYLOW + HIGH) {
        interp.halt(InstructionResult::OutOfGas);
        return;
    }
    let dest = interp.code_u16(interp.pc);
    if interp.stack.len() < 1 {
        interp.halt(InstructionResult::StackUnderflow);
        return;
    }
    let ghost s = interp.stack@;
    let cond = pop_word(&mut interp.stack);
    assert(interp.stack@ =~= op_pop(op_pop(op_push(s, word_from(dest as u64)))));
    if !cond.is_zero() {
        interp.jump_to(Word::from_u64(dest as u64));
    } else {
        interp.pc = interp.pc + 3;
    }
}

// ---------------------------------------------------------------------------
// PUSH1 <a> PUSH1 <b>
// ---------------------------------------------------------------------------

pub open spec fn spec_push1_push1(m: MachineView) -> MachineView {
    let cost = 2 * VERYLOW;
    if m.gas < cost {
        m.halt(InstructionResult::OutOfGas)
    } else {
        let g = charged(m, cost);
        let a = word_from(g.code_byte(g.pc) as u64);
        let b = word_from(g.code_byte(g.pc + 2) as u64);
        if g.stack.len() + 1 > STACK_LIMIT {
            g.halt(InstructionResult::StackOverflow)
        } else if g.stack.len() + 2 > STACK_LIMIT {
            g.with_stack(op_push(g.stack, a)).halt(InstructionResult::StackOverflow)
        } else {
            g.with_stack(op_push(op_push(g.stack, a), b)).with_pc(g.pc + 3)
        }
    }
}

/// `PUSH1 <a> PUSH1 <b>`; `a` is at the program counter, `b` two bytes on.
pub fn push1_push1(interp: &mut Interpreter)
    requires
        machine_wf(old(interp)@),
    ensures
        final(interp)@ == spec_push1_push1(old(interp)@),
{
    if !interp.record_cost(2 * VERYLOW) {
        interp.halt(InstructionResult::OutOfGas);
        return;
    }
    let a = Word::from_u64(interp.code_byte(interp.pc) as u64);
    let b = Word::from_u64(interp.code_byte(interp.pc + 2) as u64);
    if interp.stack.len() + 1 > STACK_LIMIT {
        interp.halt(InstructionResult::StackOverflow);
        return;
    }
    interp.stack.push(a);
    if interp.stack.len() + 1 > STACK_LIMIT {
        interp.halt(InstructionResult::StackOverflow);
        return;
    }
    interp.stack.push(b);
    interp.pc = interp.pc + 3;
}

// ---------------------------------------------------------------------------
// PUSH1 <imm> ADD
// ---------------------------------------------------------------------------

pub open spec fn spec_push1_add(m: MachineView) -> MachineView {
    let cost = 2 * VERYLOW;
    if m.gas < cost {
        m.halt(InstructionResult::OutOfGas)
    } else {
        let g = charged(m, cost);
        if g.stack.len() < 1 {
            g.halt(InstructionResult::StackUnderflow)
        } else {
            g.with_stack(op_add(op_push(g.stack, word_from(g.code_byte(g.pc) as u64)))).with_pc(g.pc + 2)
        }
    }
}

/// `PUSH1 <imm> ADD`.
pub fn push1_add(interp: &mut Interpreter)
    requires
        machine_wf(old(interp)@),
    ensures
        final(interp)@ == spec_push1_add(old(interp)@),
{
    if !interp.record_cost(2 * VERYLOW) {
        interp.halt(InstructionResult::OutOfGas);
        return;
    }
    let imm = interp.code_byte(interp.pc);
    let n = interp.stack.len();
    if n < 1 {
        interp.halt(InstructionResult::StackUnderflow);
        return;
    }
    let ghost s = interp.stack@;
    let b = interp.stack[n - 1];
    interp.stack.set(n - 1, word_add(Word::from_u64(imm as u64), b));
    interp.pc = interp.pc + 2;
    assert(interp.stack@ =~= op_add(op_push(s, word_from(imm as u64))));
}

// ---------------------------------------------------------------------------
// PUSH1 <imm> DUP1
// ---------------------------------------------------------------------------

pub open spec fn spec_push1_dup1(m: MachineView) -> MachineView {
    let cost = 2 * VERYLOW;
    if m.gas < cost {
        m.halt(InstructionResult::OutOfGas)
    } else {
        let g = charged(m, cost);
        let v = word_from(g.code_byte(g.pc) as u64);
        if g.stack.len() + 1 > STACK_LIMIT {
            g.halt(InstructionResult::StackOverflow)
        } else if g.stack.len() + 2 > STACK_LIMIT {
            g.with_stack(op_push(g.stack, v)).halt(InstructionResult::StackOverflow)
        } else {
            g.with_stack(op_dup(op_push(g.stack, v), 1)).with_pc(g.pc + 2)
        }
    }
}

/// `PUSH1 <imm> DUP1`.
pub fn push1_dup1(interp: &mut Interpreter)
    requires
        machine_wf(old(interp)@),
    ensures
        final(interp)@ == spec_push1_dup1(old(interp)@),
{
    if !interp.record_cost(2 * VERYLOW) {
        interp.halt(InstructionResult::OutOfGas);
        return;
    }
    let v = Word::from_u64(interp.code_byte(interp.pc) as u64);
    let ghost s = interp.stack@;
    if interp.stack.len() + 1 > STACK_LIMIT {
        interp.halt(InstructionResult::StackOverflow);
        return;
    }
    interp.stack.push(v);
    if interp.stack.len() + 1 > STACK_LIMIT {
        interp.halt(InstructionResult::StackOverflow);
        return;
    }
    interp.stack.push(v);
    interp.pc = interp.pc + 2;
    assert(interp.stack@ =~= op_dup(op_push(s, v), 1));
}

// ---------------------------------------------------------------------------
// DUP2 LT
// ---------------------------------------------------------------------------

pub open spec fn spec_dup2_lt(m: MachineView) -> MachineView {
    let cost = 2 * VERYLOW;
    if m.gas < cost {
        m.halt(InstructionResult::OutOfGas)
    } else {
        let g = charged(m, cost);
        if g.stack.len() < 2 {
            g.halt(InstructionResult::StackUnderflow)
        } else {
            g.with_stack(op_lt(op_dup(g.stack, 2))).with_pc(g.pc + 1)
        }
    }
}

/// `DUP2 LT`.
pub fn dup2_lt(interp: &mut Interpreter)
    requires
        machine_wf(old(interp)@),
    ensures
        final(interp)@ == spec_dup2_lt(old(interp)@),
{
    if !interp.record_cost(2 * VERYLOW) {
        interp.halt(InstructionResult::OutOfGas);
        return;
    }
    let n = interp.stack.len();
    if n < 2 {
        interp.halt(InstructionResult::StackUnderflow);
        return;
    }
    let ghost s = interp.stack@;
    let b = interp.stack[n - 2];
    let a = interp.stack[n - 1];
    interp.stack.set(n - 1, bool_word(word_lt(b, a)));
    interp.pc = interp.pc + 1;
    assert(interp.stack@ =~= op_lt(op_dup(s, 2)));
}

// ---------------------------------------------------------------------------
// ISZERO PUSH2 <imm>
// ---------------------------------------------------------------------------

pub open spec fn spec_iszero_push2(m: MachineView) -> MachineView {
    let cost = 2 * VERYLOW;
    if m.gas < cost {
        m.halt(InstructionResult::OutOfGas)
    } else {
        let g = charged(m, cost);
        if g.stack.len() < 1 {
            g.halt(InstructionResult::StackUnderflow)
        } else if g.stack.len() + 1 > STACK_LIMIT {
            g.with_stack(op_iszero(g.stack)).halt(InstructionResult::StackOverflow)
        } else {
            g.with_stack(op_push(op_iszero(g.stack), word_from(g.code_u16(g.pc + 1) as u64))).with_pc(g.pc + 3)
        }
    }
}

/// `ISZERO PUSH2 <imm>`; the immediate follows the byte at the program
/// counter.
pub fn iszero_push2(interp: &mut Interpreter)
    requires
        machine_wf(old(interp)@),
    ensures
        final(interp)@ == spec_iszero_push2(old(interp)@),
{
    if !interp.record_cost(2 * VERYLOW) {
        interp.halt(InstructionResult::OutOfGas);
        return;
    }
    let n = interp.stack.len();
    if n < 1 {
        interp.halt(InstructionResult::StackUnderflow);
        return;
    }
    let ghost s = interp.stack@;
    let x = interp.stack[n - 1];
    interp.stack.set(n - 1, bool_word(x.is_zero()));
    assert(interp.stack@ =~= op_iszero(s));
    let imm = interp.code_u16(interp.pc + 1);
    if interp.stack.len() + 1 > STACK_LIMIT {
        interp.halt(InstructionResult::StackOverflow);
        return;
    }
    interp.stack.push(Word::from_u64(imm as u64));
    interp.pc = interp.pc + 3;
}

// ---------------------------------------------------------------------------
// DUP2 MSTORE PUSH1 <imm> ADD
// ---------------------------------------------------------------------------

pub open spec fn spec_dup2_mstore_push1_add(m: MachineView) -> MachineView {
    let cost = 4 * VERYLOW;
    if m.gas < cost {
        m.halt(InstructionResult::OutOfGas)
    } else {
        let g = charged(m, cost);
        if g.stack.len() < 1 {
            g.halt(InstructionResult::StackUnderflow)
        } else if g.stack.len() < 2 {
            g.with_stack(dropped(g.stack, 1)).halt(InstructionResult::StackUnderflow)
        } else {
            let val = nth(g.stack, 0);
            let s1 = op_pop(g.stack);
            let off = nth(s1, 0);
            let h = g.with_stack(s1);
            if off.value() > usize::MAX {
                h.halt(InstructionResult::InvalidOperandOOG)
            } else if memory_expansion_fails(h, off.value() + 32) {
                h.halt(InstructionResult::MemoryOOG)
            } else {
                let e = expand_memory(h, off.value() + 32);
                let imm = word_from(e.code_byte(e.pc + 2) as u64);
                MachineView {
                    memory: store_word(e.memory, off.value(), val),
                    stack: op_add(op_push(s1, imm)),
                    pc: e.pc + 4,
                    ..e
                }
            }
        }
    }
}

/// `DUP2 MSTORE PUSH1 <imm> ADD`: stores the top word at the offset below
/// it, growing memory as needed, then adds `imm`, two bytes on, to the
/// offset.
pub fn dup2_mstore_push1_add(interp: &mut Interpreter)
    requires
        machine_wf(old(interp)@),
    ensures
        final(interp)@ == spec_dup2_mstore_push1_add(old(interp)@),
{
    if !interp.record_cost(4 * VERYLOW) {
        interp.halt(InstructionResult::OutOfGas);
        return;
    }
    let ghost s = interp.stack@;
    if interp.stack.len() < 1 {
        interp.halt(InstructionResult::StackUnderflow);
        return;
    }
    let val = pop_word(&mut interp.stack);
    let n = interp.stack.len();
    if n < 1 {
        assert(interp.stack@ =~= dropped(s, 1));
        interp.halt(InstructionResult::StackUnderflow);
        return;
    }
    let off = interp.stack[n - 1];
    let offset = match as_usize(off) {
        Some(o) => o,
        None => {
            interp.halt(InstructionResult::InvalidOperandOOG);
            return;
        },
    };
    if !interp.expand_memory_for_word(offset) {
        return;
    }
    interp.store_word(offset, val);
    let imm = interp.code_byte(interp.pc + 2);
    let r = word_add(Word::from_u64(imm as u64), off);
    interp.stack.set(n - 1, r);
    interp.pc = interp.pc + 4;
    assert(interp.stack@ =~= op_add(op_push(op_pop(s), word_from(imm as u64))));
}


// ---------------------------------------------------------------------------
// DUP1 PUSH4 <c> EQ PUSH2 <d>
// ---------------------------------------------------------------------------

pub open spec fn spec_dup1_push4_eq_push2(m: MachineView) -> MachineView {
    let cost = 4 * VERYLOW;
    if m.gas < cost {
        m.halt(InstructionResult::OutOfGas)
    } else {
        let g = charged(m, cost);
        if g.stack.len() < 1 || g.stack.len() + 1 > STACK_LIMIT {
            g.halt(InstructionResult::StackUnderflow)
        } else {
            let c = word_from(g.code_u32(g.pc + 1) as u64);
            let d = word_from(g.code_u16(g.pc + 7) as u64);
            let s1 = op_eq(op_push(op_dup(g.stack, 1), c));
            if s1.len() + 1 > STACK_LIMIT {
                g.with_stack(s1).with_pc(g.pc + 7).halt(InstructionResult::StackOverflow)
            } else {
                g.with_stack(op_push(s1, d)).with_pc(g.pc + 9)
            }
        }
    }
}

/// `DUP1 PUSH4 <c> EQ PUSH2 <d>`: `c` is in the four bytes after the one at
/// the program counter, `d` in the two bytes six further on.  A `DUP1`
/// that finds no word, or no room, halts with `StackUnderflow`.
pub fn dup1_push4_eq_push2(interp: &mut Interpreter)
    requires
        machine_wf(old(interp)@),
    ensures
        final(interp)@ == spec_dup1_push4_eq_push2(old(interp)@),
{
    if !interp.record_cost(4 * VERYLOW) {
        interp.halt(InstructionResult::OutOfGas);
        return;
    }
    let n = interp.stack.len();
    if n < 1 || n + 1 > STACK_LIMIT {
        interp.halt(InstructionResult::StackUnderflow);
        return;
    }
    let ghost s = interp.stack@;
    let x = interp.stack[n - 1];
    interp.stack.push(x);
    interp.pc = interp.pc + 1;
    let c = Word::from_u64(interp.code_u32(interp.pc));
    interp.stack.set(n, bool_word(word_eq(c, x)));
    assert(interp.stack@ =~= op_eq(op_push(op_dup(s, 1), c)));
    interp.pc = interp.pc + 6;
    let d = interp.code_u16(interp.pc);
    if interp.stack.len() + 1 > STACK_LIMIT {
        interp.halt(InstructionResult::StackOverflow);
        return;
    }
    interp.stack.push(Word::from_u64(d as u64));
    interp.pc = interp.pc + 2;
}

// ---------------------------------------------------------------------------
// PUSH1 <off> CALLDATALOAD PUSH1 <sh> SHR DUP1 PUSH4 <c> GT PUSH2 <d>
// ---------------------------------------------------------------------------

pub open spec fn spec_push1_calldataload_push1_shr_dup1_push4_gt_push2(m: MachineView) -> MachineView {
    let cost = 8 * VERYLOW;
    if m.gas < cost {
        m.halt(InstructionResult::OutOfGas)
    } else {
        let g = charged(m, cost);
        let s0 = g.stack;
        let s2 = op_calldataload(op_push(s0, word_from(g.code_byte(g.pc) as u64)), g.input);
        let s4 = op_shr(op_push(s2, word_from(g.code_byte(g.pc + 3) as u64)));
        let s7 = op_gt(op_push(op_dup(s4, 1), word_from(g.code_u32(g.pc + 7) as u64)));
        let s8 = op_push(s7, word_from(g.code_u16(g.pc + 13) as u64));
        if s0.len() + 1 > STACK_LIMIT {
            g.halt(InstructionResult::StackOverflow)
        } else if s0.len() + 2 > STACK_LIMIT {
            g.with_stack(s4).halt(InstructionResult::StackOverflow)
        } else if s0.len() + 3 > STACK_LIMIT {
            g.with_stack(s7).halt(InstructionResult::StackOverflow)
        } else {
            g.with_stack(s8).with_pc(g.pc + 15)
        }
    }
}

/// `PUSH1 <off> CALLDATALOAD PUSH1 <sh> SHR DUP1 PUSH4 <c> GT PUSH2 <d>`,
/// with the immediates at offsets 0, 3, 7..11 and 13..15 from the program
/// counter.
pub fn push1_calldataload_push1_shr_dup1_push4_gt_push2(interp: &mut Interpreter)
    requires
        machine_wf(old(interp)@),
    ensures
        final(interp)@ == spec_push1_calldataload_push1_shr_dup1_push4_gt_push2(old(interp)@),
{
    if !interp.record_cost(8 * VERYLOW) {
        interp.halt(InstructionResult::OutOfGas);
        return;
    }
    let ghost s = interp.stack@;
    let off = interp.code_byte(interp.pc) as usize;
    let mut buf: Vec<u8> = Vec::new();
    let mut i: usize = 0;
    while i < 32
        invariant
            i <= 32,
            off < 256,
            buf@.len() == i,
            forall|k: int| 0 <= k < i ==> buf@[k] == calldata_bytes(interp.input@, off as int)[k],
        decreases 32 - i,
    {
        let b = if off + i < interp.input.len() {
            interp.input[off + i]
        } else {
            0
        };
        buf.push(b);
        i += 1;
    }
    assert(buf@ =~= calldata_bytes(interp.input@, off as int));
    let word = word_from_be_bytes(buf.as_slice());
    let shift = interp.code_byte(interp.pc + 3) as usize;
    let x = word_shr(word, shift);
    let c = Word::from_u64(interp.code_u32(interp.pc + 7));
    let hi = interp.code_byte(interp.pc + 13) as u64;
    let lo = interp.code_byte(interp.pc + 14) as u64;
    let d = Word::from_u64(hi * 256 + lo);
    let ghost s4 = op_shr(op_push(op_calldataload(op_push(s, word_from(off as u64)), interp.input@), word_from(shift as u64)));
    let ghost s7 = op_gt(op_push(op_dup(s4, 1), c));
    if interp.stack.len() + 1 > STACK_LIMIT {
        interp.halt(InstructionResult::StackOverflow);
        return;
    }
    interp.stack.push(x);
    assert(interp.stack@ =~= s4);
    if interp.stack.len() + 1 > STACK_LIMIT {
        interp.halt(InstructionResult::StackOverflow);
        return;
    }
    interp.stack.push(bool_word(word_lt(x, c)));
    assert(interp.stack@ =~= s7);
    if interp.stack.len() + 1 > STACK_LIMIT {
        interp.halt(InstructionResult::StackOverflow);
        return;
    }
    interp.stack.push(d);
    interp.pc = interp.pc + 15;
}

// ---------------------------------------------------------------------------
// PUSH1 <a> PUSH1 <b> PUSH1 <c> SHL SUB
// ---------------------------------------------------------------------------

pub open spec fn spec_push1_push1_push1_shl_sub(m: MachineView) -> MachineView {
    let cost = 5 * VERYLOW;
    if m.gas < cost {
        m.halt(InstructionResult::OutOfGas)
    } else {
        let g = charged(m, cost);
        if g.stack.len() + 1 > STACK_LIMIT {
            g.halt(InstructionResult::StackOverflow)
        } else {
            let a = word_from(g.code_byte(g.pc) as u64);
            let b = word_from(g.code_byte(g.pc + 2) as u64);
            let c = word_from(g.code_byte(g.pc + 4) as u64);
            g.with_stack(op_sub(op_shl(op_push(op_push(op_push(g.stack, a), b), c)))).with_pc(g.pc + 7)
        }
    }
}

/// `PUSH1 <a> PUSH1 <b> PUSH1 <c> SHL SUB`: pushes `(b << c) - a`.
pub fn push1_push1_push1_shl_sub(interp: &mut Interpreter)
    requires
        machine_wf(old(interp)@),
    ensures
        final(interp)@ == spec_push1_push1_push1_shl_sub(old(interp)@),
{
    if !interp.record_cost(5 * VERYLOW) {
        interp.halt(InstructionResult::OutOfGas);
        return;
    }
    let ghost s = interp.stack@;
    let a = Word::from_u64(interp.code_byte(interp.pc) as u64);
    let b = Word::from_u64(interp.code_byte(interp.pc + 2) as u64);
    let c = interp.code_byte(interp.pc + 4);
    let res = word_sub(word_shl(b, c as usize), a);
    if interp.stack.len() + 1 > STACK_LIMIT {
        interp.halt(InstructionResult::StackOverflow);
        return;
    }
    interp.stack.push(res);
    interp.pc = interp.pc + 7;
    assert(interp.stack@ =~= op_sub(op_shl(op_push(op_push(op_push(s, a), b), word_from(c as u64)))));
}

// ---------------------------------------------------------------------------
// SWAP1 PUSH1 <imm> DUP1 NOT SWAP2 ADD AND DUP2 ADD SWAP1 DUP2 LT
// ---------------------------------------------------------------------------

pub open spec fn spec_swap1_push1_dup1_not_swap2_add_and_dup2_add_swap1_dup2_lt(m: MachineView) -> MachineView {
    let cost = 12 * VERYLOW;
    if m.gas < cost {
        m.halt(InstructionResult::OutOfGas)
    } else {
        let g = charged(m, cost);
        if g.stack.len() < 2 {
            g.halt(InstructionResult::StackUnderflow)
        } else {
            let imm = word_from(g.code_byte(g.pc + 1) as u64);
            let s5 = op_swap(op_not(op_dup(op_push(op_swap(g.stack, 1), imm), 1)), 2);
            let s9 = op_add(op_dup(op_and(op_add(s5)), 2));
            g.with_stack(op_lt(op_dup(op_swap(s9, 1), 2))).with_pc(g.pc + 12)
        }
    }
}

/// `SWAP1 PUSH1 <imm> DUP1 NOT SWAP2 ADD AND DUP2 ADD SWAP1 DUP2 LT` (the
/// usual rounding of an offset up to a multiple of `imm + 1` followed by an
/// overflow check); the immediate is the byte after the one at the program
/// counter.
pub fn swap1_push1_dup1_not_swap2_add_and_dup2_add_swap1_dup2_lt(interp: &mut Interpreter)
    requires
        machine_wf(old(interp)@),
    ensures
        final(interp)@ == spec_swap1_push1_dup1_not_swap2_add_and_dup2_add_swap1_dup2_lt(old(interp)@),
{
    if !interp.record_cost(12 * VERYLOW) {
        interp.halt(InstructionResult::OutOfGas);
        return;
    }
    let n = interp.stack.len();
    if n < 2 {
        interp.halt(InstructionResult::StackUnderflow);
        return;
    }
    let ghost s = interp.stack@;
    let b = interp.stack[n - 2];
    let a = interp.stack[n - 1];
    interp.pc = interp.pc + 1;
    let imm = Word::from_u64(interp.code_byte(interp.pc) as u64);
    let rounded = word_and(word_add(b, imm), word_not(imm));
    let tmp = word_add(a, rounded);
    interp.stack.set(n - 1, bool_word(word_lt(tmp, a)));
    interp.stack.set(n - 2, tmp);
    interp.pc = interp.pc + 11;
    assert(interp.stack@ =~= op_lt(
        op_dup(op_swap(op_add(op_dup(op_and(op_add(op_swap(op_not(op_dup(op_push(op_swap(s, 1), imm), 1)), 2))), 2)), 1), 2),
    ));
}

// ---------------------------------------------------------------------------
// AND DUP2 ADD SWAP1 DUP2 LT
// ---------------------------------------------------------------------------

pub open spec fn spec_and_dup2_add_swap1_dup2_lt(m: MachineView) -> MachineView {
    let cost = 6 * VERYLOW;
    if m.gas < cost {
        m.halt(InstructionResult::OutOfGas)
    } else {
        let g = charged(m, cost);
        if g.stack.len() < 1 {
            g.halt(InstructionResult::StackUnderflow)
        } else if g.stack.len() < 3 {
            g.with_stack(dropped(g.stack, 1)).halt(InstructionResult::StackUnderflow)
        } else {
            g.with_stack(op_lt(op_dup(op_swap(op_add(op_dup(op_add(g.stack), 2)), 1), 2))).with_pc(g.pc + 5)
        }
    }
}

/// The super-instruction `ANDDUP2ADDSWAP1DUP2LT`.  With `a` on top of
/// `b` and `c`, it leaves `s = a + b + c` and, above it, whether `s < c`:
/// it executes `ADD DUP2 ADD SWAP1 DUP2 LT`, so its first step adds the top
/// two words where the run it replaces starts with `AND`.
pub fn and_dup2_add_swap1_dup2_lt(interp: &mut Interpreter)
    requires
        machine_wf(old(interp)@),
    ensures
        final(interp)@ == spec_and_dup2_add_swap1_dup2_lt(old(interp)@),
{
    if !interp.record_cost(6 * VERYLOW) {
        interp.halt(InstructionResult::OutOfGas);
        return;
    }
    let ghost s = interp.stack@;
    if interp.stack.len() < 1 {
        interp.halt(InstructionResult::StackUnderflow);
        return;
    }
    let a = pop_word(&mut interp.stack);
    let n = interp.stack.len();
    if n < 2 {
        assert(interp.stack@ =~= dropped(s, 1));
        interp.halt(InstructionResult::StackUnderflow);
        return;
    }
    let c = interp.stack[n - 2];
    let b = interp.stack[n - 1];
    let sum = word_add(c, word_add(a, b));
    interp.stack.set(n - 2, sum);
    interp.stack.set(n - 1, bool_word(word_lt(sum, c)));
    interp.pc = interp.pc + 5;
    assert(interp.stack@ =~= op_lt(op_dup(op_swap(op_add(op_dup(op_add(s), 2)), 1), 2)));
}

// ---------------------------------------------------------------------------
// SWAP2 SWAP1 DUP3 SUB SWAP2 DUP3 GT PUSH2 <d>
// ---------------------------------------------------------------------------

pub open spec fn spec_swap2_swap1_dup3_sub_swap2_dup3_gt_push2(m: MachineView) -> MachineView {
    let cost = 7 * VERYLOW + MID;
    if m.gas < cost {
        m.halt(InstructionResult::OutOfGas)
    } else {
        let g = charged(m, cost);
        if g.stack.len() < 3 {
            g.halt(InstructionResult::StackUnderflow)
        } else {
            let s4 = op_sub(op_dup(op_swap(op_swap(g.stack, 2), 1), 3));
            let s7 = op_gt(op_dup(op_swap(s4, 2), 3));
            if s7.len() + 1 > STACK_LIMIT {
                g.with_stack(s7).with_pc(g.pc + 7).halt(InstructionResult::StackOverflow)
            } else {
                g.with_stack(op_push(s7, word_from(g.code_u16(g.pc + 7) as u64))).with_pc(g.pc + 9)
            }
        }
    }
}

/// `SWAP2 SWAP1 DUP3 SUB SWAP2 DUP3 GT PUSH2 <d>`; `d` is in the two bytes
/// seven on from the program counter.
pub fn swap2_swap1_dup3_sub_swap2_dup3_gt_push2(interp: &mut Interpreter)
    requires
        machine_wf(old(interp)@),
    ensures
        final(interp)@ == spec_swap2_swap1_dup3_sub_swap2_dup3_gt_push2(old(interp)@),
{
    if !interp.record_cost(7 * VERYLOW + MID) {
        interp.halt(InstructionResult::OutOfGas);
        return;
    }
    let n = interp.stack.len();
    if n < 3 {
        interp.halt(InstructionResult::StackUnderflow);
        return;
    }
    let ghost s = interp.stack@;
    let x0 = interp.stack[n - 1];
    let x1 = interp.stack[n - 2];
    let x2 = interp.stack[n - 3];
    let v = word_sub(x0, x1);
    interp.stack.set(n - 3, v);
    interp.stack.set(n - 2, x2);
    interp.stack.set(n - 1, bool_word(word_lt(x0, v)));
    assert(interp.stack@ =~= op_gt(op_dup(op_swap(op_sub(op_dup(op_swap(op_swap(s, 2), 1), 3)), 2), 3)));
    interp.pc = interp.pc + 7;
    let d = interp.code_u16(interp.pc);
    if interp.stack.len() + 1 > STACK_LIMIT {
        interp.halt(InstructionResult::StackOverflow);
        return;
    }
    interp.stack.push(Word::from_u64(d as u64));
    interp.pc = interp.pc + 2;
}

// ---------------------------------------------------------------------------
// SHR SHR DUP1 MUL DUP1
// ---------------------------------------------------------------------------

pub open spec fn spec_shr_shr_dup1_mul_dup1(m: MachineView) -> MachineView {
    let cost = 4 * VERYLOW + LOW;
    if m.gas < cost {
        m.halt(InstructionResult::OutOfGas)
    } else {
        let g = charged(m, cost);
        if g.stack.len() < 2 {
            g.halt(InstructionResult::StackUnderflow)
        } else if g.stack.len() < 3 {
            g.with_stack(dropped(g.stack, 2)).halt(InstructionResult::StackUnderflow)
        } else {
            g.with_stack(op_dup(op_mul(op_dup(op_shr(op_shr(g.stack)), 1)), 1)).with_pc(g.pc + 4)
        }
    }
}

/// `SHR SHR DUP1 MUL DUP1`.
pub fn shr_shr_dup1_mul_dup1(interp: &mut Interpreter)
    requires
        machine_wf(old(interp)@),
    ensures
        final(interp)@ == spec_shr_shr_dup1_mul_dup1(old(interp)@),
{
    if !interp.record_cost(4 * VERYLOW + LOW) {
        interp.halt(InstructionResult::OutOfGas);
        return;
    }
    let ghost s = interp.stack@;
    if interp.stack.len() < 2 {
        interp.halt(InstructionResult::StackUnderflow);
        return;
    }
    let shift = pop_word(&mut interp.stack);
    let value = pop_word(&mut interp.stack);
    let shifted = shr_by_word(value, shift);
    let n = interp.stack.len();
    if n < 1 {
        assert(interp.stack@ =~= dropped(s, 2));
        interp.halt(InstructionResult::StackUnderflow);
        return;
    }
    let value2 = interp.stack[n - 1];
    let r = shr_by_word(value2, shifted);
    let sq = word_mul(r, r);
    interp.stack.set(n - 1, sq);
    if n + 1 > STACK_LIMIT {
        interp.halt(InstructionResult::StackOverflow);
        return;
    }
    interp.stack.push(sq);
    interp.pc = interp.pc + 4;
    assert(interp.stack@ =~= op_dup(op_mul(op_dup(op_shr(op_shr(s)), 1)), 1));
}

// ---------------------------------------------------------------------------
// SUB SLT ISZERO PUSH2 <d>
// ---------------------------------------------------------------------------

pub open spec fn spec_sub_slt_iszero_push2(m: MachineView) -> MachineView {
    let cost = 4 * VERYLOW;
    if m.gas < cost {
        m.halt(InstructionResult::OutOfGas)
    } else {
        let g = charged(m, cost);
        if g.stack.len() < 2 {
            g.halt(InstructionResult::StackUnderflow)
        } else if g.stack.len() < 3 {
            g.with_stack(dropped(g.stack, 2)).halt(InstructionResult::StackUnderflow)
        } else {
            g.with_stack(op_push(op_iszero(op_slt(op_sub(g.stack))), word_from(g.code_u16(g.pc + 3) as u64)))
                .with_pc(g.pc + 5)
        }
    }
}

/// `SUB SLT ISZERO PUSH2 <d>`; `d` is in the two bytes three on from the
/// program counter.
pub fn sub_slt_iszero_push2(interp: &mut Interpreter)
    requires
        machine_wf(old(interp)@),
    ensures
        final(interp)@ == spec_sub_slt_iszero_push2(old(interp)@),
{
    if !interp.record_cost(4 * VERYLOW) {
        interp.halt(InstructionResult::OutOfGas);
        return;
    }
    let ghost s = interp.stack@;
    if interp.stack.len() < 2 {
        interp.halt(InstructionResult::StackUnderflow);
        return;
    }
    let x = pop_word(&mut interp.stack);
    let y = pop_word(&mut interp.stack);
    let diff = word_sub(x, y);
    if interp.stack.len() < 1 {
        assert(interp.stack@ =~= dropped(s, 2));
        interp.halt(InstructionResult::StackUnderflow);
        return;
    }
    let z = pop_word(&mut interp.stack);
    let slt = word_slt(diff, z);
    interp.stack.push(bool_word(!slt));
    assert(interp.stack@ =~= op_iszero(op_slt(op_sub(s))));
    interp.pc = interp.pc + 3;
    let d = interp.code_u16(interp.pc);
    interp.stack.push(Word::from_u64(d as u64));
    interp.pc = interp.pc + 2;
}

} // verus!
