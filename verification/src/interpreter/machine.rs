//! The interpreter state that instructions act on, and the semantics of the
//! plain EVM instructions that the super-instructions combine.
//!
//! The stack is a sequence of words with its top at the end.  Gas costs
//! follow the EVM's cost tiers.

use vstd::prelude::*;
use crate::interpreter::word::{
    Word, be_value, p64, signed_value, w_add, w_and, w_mul, w_not, w_shl, w_shr, w_sub, word_be_bytes, word_bool,
    word_of, word_to_be_bytes,
};

verus! {

/// Maximum number of words on the stack.
pub const STACK_LIMIT: usize = 1024;

pub const BASE: u64 = 2;
pub const VERYLOW: u64 = 3;
pub const LOW: u64 = 5;
pub const MID: u64 = 8;
pub const HIGH: u64 = 10;

/// Why an instruction stopped the interpreter.
#[derive(Clone, Copy, Debug, PartialEq, Eq, Structural)]
pub enum InstructionResult {
    OutOfGas,
    StackUnderflow,
    StackOverflow,
    InvalidJump,
    InvalidOperandOOG,
    MemoryOOG,
}

/// Interpreter state.
pub struct Interpreter {
    /// Operand stack, top at the end.
    pub stack: Vec<Word>,
    /// Position in `code`.
    pub pc: usize,
    /// The (padded) code; bytes past its end read as zero.
    pub code: Vec<u8>,
    /// `jump_table[p]` says whether `p` is a valid jump destination.
    pub jump_table: Vec<bool>,
    /// Call data of the running call.
    pub input: Vec<u8>,
    /// Memory of the running call; it grows a word (32 bytes) at a time.
    pub memory: Vec<u8>,
    /// Gas left.
    pub gas: u64,
    /// Set when an instruction halts the interpreter.
    pub halted: Option<InstructionResult>,
}

/// The interpreter state as a value.
pub struct MachineView {
    pub stack: Seq<Word>,
    pub pc: int,
    pub code: Seq<u8>,
    pub jump_table: Seq<bool>,
    pub input: Seq<u8>,
    pub memory: Seq<u8>,
    pub gas: int,
    pub halted: Option<InstructionResult>,
}

impl View for Interpreter {
    type V = MachineView;

    open spec fn view(&self) -> MachineView {
        MachineView {
            stack: self.stack@,
            pc: self.pc as int,
            code: self.code@,
            jump_table: self.jump_table@,
            input: self.input@,
            memory: self.memory@,
            gas: self.gas as int,
            halted: self.halted,
        }
    }
}

impl MachineView {
    pub open spec fn with_stack(self, s: Seq<Word>) -> MachineView {
        MachineView { stack: s, ..self }
    }

    pub open spec fn with_pc(self, pc: int) -> MachineView {
        MachineView { pc: pc, ..self }
    }

    pub open spec fn halt(self, r: InstructionResult) -> MachineView {
        MachineView { halted: Some(r), ..self }
    }

    /// The state after charging `cost` gas, or halted for lack of gas.
    pub open spec fn charge(self, cost: int) -> MachineView {
        if self.gas < cost {
            self.halt(InstructionResult::OutOfGas)
        } else {
            MachineView { gas: self.gas - cost, ..self }
        }
    }

    /// Byte `i` of the code; past the end, zero.
    pub open spec fn code_byte(self, i: int) -> u8 {
        if 0 <= i < self.code.len() {
            self.code[i]
        } else {
            0
        }
    }

    /// Big-endian 16-bit value of the code bytes at `i` and `i + 1`.
    pub open spec fn code_u16(self, i: int) -> int {
        self.code_byte(i) * 256 + self.code_byte(i + 1)
    }

    /// Big-endian 32-bit value of the code bytes at `i .. i + 4`.
    pub open spec fn code_u32(self, i: int) -> int {
        self.code_u16(i) * 65536 + self.code_u16(i + 2)
    }

    pub open spec fn valid_jump(self, dest: int) -> bool {
        0 <= dest < self.jump_table.len() && self.jump_table[dest]
    }

    /// The state after an absolute jump to the destination word `w`:
    /// halted with `InvalidJump` unless `w` is a valid destination.
    pub open spec fn jump_to(self, w: Word) -> MachineView {
        if w.value() <= usize::MAX && self.valid_jump(w.value()) {
            self.with_pc(w.value())
        } else {
            self.halt(InstructionResult::InvalidJump)
        }
    }
}

/// Well-formed state: the stack respects its limit, the program counter
/// has room for the longest relative move, and memory is whole words.
pub open spec fn machine_wf(m: MachineView) -> bool {
    &&& m.stack.len() <= STACK_LIMIT
    &&& m.pc + 32 <= usize::MAX
    &&& m.memory.len() % 32 == 0
}

/// Gas that a memory of `words` words costs in all: `3` per word plus the
/// square of the words over 512.
pub open spec fn memory_cost(words: int) -> int {
    3 * words + words * words / 512
}

/// Whether growing memory to hold the bytes below `end` fails: the gas
/// does not cover the growth of `memory_cost`, or the memory would not fit
/// the address space.
pub open spec fn memory_expansion_fails(m: MachineView, end: int) -> bool {
    let words = (end + 31) / 32;
    &&& end > m.memory.len()
    &&& m.gas < memory_cost(words) - memory_cost((m.memory.len() / 32) as int) || words * 32 > usize::MAX
}

/// The state after growing memory to hold the bytes below `end`: whole
/// words, zero-filled, with the growth of `memory_cost` charged; halted
/// with `MemoryOOG` where the growth fails.
pub open spec fn expand_memory(m: MachineView, end: int) -> MachineView {
    if end <= m.memory.len() {
        m
    } else if memory_expansion_fails(m, end) {
        m.halt(InstructionResult::MemoryOOG)
    } else {
        let words = (end + 31) / 32;
        MachineView {
            gas: m.gas - (memory_cost(words) - memory_cost((m.memory.len() / 32) as int)),
            memory: m.memory + Seq::new((words * 32 - m.memory.len()) as nat, |i: int| 0u8),
            ..m
        }
    }
}

/// Growing memory never gives gas back.
pub proof fn lemma_expand_memory_gas(m: MachineView, end: int)
    ensures
        expand_memory(m, end).gas <= m.gas,
{
    if end > m.memory.len() && !memory_expansion_fails(m, end) {
        let a = (m.memory.len() / 32) as int;
        let b = (end + 31) / 32;
        assert(a <= b);
        assert(a * a <= b * b) by (nonlinear_arith)
            requires
                0 <= a <= b;
        assert(a * a / 512 <= b * b / 512) by (nonlinear_arith)
            requires
                0 <= a * a <= b * b;
    }
}

/// Memory with the 32 big-endian bytes of `w` written from `offset` on.
pub open spec fn store_word(mem: Seq<u8>, offset: int, w: Word) -> Seq<u8> {
    Seq::new(mem.len(), |j: int| if offset <= j < offset + 32 { word_be_bytes(w)[j - offset] } else { mem[j] })
}

// ---------------------------------------------------------------------------
// Plain instructions on the stack (top at the end)
// ---------------------------------------------------------------------------

/// The `i`-th word from the top (0 is the top).
pub open spec fn nth(s: Seq<Word>, i: int) -> Word {
    s[s.len() - 1 - i]
}

pub open spec fn op_pop(s: Seq<Word>) -> Seq<Word> {
    s.drop_last()
}

/// `SWAPn`: exchange the top with the `n`-th word below it.
pub open spec fn op_swap(s: Seq<Word>, n: int) -> Seq<Word> {
    s.update(s.len() - 1, nth(s, n)).update(s.len() - 1 - n, nth(s, 0))
}

/// `DUPn`: push a copy of the `n`-th word (1 is the top).
pub open spec fn op_dup(s: Seq<Word>, n: int) -> Seq<Word> {
    s.push(nth(s, n - 1))
}

pub open spec fn op_push(s: Seq<Word>, w: Word) -> Seq<Word> {
    s.push(w)
}

/// Replace the top two words by `r`.
pub open spec fn op_binary(s: Seq<Word>, r: Word) -> Seq<Word> {
    s.drop_last().drop_last().push(r)
}

/// Replace the top word by `r`.
pub open spec fn op_unary(s: Seq<Word>, r: Word) -> Seq<Word> {
    s.drop_last().push(r)
}

pub open spec fn op_add(s: Seq<Word>) -> Seq<Word> {
    op_binary(s, w_add(nth(s, 0), nth(s, 1)))
}

pub open spec fn op_sub(s: Seq<Word>) -> Seq<Word> {
    op_binary(s, w_sub(nth(s, 0), nth(s, 1)))
}

pub open spec fn op_mul(s: Seq<Word>) -> Seq<Word> {
    op_binary(s, w_mul(nth(s, 0), nth(s, 1)))
}

pub open spec fn op_and(s: Seq<Word>) -> Seq<Word> {
    op_binary(s, w_and(nth(s, 0), nth(s, 1)))
}

pub open spec fn op_lt(s: Seq<Word>) -> Seq<Word> {
    op_binary(s, word_bool(nth(s, 0).value() < nth(s, 1).value()))
}

pub open spec fn op_gt(s: Seq<Word>) -> Seq<Word> {
    op_binary(s, word_bool(nth(s, 0).value() > nth(s, 1).value()))
}

pub open spec fn op_slt(s: Seq<Word>) -> Seq<Word> {
    op_binary(s, word_bool(signed_value(nth(s, 0)) < signed_value(nth(s, 1))))
}

pub open spec fn op_eq(s: Seq<Word>) -> Seq<Word> {
    op_binary(s, word_bool(nth(s, 0) == nth(s, 1)))
}

/// `SHL`: shift the second word left by the top word.
pub open spec fn op_shl(s: Seq<Word>) -> Seq<Word> {
    op_binary(s, w_shl(nth(s, 1), nth(s, 0).value() as nat))
}

/// `SHR`: shift the second word right by the top word.
pub open spec fn op_shr(s: Seq<Word>) -> Seq<Word> {
    op_binary(s, w_shr(nth(s, 1), nth(s, 0).value() as nat))
}

/// The 32 bytes of call data from `off` on, zero past its end.
pub open spec fn calldata_bytes(input: Seq<u8>, off: int) -> Seq<u8> {
    Seq::new(32, |i: int| if 0 <= off + i < input.len() { input[off + i] } else { 0u8 })
}

/// `CALLDATALOAD`: replace the offset on top by the call-data word there.
pub open spec fn op_calldataload(s: Seq<Word>, input: Seq<u8>) -> Seq<Word> {
    op_unary(s, word_of(be_value(calldata_bytes(input, nth(s, 0).value()))))
}

pub open spec fn op_iszero(s: Seq<Word>) -> Seq<Word> {
    op_unary(s, word_bool(nth(s, 0).value() == 0))
}

pub open spec fn op_not(s: Seq<Word>) -> Seq<Word> {
    op_unary(s, w_not(nth(s, 0)))
}

// ---------------------------------------------------------------------------
// Executable state operations
// ---------------------------------------------------------------------------

impl Interpreter {
    /// Big-endian 32-bit value of the code bytes at `i .. i + 4`.
    pub fn code_u32(&self, i: usize) -> (v: u64)
        requires
            i + 4 <= usize::MAX,
        ensures
            v == self@.code_u32(i as int),
    {
        let hi = self.code_u16(i) as u64;
        let lo = self.code_u16(i + 2) as u64;
        hi * 65536 + lo
    }

    /// Charges `cost` gas; `false` (and no change) when not enough is left.
    pub fn record_cost(&mut self, cost: u64) -> (ok: bool)
        ensures
            ok == (old(self).gas >= cost),
            final(self)@ == if ok {
                MachineView { gas: old(self).gas - cost, ..old(self)@ }
            } else {
                old(self)@
            },
    {
        if self.gas >= cost {
            self.gas = self.gas - cost;
            true
        } else {
            false
        }
    }

    /// Grows memory to hold `offset .. offset + 32` and charges for it;
    /// `false`, with the interpreter halted, when the gas does not cover it.
    pub fn expand_memory_for_word(&mut self, offset: usize) -> (ok: bool)
        requires
            old(self).memory.len() % 32 == 0,
        ensures
            final(self)@ == expand_memory(old(self)@, offset + 32),
            ok == !memory_expansion_fails(old(self)@, offset + 32),
            ok ==> final(self).memory.len() % 32 == 0 && offset + 32 <= final(self).memory.len(),
    {
        let len = self.memory.len();
        if offset < len && len - offset >= 32 {
            return true;
        }
        let end: u128 = offset as u128 + 32;
        let words: u128 = (end + 31) / 32;
        let cur: u128 = len as u128 / 32;
        proof {
            assert(words < 0x1000_0000_0000_0000);
            assert(cur <= words);
            assert(cur * cur <= words * words) by (nonlinear_arith)
                requires
                    0 <= cur <= words;
            assert(words * words < 0x100_0000_0000_0000_0000_0000_0000_0000) by (nonlinear_arith)
                requires
                    0 <= words < 0x1000_0000_0000_0000;
            assert(cur * cur / 512 <= words * words / 512) by (nonlinear_arith)
                requires
                    0 <= cur * cur <= words * words;
        }
        let new_cost: u128 = 3 * words + words * words / 512;
        let old_cost: u128 = 3 * cur + cur * cur / 512;
        let cost: u128 = new_cost - old_cost;
        assert(cost == memory_cost(words as int) - memory_cost((len / 32) as int));
        if (self.gas as u128) < cost || words * 32 > usize::MAX as u128 {
            self.halt(InstructionResult::MemoryOOG);
            return false;
        }
        self.gas = self.gas - cost as u64;
        let new_len: usize = (words * 32) as usize;
        let ghost before = self.memory@;
        let ghost start = self@;
        while self.memory.len() < new_len
            invariant
                self@ == (MachineView { memory: self.memory@, ..start }),
                before.len() <= self.memory.len() <= new_len,
                self.memory@.subrange(0, before.len() as int) == before,
                forall|j: int| before.len() <= j < self.memory.len() ==> #[trigger] self.memory@[j] == 0,
            decreases new_len - self.memory.len(),
        {
            self.memory.push(0);
        }
        assert(self.memory@ =~= before + Seq::new((words * 32 - before.len()) as nat, |i: int| 0u8));
        true
    }

    /// Writes the 32 big-endian bytes of `w` from `offset` on.
    pub fn store_word(&mut self, offset: usize, w: Word)
        requires
            offset + 32 <= old(self).memory.len(),
        ensures
            final(self)@ == (MachineView { memory: store_word(old(self)@.memory, offset as int, w), ..old(self)@ }),
    {
        let bytes = word_to_be_bytes(w);
        let ghost before = self.memory@;
        let ghost start = self@;
        let mut k: usize = 0;
        while k < 32
            invariant
                self@ == (MachineView { memory: self.memory@, ..start }),
                k <= 32,
                offset + 32 <= before.len(),
                offset + 32 <= self.memory.len(),
                bytes@ == word_be_bytes(w),
                self.memory@.len() == before.len(),
                forall|j: int| 0 <= j < before.len() ==> #[trigger] self.memory@[j] == (if offset <= j < offset + k {
                    word_be_bytes(w)[j - offset]
                } else {
                    before[j]
                }),
            decreases 32 - k,
        {
            self.memory.set(offset + k, bytes[k]);
            k = k + 1;
        }
        assert(self.memory@ =~= store_word(before, offset as int, w));
    }

    /// Stops the interpreter with `r`.
    pub fn halt(&mut self, r: InstructionResult)
        ensures
            final(self)@ == old(self)@.halt(r),
    {
        self.halted = Some(r);
    }

    /// Code byte at `i`, zero past the end.
    pub fn code_byte(&self, i: usize) -> (b: u8)
        ensures
            b == self@.code_byte(i as int),
    {
        if i < self.code.len() {
            self.code[i]
        } else {
            0
        }
    }

    /// Big-endian 16-bit value of the code bytes at `i` and `i + 1`.
    pub fn code_u16(&self, i: usize) -> (v: u16)
        requires
            i < usize::MAX,
        ensures
            v == self@.code_u16(i as int),
    {
        let hi = self.code_byte(i) as u16;
        let lo = self.code_byte(i + 1) as u16;
        hi * 256 + lo
    }

    /// Whether `dest` is a valid jump destination.
    pub fn is_valid_jump(&self, dest: usize) -> (b: bool)
        ensures
            b == self@.valid_jump(dest as int),
    {
        dest < self.jump_table.len() && self.jump_table[dest]
    }

    /// Jumps to the destination word `w`, or halts with `InvalidJump`.
    pub fn jump_to(&mut self, w: Word)
        ensures
            final(self)@ == old(self)@.jump_to(w),
    {
        match as_usize(w) {
            Some(dest) => {
                if self.is_valid_jump(dest) {
                    self.pc = dest;
                } else {
                    self.halt(InstructionResult::InvalidJump);
                }
            },
            None => {
                self.halt(InstructionResult::InvalidJump);
            },
        }
    }
}

/// The word as a `usize`, when it fits.
pub fn as_usize(w: Word) -> (r: Option<usize>)
    ensures
        match r {
            Some(u) => w.value() <= usize::MAX && u == w.value(),
            None => w.value() > usize::MAX,
        },
{
    if w.l1 != 0 || w.l2 != 0 || w.l3 != 0 {
        proof {
            assert(w.value() >= p64()) by (nonlinear_arith)
                requires
                    w.l1 != 0 || w.l2 != 0 || w.l3 != 0,
                    w.value() == w.l0 + p64() * (w.l1 + p64() * (w.l2 + p64() * w.l3)),
                    p64() == 0x1_0000_0000_0000_0000int,
                    w.l0 >= 0, w.l1 >= 0, w.l2 >= 0, w.l3 >= 0;
        }
        return None;
    }
    if (w.l0 as u128) > (usize::MAX as u128) {
        return None;
    }
    Some(w.l0 as usize)
}

} // verus!
