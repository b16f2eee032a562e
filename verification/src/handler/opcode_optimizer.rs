//! Basic-block analysis and block-wise fusion.
//!
//! The code is cut into basic blocks along its instruction walk.  Fusion
//! then runs separately inside each block that control can enter from
//! outside (the entry block, jump destinations, and fall-through blocks of
//! conditional jumps), and only in blocks free of `INVALID`.

use vstd::prelude::*;
use vstd::std_specs::hash::*;
use std::collections::HashSet;
use crate::bytecode::opcode as op;
use crate::bytecode::opcode_optimizer::FusionError;
use crate::decoding::{
    law_pass_fails_iff_decoding_meets_rejected_byte, lemma_inst_len_plain, lemma_plain_len, lemma_scan_fails_iff,
    meets_optimized, plain_len,
};
use crate::fusion::{
    Dialect, fuse_code, fusion_scan, inst_len, is_optimized, lemma_inst_len_positive,
    lemma_scan_effect, result_view, rewritable, skip_steps, skip_steps_of, step_to, written,
};

verus! {

broadcast use group_hash_axioms;

/// Lower end of the super-instruction range.
pub const MIN_OPTIMIZED_OPCODE: u8 = 0xB0;

/// Upper end of the super-instruction range that this module rejects.
pub const MAX_OPTIMIZED_OPCODE: u8 = 0xD0;

/// Whole-code fusion with the extended rule set: like the pass of the
/// bytecode crate, but with seven more rules, `SNOP` as filler, and
/// rejecting `0xB0..=0xD0`.  It fails exactly when plain decoding of `code`
/// meets a byte in `0xB0..=0xD0` before it meets `INVALID`.
pub fn do_code_fusion(code: &[u8]) -> (r: Result<Vec<u8>, FusionError>)
    ensures
        result_view(r) == fusion_scan(Dialect::Handler, code@, 0),
        r matches Ok(t) ==> {
            &&& t@.len() == code@.len()
            &&& forall|p: int|
                0 <= p < code@.len() ==> #[trigger] t@[p] == code@[p] || (rewritable(code@[p]) && written(
                    Dialect::Handler,
                    t@[p],
                ))
        },
        (forall|p: int| 0 <= p < code@.len() ==> !is_optimized(Dialect::Handler, #[trigger] code@[p]))
            ==> r is Ok,
        r is Err <==> meets_optimized(Dialect::Handler, code@, 0),
{
    proof {
        lemma_scan_effect(Dialect::Handler, code@, 0);
        law_pass_fails_iff_decoding_meets_rejected_byte(Dialect::Handler, code@);
    }
    fuse_code(code, Dialect::Handler)
}

/// Number of bytes to step over after the opcode at `cur`.
pub fn calculate_skip_steps(code: &[u8], cur: usize) -> (r: Option<usize>)
    requires
        cur < code.len(),
    ensures
        match r {
            Some(n) => skip_steps(Dialect::Handler, code@[cur as int]) == Some(n as int),
            None => skip_steps(Dialect::Handler, code@[cur as int]) is None,
        },
{
    skip_steps_of(Dialect::Handler, code[cur])
}

pub open spec fn spec_is_block_terminator(b: u8) -> bool {
    b == op::STOP || b == op::RETURN || b == op::REVERT || b == op::SELFDESTRUCT || b == op::JUMP
        || b == op::JUMPI
}

/// Whether the opcode ends a basic block.
pub fn is_block_terminator(b: u8) -> (r: bool)
    ensures
        r == spec_is_block_terminator(b),
{
    b == op::STOP || b == op::RETURN || b == op::REVERT || b == op::SELFDESTRUCT || b == op::JUMP
        || b == op::JUMPI
}

// ---------------------------------------------------------------------------
// The instruction walk
// ---------------------------------------------------------------------------

/// Start of the instruction after the one at `pc` (the end of the code if
/// its immediates run past it).
pub open spec fn next_pc(code: Seq<u8>, pc: int) -> int {
    step_to(pc, inst_len(Dialect::Handler, code[pc]), code.len() as int)
}

/// Whether the walk that starts at `from` visits `p`.
pub open spec fn reaches(code: Seq<u8>, from: int, p: int) -> bool
    decreases code.len() - from,
{
    if from < 0 || from >= code.len() || from > p {
        false
    } else if from == p {
        true
    } else {
        proof {
            lemma_inst_len_positive(Dialect::Handler, code[from]);
        }
        reaches(code, next_pc(code, from), p)
    }
}

/// `p` starts an instruction of `code`.
pub open spec fn is_inst_start(code: Seq<u8>, p: int) -> bool {
    reaches(code, 0, p)
}

pub proof fn lemma_next_pc(code: Seq<u8>, pc: int)
    requires
        0 <= pc < code.len(),
    ensures
        pc < next_pc(code, pc) <= code.len(),
{
    lemma_inst_len_positive(Dialect::Handler, code[pc]);
}

pub proof fn lemma_reach_trans(code: Seq<u8>, a: int, b: int, c: int)
    requires
        reaches(code, a, b),
        reaches(code, b, c),
    ensures
        reaches(code, a, c),
    decreases code.len() - a,
{
    if a != b {
        lemma_next_pc(code, a);
        lemma_reach_trans(code, next_pc(code, a), b, c);
    }
}

pub proof fn lemma_reach_split(code: Seq<u8>, a: int, b: int, p: int)
    requires
        reaches(code, a, b),
        reaches(code, a, p),
        b <= p,
    ensures
        reaches(code, b, p),
    decreases code.len() - a,
{
    if a != b {
        lemma_next_pc(code, a);
        lemma_reach_split(code, next_pc(code, a), b, p);
    }
}

/// Positions strictly inside an instruction are not instruction starts.
pub proof fn lemma_reach_gap(code: Seq<u8>, pc: int, p: int)
    requires
        is_inst_start(code, pc),
        pc < p < next_pc(code, pc),
    ensures
        !is_inst_start(code, p),
{
    lemma_next_pc(code, pc);
    if is_inst_start(code, p) {
        lemma_reach_split(code, 0, pc, p);
        assert(reaches(code, pc, p) == reaches(code, next_pc(code, pc), p));
    }
}

/// The walk from an instruction start reaches the next one.
pub proof fn lemma_reach_next(code: Seq<u8>, pc: int)
    requires
        is_inst_start(code, pc),
        next_pc(code, pc) < code.len(),
    ensures
        is_inst_start(code, next_pc(code, pc)),
{
    lemma_next_pc(code, pc);
    let n = next_pc(code, pc);
    assert(reaches(code, n, n));
    assert(reaches(code, pc, n));
    lemma_reach_trans(code, 0, pc, n);
}

// ---------------------------------------------------------------------------
// Basic blocks
// ---------------------------------------------------------------------------

/// Starts of the basic blocks among the instructions from `pc` on, where
/// `fresh` says that a block must start at `pc` (at the start of the code,
/// and after a terminator).  A block also starts at every `INVALID` and
/// every `JUMPDEST` instruction.
pub open spec fn cuts_from(code: Seq<u8>, pc: int, fresh: bool) -> Seq<int>
    decreases code.len() - pc,
{
    if pc < 0 || pc >= code.len() {
        seq![]
    } else {
        let b = code[pc];
        proof {
            lemma_next_pc(code, pc);
        }
        let rest = cuts_from(code, next_pc(code, pc), spec_is_block_terminator(b));
        if fresh || b == op::INVALID || b == op::JUMPDEST {
            seq![pc] + rest
        } else {
            rest
        }
    }
}

/// Starts of all basic blocks of `code`, in increasing order.
pub open spec fn block_starts(code: Seq<u8>) -> Seq<int> {
    cuts_from(code, 0, true)
}

/// A basic block as a value.
pub struct BlockView {
    pub start_pc: int,
    pub end_pc: int,
    pub opcodes: Seq<u8>,
    pub is_jump_dest: bool,
}

pub open spec fn block_at(code: Seq<u8>, start: int, end: int) -> BlockView {
    BlockView {
        start_pc: start,
        end_pc: end,
        opcodes: code.subrange(start, end),
        is_jump_dest: code[start] == op::JUMPDEST,
    }
}

/// End of the `k`-th block: the start of the next one, or the end of code.
pub open spec fn block_end(code: Seq<u8>, k: int) -> int {
    let c = block_starts(code);
    if k + 1 < c.len() {
        c[k + 1]
    } else {
        code.len() as int
    }
}

/// The basic blocks of `code`.
pub open spec fn basic_blocks(code: Seq<u8>) -> Seq<BlockView> {
    Seq::new(block_starts(code).len(), |k: int| block_at(code, block_starts(code)[k], block_end(code, k)))
}

pub proof fn lemma_cuts_from(code: Seq<u8>, pc: int, fresh: bool)
    requires
        0 <= pc,
    ensures
        forall|k: int| 0 <= k < cuts_from(code, pc, fresh).len() ==> {
            &&& pc <= #[trigger] cuts_from(code, pc, fresh)[k] < code.len()
            &&& reaches(code, pc, cuts_from(code, pc, fresh)[k])
        },
        forall|k: int|
            0 <= k < cuts_from(code, pc, fresh).len() - 1 ==> #[trigger] cuts_from(code, pc, fresh)[k]
                < cuts_from(code, pc, fresh)[k + 1],
        fresh && pc < code.len() ==> cuts_from(code, pc, fresh).len() >= 1 && cuts_from(code, pc, fresh)[0]
            == pc,
    decreases code.len() - pc,
{
    if pc < code.len() {
        lemma_next_pc(code, pc);
        let n = next_pc(code, pc);
        let b = code[pc];
        lemma_cuts_from(code, n, spec_is_block_terminator(b));
        let rest = cuts_from(code, n, spec_is_block_terminator(b));
        assert forall|k: int| 0 <= k < rest.len() implies reaches(code, pc, #[trigger] rest[k]) by {
            assert(reaches(code, pc, rest[k]) == reaches(code, n, rest[k]));
        }
        assert(reaches(code, pc, pc));
    }
}

/// The basic blocks partition the code: the first starts at 0, each ends
/// where the next starts, the last ends at the end of the code, none is
/// empty, each holds exactly its bytes of the code, each starts on an
/// instruction, and a block is marked as a jump destination exactly when
/// it starts with `JUMPDEST`.
pub proof fn law_blocks_partition(code: Seq<u8>)
    ensures
        (basic_blocks(code).len() == 0) == (code.len() == 0),
        code.len() > 0 ==> basic_blocks(code)[0].start_pc == 0,
        code.len() > 0 ==> basic_blocks(code).last().end_pc == code.len(),
        forall|k: int|
            0 <= k < basic_blocks(code).len() - 1 ==> (#[trigger] basic_blocks(code)[k]).end_pc
                == basic_blocks(code)[k + 1].start_pc,
        forall|k: int|
            0 <= k < basic_blocks(code).len() ==> {
                let b = #[trigger] basic_blocks(code)[k];
                &&& 0 <= b.start_pc < b.end_pc <= code.len()
                &&& b.opcodes == code.subrange(b.start_pc, b.end_pc)
                &&& b.is_jump_dest == (code[b.start_pc] == op::JUMPDEST)
                &&& is_inst_start(code, b.start_pc)
            },
{
    lemma_cuts_from(code, 0, true);
}

/// Whether, among the instructions from `pc` on, a block starts at `p`:
/// `p` is an instruction, and it is `pc` where `fresh` says so, or a
/// `JUMPDEST` or `INVALID`, or it follows a terminator.
pub open spec fn cut_at(code: Seq<u8>, pc: int, fresh: bool, p: int) -> bool {
    &&& reaches(code, pc, p)
    &&& {
        ||| p == pc && fresh
        ||| code[p] == op::JUMPDEST
        ||| code[p] == op::INVALID
        ||| exists|q: int|
            #![trigger next_pc(code, q)]
            reaches(code, pc, q) && next_pc(code, q) == p && spec_is_block_terminator(code[q])
    }
}

/// Whether a basic block of `code` starts at `p`: `p` starts an
/// instruction, and it is the first byte of the code, a `JUMPDEST`, an
/// `INVALID`, or the instruction after a terminator.
pub open spec fn starts_block(code: Seq<u8>, p: int) -> bool {
    cut_at(code, 0, true, p)
}

proof fn lemma_reaches_bounds(code: Seq<u8>, a: int, p: int)
    requires
        reaches(code, a, p),
    ensures
        0 <= a <= p < code.len(),
    decreases code.len() - a,
{
    if a != p {
        lemma_next_pc(code, a);
        lemma_reaches_bounds(code, next_pc(code, a), p);
    }
}

proof fn lemma_cuts_from_members(code: Seq<u8>, pc: int, fresh: bool, p: int)
    requires
        0 <= pc,
    ensures
        cuts_from(code, pc, fresh).contains(p) <==> cut_at(code, pc, fresh, p),
    decreases code.len() - pc,
{
    if pc < code.len() {
        lemma_next_pc(code, pc);
        let n = next_pc(code, pc);
        let b = code[pc];
        let rest = cuts_from(code, n, spec_is_block_terminator(b));
        lemma_cuts_from_members(code, n, spec_is_block_terminator(b), p);
        let head = fresh || b == op::INVALID || b == op::JUMPDEST;
        assert(cuts_from(code, pc, fresh) == if head { seq![pc] + rest } else { rest });
        if p != pc {
            assert(reaches(code, pc, p) == reaches(code, n, p));
            if cut_at(code, pc, fresh, p) && !(code[p] == op::JUMPDEST || code[p] == op::INVALID) {
                let q = choose|q: int|
                    #![trigger next_pc(code, q)]
                    reaches(code, pc, q) && next_pc(code, q) == p && spec_is_block_terminator(code[q]);
                if q != pc {
                    assert(reaches(code, pc, q) == reaches(code, n, q));
                }
            }
            if cut_at(code, n, spec_is_block_terminator(b), p) && !(code[p] == op::JUMPDEST || code[p]
                == op::INVALID) {
                if !(p == n && spec_is_block_terminator(b)) {
                    let q = choose|q: int|
                        #![trigger next_pc(code, q)]
                        reaches(code, n, q) && next_pc(code, q) == p && spec_is_block_terminator(code[q]);
                    lemma_reaches_bounds(code, n, q);
                    assert(reaches(code, pc, q) == reaches(code, n, q));
                } else {
                    assert(reaches(code, pc, pc));
                }
            }
            if head {
                assert(rest.contains(p) ==> (seq![pc] + rest).contains(p)) by {
                    if rest.contains(p) {
                        let j = choose|j: int| 0 <= j < rest.len() && rest[j] == p;
                        assert((seq![pc] + rest)[j + 1] == p);
                    }
                }
                assert((seq![pc] + rest).contains(p) ==> rest.contains(p)) by {
                    if (seq![pc] + rest).contains(p) {
                        let j = choose|j: int| 0 <= j < (seq![pc] + rest).len() && (seq![pc] + rest)[j] == p;
                        assert(rest[j - 1] == p);
                    }
                }
            }
        } else {
            assert(reaches(code, pc, pc));
            lemma_cuts_from(code, n, spec_is_block_terminator(b));
            if cut_at(code, pc, fresh, p) && !head {
                if !(code[p] == op::JUMPDEST || code[p] == op::INVALID) {
                    let q = choose|q: int|
                        #![trigger next_pc(code, q)]
                        reaches(code, pc, q) && next_pc(code, q) == p && spec_is_block_terminator(code[q]);
                    lemma_reaches_bounds(code, pc, q);
                    lemma_next_pc(code, q);
                }
            }
            if head {
                assert((seq![pc] + rest)[0] == pc);
            } else if rest.contains(pc) {
                let j = choose|j: int| 0 <= j < rest.len() && rest[j] == pc;
                assert(false);
            }
        }
    }
}

/// The basic blocks start exactly at the first byte of the code, at each
/// instruction that is `JUMPDEST` or `INVALID`, and at each instruction
/// that follows a terminator (`STOP`, `JUMP`, `JUMPI`, `RETURN`, `REVERT`,
/// `SELFDESTRUCT`); instructions are those of the walk from the first byte
/// that steps over immediates.
pub proof fn law_block_starts(code: Seq<u8>, p: int)
    ensures
        (exists|k: int| 0 <= k < basic_blocks(code).len() && #[trigger] basic_blocks(code)[k].start_pc == p)
            <==> starts_block(code, p),
{
    let c = block_starts(code);
    lemma_cuts_from_members(code, 0, true, p);
    if c.contains(p) {
        let k = choose|k: int| 0 <= k < c.len() && c[k] == p;
        assert(basic_blocks(code)[k].start_pc == p);
    }
    if exists|k: int| 0 <= k < basic_blocks(code).len() && #[trigger] basic_blocks(code)[k].start_pc == p {
        let k = choose|k: int| 0 <= k < basic_blocks(code).len() && #[trigger] basic_blocks(code)[k].start_pc == p;
        assert(c[k] == p);
    }
}

proof fn lemma_starts_increasing(code: Seq<u8>, a: int, b: int)
    requires
        0 <= a < b < block_starts(code).len(),
    ensures
        block_starts(code)[a] < block_starts(code)[b],
    decreases b - a,
{
    lemma_cuts_from(code, 0, true);
    assert(block_starts(code)[b - 1] < block_starts(code)[b]);
    if a < b - 1 {
        lemma_starts_increasing(code, a, b - 1);
    }
}

/// Control enters a basic block only at its start and leaves it only at
/// its end: no instruction after a block's first one is a `JUMPDEST` or an
/// `INVALID`, and none but its last is a terminator.
pub proof fn law_block_interior(code: Seq<u8>, k: int, p: int)
    requires
        0 <= k < basic_blocks(code).len(),
        basic_blocks(code)[k].start_pc < p < basic_blocks(code)[k].end_pc,
        is_inst_start(code, p),
    ensures
        code[p] != op::JUMPDEST,
        code[p] != op::INVALID,
        forall|q: int| is_inst_start(code, q) && next_pc(code, q) == p ==> !spec_is_block_terminator(code[q]),
{
    let c = block_starts(code);
    law_block_starts(code, p);
    lemma_cuts_from(code, 0, true);
    if starts_block(code, p) {
        let j = choose|j: int| 0 <= j < basic_blocks(code).len() && #[trigger] basic_blocks(code)[j].start_pc == p;
        assert(c[j] == p && c[k] < p);
        if j < k {
            lemma_starts_increasing(code, j, k);
        } else if j > k + 1 {
            lemma_starts_increasing(code, k + 1, j);
        }
        assert(false);
    }
    assert forall|q: int| is_inst_start(code, q) && next_pc(code, q) == p implies !spec_is_block_terminator(
        code[q],
    ) by {
        if spec_is_block_terminator(code[q]) {
            assert(exists|q2: int|
                #![trigger next_pc(code, q2)]
                reaches(code, 0, q2) && next_pc(code, q2) == p && spec_is_block_terminator(code[q2]));
        }
    }
}

/// A run of instructions that control enters only at its start and leaves
/// only at its end.
#[derive(Debug)]
pub struct BasicBlock {
    /// First byte of the block.
    pub start_pc: usize,
    /// One past the last byte of the block.
    pub end_pc: usize,
    /// The bytes of the block.
    pub opcodes: Vec<u8>,
    /// Whether the block starts with `JUMPDEST`.
    pub is_jump_dest: bool,
}

impl View for BasicBlock {
    type V = BlockView;

    open spec fn view(&self) -> BlockView {
        BlockView {
            start_pc: self.start_pc as int,
            end_pc: self.end_pc as int,
            opcodes: self.opcodes@,
            is_jump_dest: self.is_jump_dest,
        }
    }
}

impl BasicBlock {
    /// Cuts `code` into its basic blocks.
    pub fn generate(code: &[u8]) -> (blocks: Vec<BasicBlock>)
        ensures
            blocks.len() == basic_blocks(code@).len(),
            forall|k: int| 0 <= k < blocks.len() ==> (#[trigger] blocks[k])@ == basic_blocks(code@)[k],
    {
        if code.len() == 0 {
            return Vec::new();
        }
        // First pass: the JUMPDEST instructions.

        let mut jump_dests: HashSet<usize> = HashSet::new();
        let mut pc: usize = 0;
        assert(is_inst_start(code@, 0));
        while pc < code.len()
            invariant
                pc <= code.len(),
                pc < code.len() ==> is_inst_start(code@, pc as int),
                forall|p: usize|
                    jump_dests@.contains(p) <==> (p < pc && is_inst_start(code@, p as int) && code@[p as int]
                        == op::JUMPDEST),
            decreases code.len() - pc,
        {
            let b = code[pc];
            let step: usize = match calculate_skip_steps(code, pc) {
                Some(skip) => 1 + skip,
                None => 1,
            };
            let npc = if step > code.len() - pc {
                code.len()
            } else {
                pc + step
            };
            proof {
                assert(npc == next_pc(code@, pc as int));
                if npc < code.len() {
                    lemma_reach_next(code@, pc as int);
                }
                assert forall|p: usize| pc < p < npc implies !is_inst_start(code@, p as int) by {
                    lemma_reach_gap(code@, pc as int, p as int);
                }
            }
            if b == op::JUMPDEST {
                jump_dests.insert(pc);
            }
            pc = npc;
        }
        // Second pass: the blocks.

        let mut blocks: Vec<BasicBlock> = Vec::new();
        let mut open = false;
        let mut cur = BasicBlock { start_pc: 0, end_pc: 0, opcodes: Vec::new(), is_jump_dest: false };
        let ghost mut cuts: Seq<int> = seq![];
        let ghost mut fresh: bool = true;
        pc = 0;
        while pc < code.len()
            invariant
                pc <= code.len(),
                pc < code.len() ==> is_inst_start(code@, pc as int),
                forall|p: usize|
                    jump_dests@.contains(p) <==> (p < code.len() && is_inst_start(code@, p as int)
                        && code@[p as int] == op::JUMPDEST),
                block_starts(code@) == cuts + cuts_from(code@, pc as int, fresh),
                forall|k: int| 0 <= k < cuts.len() ==> 0 <= #[trigger] cuts[k] < pc,
                forall|k: int| 0 <= k < cuts.len() - 1 ==> #[trigger] cuts[k] < cuts[k + 1],
                open ==> {
                    &&& cuts.len() >= 1
                    &&& blocks.len() + 1 == cuts.len()
                    &&& cur.start_pc == cuts.last()
                    &&& cuts.last() < pc
                    &&& cur.opcodes@ == code@.subrange(cuts.last(), pc as int)
                    &&& cur.is_jump_dest == (code@[cuts.last()] == op::JUMPDEST)
                    &&& !fresh
                },
                !open ==> {
                    &&& blocks.len() == cuts.len()
                    &&& fresh
                    &&& (cuts.len() == 0 ==> pc == 0)
                },
                forall|k: int|
                    0 <= k < blocks.len() ==> (#[trigger] blocks[k])@ == block_at(
                        code@,
                        cuts[k],
                        if k + 1 < cuts.len() {
                            cuts[k + 1]
                        } else {
                            pc as int
                        },
                    ),
            decreases code.len() - pc,
        {
            let b = code[pc];
            proof {
                lemma_next_pc(code@, pc as int);
            }
            let ghost cuts0 = cuts;
            let ghost blocks0 = blocks@;
            if b == op::INVALID || jump_dests.contains(&pc) {
                if open {
                    cur.end_pc = pc;
                    blocks.push(cur);
                }
                cur = BasicBlock { start_pc: pc, end_pc: 0, opcodes: Vec::new(), is_jump_dest: b == op::JUMPDEST };
                open = true;
                proof {
                    cuts = cuts + seq![pc as int];
                }
            } else if !open {
                cur = BasicBlock { start_pc: pc, end_pc: 0, opcodes: Vec::new(), is_jump_dest: b == op::JUMPDEST };
                open = true;
                proof {
                    cuts = cuts + seq![pc as int];
                }
            }
            let step: usize = match calculate_skip_steps(code, pc) {
                Some(skip) => 1 + skip,
                None => 1,
            };
            let bounded = if step > code.len() - pc {
                code.len() - pc
            } else {
                step
            };
            let ghost ops0 = cur.opcodes@;
            cur.opcodes.extend_from_slice(vstd::slice::slice_subrange(code, pc, pc + bounded));
            proof {
                assert(cur.opcodes@ =~= code@.subrange(cuts.last(), pc + bounded));
            }
            pc = pc + bounded;
            proof {
                fresh = spec_is_block_terminator(b);
                if pc < code.len() {
                    lemma_reach_next(code@, (pc - bounded) as int);
                }
            }
            if is_block_terminator(b) {
                cur.end_pc = pc;
                blocks.push(cur);
                cur = BasicBlock { start_pc: 0, end_pc: 0, opcodes: Vec::new(), is_jump_dest: false };
                open = false;
            }
        }
        if open {
            cur.end_pc = pc;
            blocks.push(cur);
        }
        proof {
            assert(cuts_from(code@, pc as int, fresh) =~= seq![]);
            assert(block_starts(code@) =~= cuts);
        }
        blocks
    }
}


// ---------------------------------------------------------------------------
// Block-wise fusion
// ---------------------------------------------------------------------------

/// How control can enter a basic block.
#[derive(Clone, Copy, Debug, PartialEq, Eq, Structural)]
pub enum BlockType {
    Empty,
    EntryBB,
    JumpDest,
    ConditionalFallthrough,
    Others,
}

/// The type of block `b` whose predecessor in the block list is `prev`.
pub open spec fn block_type(b: BlockView, prev: Option<BlockView>) -> BlockType {
    if b.opcodes.len() == 0 {
        BlockType::Empty
    } else if b.start_pc == 0 {
        BlockType::EntryBB
    } else if b.is_jump_dest {
        BlockType::JumpDest
    } else if prev matches Some(p) && p.opcodes.len() > 0 && p.opcodes.last() == op::JUMPI {
        BlockType::ConditionalFallthrough
    } else {
        BlockType::Others
    }
}

pub open spec fn prev_block(blocks: Seq<BlockView>, index: int) -> Option<BlockView> {
    if index > 0 {
        Some(blocks[index - 1])
    } else {
        None
    }
}

/// Classifies `block`, the entry at `index` of `blocks`.
pub fn get_block_type(block: &BasicBlock, blocks: &[BasicBlock], index: usize) -> (t: BlockType)
    requires
        index == 0 || index - 1 < blocks@.len(),
    ensures
        t == block_type(block@, if index > 0 { Some(blocks@[index - 1]@) } else { None }),
{
    if block.opcodes.len() == 0 {
        return BlockType::Empty;
    }
    if block.start_pc == 0 {
        return BlockType::EntryBB;
    }
    if block.is_jump_dest {
        return BlockType::JumpDest;
    }
    if index > 0 {
        let prev = &blocks[index - 1];
        let n = prev.opcodes.len();
        if n > 0 && prev.opcodes[n - 1] == op::JUMPI {
            return BlockType::ConditionalFallthrough;
        }
    }
    BlockType::Others
}

/// Whether the instruction walk from `pc`, before `end`, meets a byte with
/// property `target`.
pub open spec fn walk_hits(code: Seq<u8>, pc: int, end: int, target: spec_fn(u8) -> bool) -> bool
    decreases code.len() - pc,
{
    if pc < 0 || pc >= end || pc >= code.len() {
        false
    } else if target(code[pc]) {
        true
    } else {
        proof {
            lemma_next_pc(code, pc);
        }
        walk_hits(code, next_pc(code, pc), end, target)
    }
}

/// `code` after fusing the bytes of block `b` in place, or the failure.
pub open spec fn fuse_block_result(code: Seq<u8>, b: BlockView) -> Result<Seq<u8>, FusionError> {
    let start = b.start_pc;
    let end = if b.end_pc < code.len() {
        b.end_pc
    } else {
        code.len() as int
    };
    if start >= end {
        Ok(code)
    } else {
        match fusion_scan(Dialect::Handler, code.subrange(start, end), 0) {
            Ok(t) => Ok(code.subrange(0, start) + t + code.subrange(end, code.len() as int)),
            Err(e) => Err(e),
        }
    }
}

/// Runs the handler fusion on the bytes of `block` inside `code`.  On
/// failure `code` is left as it was.
pub fn fuse_block(code: &mut Vec<u8>, block: &BasicBlock) -> (r: Result<(), FusionError>)
    requires
        0 <= block.start_pc,
    ensures
        match r {
            Ok(()) => fuse_block_result(old(code)@, block@) == Ok::<Seq<u8>, FusionError>(final(code)@),
            Err(e) => fuse_block_result(old(code)@, block@) == Err::<Seq<u8>, FusionError>(e)
                && final(code)@ == old(code)@,
        },
{
    let start = block.start_pc;
    let end = if block.end_pc < code.len() {
        block.end_pc
    } else {
        code.len()
    };
    if start >= end {
        return Ok(());
    }
    let fused_slice = match do_code_fusion(vstd::slice::slice_subrange(code.as_slice(), start, end)) {
        Ok(v) => v,
        Err(e) => return Err(e),
    };
    let ghost c0 = code@;
    let mut j: usize = 0;
    while j < fused_slice.len()
        invariant
            start < end <= c0.len(),
            fused_slice@.len() == end - start,
            j <= fused_slice.len(),
            code@.len() == c0.len(),
            forall|p: int| 0 <= p < start ==> code@[p] == c0[p],
            forall|p: int| end <= p < c0.len() ==> code@[p] == c0[p],
            forall|p: int| start + j <= p < end ==> code@[p] == c0[p],
            forall|p: int| start <= p < start + j ==> code@[p] == fused_slice@[p - start],
        decreases fused_slice.len() - j,
    {
        code.set(start + j, fused_slice[j]);
        j += 1;
    }
    assert(code@ =~= c0.subrange(0, start as int) + fused_slice@ + c0.subrange(end as int, c0.len() as int));
    Ok(())
}

pub open spec fn hits_optimized(b: u8) -> bool {
    is_optimized(Dialect::Handler, b)
}

pub open spec fn hits_invalid(b: u8) -> bool {
    b == op::INVALID
}

/// Block-wise fusion over `blocks[k..]`, starting from the code `acc`: a
/// block whose walk meets a byte of `0xB0..=0xD0` fails the whole pass,
/// whatever its type; otherwise blocks of type `Others` are skipped, a
/// block whose walk meets `INVALID` is skipped, and every other block is
/// fused in place.
pub open spec fn fuse_blocks_from(code: Seq<u8>, blocks: Seq<BlockView>, k: int, acc: Seq<u8>) -> Result<
    Seq<u8>,
    FusionError,
>
    decreases blocks.len() - k,
{
    if k < 0 || k >= blocks.len() {
        Ok(acc)
    } else {
        let b = blocks[k];
        if walk_hits(code, b.start_pc, b.end_pc, |x: u8| hits_optimized(x)) {
            Err(FusionError::FailPreprocessing)
        } else if block_type(b, prev_block(blocks, k)) == BlockType::Others {
            fuse_blocks_from(code, blocks, k + 1, acc)
        } else if walk_hits(code, b.start_pc, b.end_pc, |x: u8| hits_invalid(x)) {
            fuse_blocks_from(code, blocks, k + 1, acc)
        } else {
            match fuse_block_result(acc, b) {
                Ok(a) => fuse_blocks_from(code, blocks, k + 1, a),
                Err(e) => Err(e),
            }
        }
    }
}

/// Result of the block-wise fusion of `code`.
pub open spec fn block_fusion(code: Seq<u8>) -> Result<Seq<u8>, FusionError> {
    if basic_blocks(code).len() == 0 {
        Err(FusionError::FailPreprocessing)
    } else {
        fuse_blocks_from(code, basic_blocks(code), 0, code)
    }
}

/// Whether the walk from `pc` before `end` meets a byte with property
/// `target` (executable form of `walk_hits` for the two properties used).
fn block_walk_hits(code: &[u8], start: usize, end: usize, want_invalid: bool) -> (r: bool)
    ensures
        r == if want_invalid {
            walk_hits(code@, start as int, end as int, |x: u8| hits_invalid(x))
        } else {
            walk_hits(code@, start as int, end as int, |x: u8| hits_optimized(x))
        },
{
    let ghost target: spec_fn(u8) -> bool = if want_invalid {
        |x: u8| hits_invalid(x)
    } else {
        |x: u8| hits_optimized(x)
    };
    let mut pc = start;
    while pc < end && pc < code.len()
        invariant
            target == if want_invalid {
                |x: u8| hits_invalid(x)
            } else {
                |x: u8| hits_optimized(x)
            },
            start <= pc,
            walk_hits(code@, start as int, end as int, target) == walk_hits(code@, pc as int, end as int, target),
        decreases code.len() - pc,
    {
        let b = code[pc];
        let hit = if want_invalid {
            b == op::INVALID
        } else {
            MIN_OPTIMIZED_OPCODE <= b && b <= MAX_OPTIMIZED_OPCODE
        };
        assert(hit == target(b));
        if hit {
            return true;
        }
        let step: usize = match calculate_skip_steps(code, pc) {
            Some(skip) => 1 + skip,
            None => 1,
        };
        pc = if step > code.len() - pc {
            code.len()
        } else {
            pc + step
        };
    }
    false
}

/// Fuses the code block by block; see `fuse_blocks_from`.  Empty code
/// fails with `FailPreprocessing`.  The result keeps the length of the code,
/// changes only opcodes that some rule names (into super-instructions or
/// `SNOP`), and exists for every non-empty code free of `0xB0..=0xD0`.
pub fn do_basic_block_opcode_fusion(code: &[u8]) -> (r: Result<Vec<u8>, FusionError>)
    ensures
        result_view(r) == block_fusion(code@),
        r matches Ok(t) ==> {
            &&& t@.len() == code@.len()
            &&& forall|p: int|
                0 <= p < code@.len() ==> #[trigger] t@[p] == code@[p] || (rewritable(code@[p]) && written(
                    Dialect::Handler,
                    t@[p],
                ))
        },
        code@.len() > 0 && (forall|p: int|
            0 <= p < code@.len() ==> !is_optimized(Dialect::Handler, #[trigger] code@[p])) ==> r is Ok,
{
    proof {
        law_block_fusion_effect(code@);
    }
    let blocks = BasicBlock::generate(code);
    if blocks.len() == 0 {
        return Err(FusionError::FailPreprocessing);
    }
    let ghost bv = basic_blocks(code@);
    let mut fused_code = vstd::slice::slice_to_vec(code);
    let mut idx: usize = 0;
    proof {
        law_blocks_partition(code@);
    }
    while idx < blocks.len()
        invariant
            blocks.len() == bv.len(),
            bv == basic_blocks(code@),
            forall|k: int| 0 <= k < blocks.len() ==> (#[trigger] blocks[k])@ == bv[k],
            idx <= blocks.len(),
            fuse_blocks_from(code@, bv, 0, code@) == fuse_blocks_from(code@, bv, idx as int, fused_code@),
        decreases blocks.len() - idx,
    {
        proof {
            law_block_fusion_effect(code@);
        }
        let block = &blocks[idx];
        let ty = get_block_type(block, blocks.as_slice(), idx);
        assert(prev_block(bv, idx as int) == if idx > 0 { Some(blocks@[idx - 1]@) } else { None::<BlockView> });
        if block_walk_hits(code, block.start_pc, block.end_pc, false) {
            return Err(FusionError::FailPreprocessing);
        }
        if ty == BlockType::Others {
            idx += 1;
            continue;
        }
        if block_walk_hits(code, block.start_pc, block.end_pc, true) {
            idx += 1;
            continue;
        }
        match fuse_block(&mut fused_code, block) {
            Ok(()) => {},
            Err(e) => return Err(e),
        }
        idx += 1;
    }
    Ok(fused_code)
}


pub proof fn lemma_walk_hits_witness(code: Seq<u8>, pc: int, end: int, target: spec_fn(u8) -> bool)
    requires
        walk_hits(code, pc, end, target),
    ensures
        exists|p: int| 0 <= pc <= p < code.len() && p < end && target(#[trigger] code[p]),
    decreases code.len() - pc,
{
    if !target(code[pc]) {
        lemma_next_pc(code, pc);
        lemma_walk_hits_witness(code, next_pc(code, pc), end, target);
    }
}

pub proof fn lemma_fuse_block_effect(acc: Seq<u8>, b: BlockView)
    requires
        0 <= b.start_pc,
    ensures
        fuse_block_result(acc, b) matches Ok(a) ==> {
            &&& a.len() == acc.len()
            &&& forall|p: int|
                0 <= p < acc.len() ==> #[trigger] a[p] == acc[p] || (b.start_pc <= p < b.end_pc && rewritable(acc[p])
                    && written(Dialect::Handler, a[p]))
        },
        fuse_block_result(acc, b) is Err ==> exists|p: int|
            b.start_pc <= p < b.end_pc && p < acc.len() && is_optimized(Dialect::Handler, #[trigger] acc[p]),
{
    let start = b.start_pc;
    let end = if b.end_pc < acc.len() {
        b.end_pc
    } else {
        acc.len() as int
    };
    if start < end {
        let sl = acc.subrange(start, end);
        lemma_scan_effect(Dialect::Handler, sl, 0);
        if let Ok(t) = fusion_scan(Dialect::Handler, sl, 0) {
            let a = acc.subrange(0, start) + t + acc.subrange(end, acc.len() as int);
            assert forall|p: int| 0 <= p < acc.len() implies #[trigger] a[p] == acc[p] || (start <= p < b.end_pc
                && rewritable(acc[p]) && written(Dialect::Handler, a[p])) by {
                if start <= p < end {
                    assert(a[p] == t[p - start]);
                    assert(sl[p - start] == acc[p]);
                }
            }
        } else {
            let q = choose|q: int| 0 <= 0 <= q < sl.len() && is_optimized(Dialect::Handler, #[trigger] sl[q]);
            assert(sl[q] == acc[start + q]);
        }
    }
}

pub proof fn lemma_fuse_blocks_from(code: Seq<u8>, k: int, acc: Seq<u8>)
    requires
        0 <= k,
        acc.len() == code.len(),
        forall|p: int|
            0 <= p < code.len() ==> #[trigger] acc[p] == code[p] || (rewritable(code[p]) && written(
                Dialect::Handler,
                acc[p],
            )),
        k < basic_blocks(code).len() ==> forall|p: int|
            basic_blocks(code)[k].start_pc <= p < code.len() ==> #[trigger] acc[p] == code[p],
    ensures
        fuse_blocks_from(code, basic_blocks(code), k, acc) matches Ok(t) ==> {
            &&& t.len() == code.len()
            &&& forall|p: int|
                0 <= p < code.len() ==> #[trigger] t[p] == code[p] || (rewritable(code[p]) && written(
                    Dialect::Handler,
                    t[p],
                ))
        },
        fuse_blocks_from(code, basic_blocks(code), k, acc) is Err ==> exists|p: int|
            0 <= p < code.len() && is_optimized(Dialect::Handler, #[trigger] code[p]),
    decreases basic_blocks(code).len() - k,
{
    let bs = basic_blocks(code);
    law_blocks_partition(code);
    if k < bs.len() {
        let b = bs[k];
        let next_ok = k + 1 < bs.len() ==> forall|p: int| bs[k + 1].start_pc <= p < code.len() ==> #[trigger] acc[p] == code[p];
        assert(next_ok);
        if walk_hits(code, b.start_pc, b.end_pc, |x: u8| hits_optimized(x)) {
            lemma_walk_hits_witness(code, b.start_pc, b.end_pc, |x: u8| hits_optimized(x));
        } else if block_type(b, prev_block(bs, k)) == BlockType::Others {
            lemma_fuse_blocks_from(code, k + 1, acc);
        } else if walk_hits(code, b.start_pc, b.end_pc, |x: u8| hits_invalid(x)) {
            lemma_fuse_blocks_from(code, k + 1, acc);
        } else {
            lemma_fuse_block_effect(acc, b);
            match fuse_block_result(acc, b) {
                Ok(a) => {
                    assert forall|p: int| 0 <= p < code.len() implies #[trigger] a[p] == code[p] || (rewritable(code[p])
                        && written(Dialect::Handler, a[p])) by {
                        if a[p] != acc[p] {
                            assert(b.start_pc <= p);
                            assert(acc[p] == code[p]);
                        }
                    }
                    if k + 1 < bs.len() {
                        assert forall|p: int| bs[k + 1].start_pc <= p < code.len() implies #[trigger] a[p] == code[p] by {
                            assert(a[p] == acc[p]);
                        }
                    }
                    lemma_fuse_blocks_from(code, k + 1, a);
                },
                Err(e) => {
                    let p = choose|p: int|
                        b.start_pc <= p < b.end_pc && p < acc.len() && is_optimized(Dialect::Handler, #[trigger] acc[p]);
                    assert(acc[p] == code[p]);
                },
            }
        }
    }
}

/// Block-wise fusion keeps the length of the code; every byte it changes
/// was an opcode that some rule names and is now a super-instruction or
/// `SNOP`; and non-empty code free of `0xB0..=0xD0` is always fused
/// successfully.
pub proof fn law_block_fusion_effect(code: Seq<u8>)
    ensures
        block_fusion(code) matches Ok(t) ==> {
            &&& t.len() == code.len()
            &&& forall|p: int|
                0 <= p < code.len() ==> #[trigger] t[p] == code[p] || (rewritable(code[p]) && written(
                    Dialect::Handler,
                    t[p],
                ))
        },
        code.len() > 0 && (forall|p: int| 0 <= p < code.len() ==> !is_optimized(Dialect::Handler, #[trigger] code[p]))
            ==> block_fusion(code) is Ok,
{
    law_blocks_partition(code);
    if code.len() > 0 {
        lemma_fuse_blocks_from(code, 0, code);
    }
}


/// Whether block-wise fusion leaves block `k` of `code` as it is: the
/// block is of type `Others`, or its walk meets `INVALID`.
pub open spec fn block_skipped(code: Seq<u8>, k: int) -> bool {
    let blocks = basic_blocks(code);
    let b = blocks[k];
    ||| block_type(b, prev_block(blocks, k)) == BlockType::Others
    ||| walk_hits(code, b.start_pc, b.end_pc, |x: u8| hits_invalid(x))
}

/// What block `k` of `code` holds in the result `t` of block-wise fusion:
/// its own bytes if it was skipped, else the single-pass fusion of its own
/// bytes.
pub open spec fn block_outcome(code: Seq<u8>, k: int, t: Seq<u8>) -> bool {
    let b = basic_blocks(code)[k];
    if block_skipped(code, k) {
        t.subrange(b.start_pc, b.end_pc) == code.subrange(b.start_pc, b.end_pc)
    } else {
        fusion_scan(Dialect::Handler, code.subrange(b.start_pc, b.end_pc), 0) == Ok::<Seq<u8>, FusionError>(
            t.subrange(b.start_pc, b.end_pc),
        )
    }
}

/// Where block `k` starts, or the end of the code past the last block.
pub open spec fn block_bound(code: Seq<u8>, k: int) -> int {
    if k < basic_blocks(code).len() {
        basic_blocks(code)[k].start_pc
    } else {
        code.len() as int
    }
}

proof fn lemma_fuse_blocks_local(code: Seq<u8>, k: int, acc: Seq<u8>)
    requires
        0 <= k <= basic_blocks(code).len(),
        acc.len() == code.len(),
        forall|p: int| block_bound(code, k) <= p < code.len() ==> #[trigger] acc[p] == code[p],
    ensures
        fuse_blocks_from(code, basic_blocks(code), k, acc) matches Ok(t) ==> {
            &&& t.len() == code.len()
            &&& forall|p: int| 0 <= p < block_bound(code, k) ==> #[trigger] t[p] == acc[p]
            &&& forall|j: int| k <= j < basic_blocks(code).len() ==> #[trigger] block_outcome(code, j, t)
        },
    decreases basic_blocks(code).len() - k,
{
    let blocks = basic_blocks(code);
    law_blocks_partition(code);
    if k < blocks.len() {
        let b = blocks[k];
        let s = b.start_pc;
        let e = b.end_pc;
        assert(block_bound(code, k + 1) == e);
        if block_type(b, prev_block(blocks, k)) == BlockType::Others
            || walk_hits(code, s, e, |x: u8| hits_invalid(x)) {
            if !(block_type(b, prev_block(blocks, k)) == BlockType::Others)
                && walk_hits(code, s, e, |x: u8| hits_optimized(x)) {
            } else {
                lemma_fuse_blocks_local(code, k + 1, acc);
                if let Ok(t) = fuse_blocks_from(code, blocks, k, acc) {
                    assert(fuse_blocks_from(code, blocks, k + 1, acc) == Ok::<Seq<u8>, FusionError>(t));
                    assert(t.subrange(s, e) =~= code.subrange(s, e));
                    assert(block_outcome(code, k, t));
                }
            }
        } else if walk_hits(code, s, e, |x: u8| hits_optimized(x)) {
        } else {
            match fuse_block_result(acc, b) {
                Ok(a) => {
                    let sl = acc.subrange(s, e);
                    assert(sl =~= code.subrange(s, e));
                    lemma_scan_effect(Dialect::Handler, sl, 0);
                    let fs = fusion_scan(Dialect::Handler, sl, 0)->Ok_0;
                    assert(a =~= acc.subrange(0, s) + fs + acc.subrange(e, acc.len() as int));
                    assert forall|p: int| block_bound(code, k + 1) <= p < code.len() implies #[trigger] a[p] == code[p] by {
                        assert(a[p] == acc[p]);
                    }
                    lemma_fuse_blocks_local(code, k + 1, a);
                    if let Ok(t) = fuse_blocks_from(code, blocks, k, acc) {
                        assert(fuse_blocks_from(code, blocks, k + 1, a) == Ok::<Seq<u8>, FusionError>(t));
                        assert(t.subrange(s, e) =~= fs);
                        assert(block_outcome(code, k, t));
                        assert forall|p: int| 0 <= p < block_bound(code, k) implies #[trigger] t[p] == acc[p] by {
                            assert(t[p] == a[p]);
                        }
                    }
                },
                Err(_) => {},
            }
        }
    }
}

/// Block-wise fusion stays inside the basic blocks: in its result, a block
/// that it skips (of type `Others`, or whose walk meets `INVALID`) holds its
/// own bytes, and every other block holds what the single-pass fusion makes
/// of that block's bytes alone.
pub proof fn law_block_fusion_is_local(code: Seq<u8>)
    ensures
        block_fusion(code) matches Ok(t) ==> forall|k: int|
            0 <= k < basic_blocks(code).len() ==> #[trigger] block_outcome(code, k, t),
{
    law_blocks_partition(code);
    if basic_blocks(code).len() > 0 {
        lemma_fuse_blocks_local(code, 0, code);
    }
}


/// The block of `code` that holds position `p`, searched from block `j`.
pub proof fn lemma_block_holding(code: Seq<u8>, p: int, j: int) -> (r: int)
    requires
        0 <= j < basic_blocks(code).len(),
        basic_blocks(code)[j].start_pc <= p < code.len(),
    ensures
        j <= r < basic_blocks(code).len(),
        basic_blocks(code)[r].start_pc <= p < basic_blocks(code)[r].end_pc,
    decreases basic_blocks(code).len() - j,
{
    law_blocks_partition(code);
    if p < basic_blocks(code)[j].end_pc {
        j
    } else {
        lemma_block_holding(code, p, j + 1)
    }
}


/// A walk that meets a byte with property `target` meets it at an
/// instruction it reaches.
proof fn lemma_walk_hits_reaches(code: Seq<u8>, pc: int, end: int, target: spec_fn(u8) -> bool)
    requires
        walk_hits(code, pc, end, target),
    ensures
        exists|p: int| reaches(code, pc, p) && p < end && target(#[trigger] code[p]),
    decreases code.len() - pc,
{
    if !target(code[pc]) {
        lemma_next_pc(code, pc);
        let n = next_pc(code, pc);
        lemma_walk_hits_reaches(code, n, end, target);
        let p = choose|p: int| reaches(code, n, p) && p < end && target(#[trigger] code[p]);
        lemma_reaches_bounds(code, n, p);
        assert(reaches(code, pc, p));
    } else {
        assert(reaches(code, pc, pc));
    }
}

/// Plain decoding that meets a byte the handler rejects meets it at an
/// instruction of the handler's walk.
proof fn lemma_meets_reaches(code: Seq<u8>, i: int)
    requires
        0 <= i,
        meets_optimized(Dialect::Handler, code, i),
    ensures
        exists|p: int| reaches(code, i, p) && is_optimized(Dialect::Handler, #[trigger] code[p]),
    decreases code.len() - i,
{
    if is_optimized(Dialect::Handler, code[i]) {
        assert(reaches(code, i, i));
    } else {
        lemma_plain_len(code[i]);
        lemma_inst_len_plain(Dialect::Handler, code[i]);
        let n = step_to(i, plain_len(code[i]), code.len() as int);
        assert(next_pc(code, i) == n);
        lemma_meets_reaches(code, n);
        let p = choose|p: int| reaches(code, n, p) && is_optimized(Dialect::Handler, #[trigger] code[p]);
        lemma_reaches_bounds(code, n, p);
        assert(reaches(code, i, p));
    }
}

/// On code that is a single basic block and holds no byte of
/// `0xB0..=0xD0` at an instruction, block-wise fusion and the handler's
/// whole-code pass both succeed, with the same result.
pub proof fn law_single_block_fusion_is_whole_code_fusion(code: Seq<u8>)
    requires
        basic_blocks(code).len() == 1,
        forall|p: int| is_inst_start(code, p) ==> !is_optimized(Dialect::Handler, #[trigger] code[p]),
    ensures
        block_fusion(code) is Ok,
        fusion_scan(Dialect::Handler, code, 0) is Ok,
        block_fusion(code) == fusion_scan(Dialect::Handler, code, 0),
{
    let blocks = basic_blocks(code);
    law_blocks_partition(code);
    let b = blocks[0];
    assert(b.start_pc == 0 && b.end_pc == code.len());
    let n = code.len() as int;
    if walk_hits(code, 0, n, |x: u8| hits_optimized(x)) {
        lemma_walk_hits_reaches(code, 0, n, |x: u8| hits_optimized(x));
        let p = choose|p: int| reaches(code, 0, p) && p < n && (|x: u8| hits_optimized(x))(#[trigger] code[p]);
        assert(is_inst_start(code, p));
        assert(false);
    }
    assert(block_type(b, prev_block(blocks, 0)) == BlockType::EntryBB);
    lemma_scan_fails_iff(Dialect::Handler, code, 0);
    if meets_optimized(Dialect::Handler, code, 0) {
        lemma_meets_reaches(code, 0);
        let p = choose|p: int| reaches(code, 0, p) && is_optimized(Dialect::Handler, #[trigger] code[p]);
        assert(is_inst_start(code, p));
        assert(false);
    }
    let t = fusion_scan(Dialect::Handler, code, 0)->Ok_0;
    if walk_hits(code, 0, n, |x: u8| hits_invalid(x)) {
        lemma_walk_hits_reaches(code, 0, n, |x: u8| hits_invalid(x));
        let p = choose|p: int| reaches(code, 0, p) && p < n && (|x: u8| hits_invalid(x))(#[trigger] code[p]);
        if p != 0 {
            law_block_interior(code, 0, p);
        }
        assert(code[0] == op::INVALID);
        assert(fusion_scan(Dialect::Handler, code, 0) == Ok::<Seq<u8>, FusionError>(code));
        assert(fuse_blocks_from(code, blocks, 1, code) == Ok::<Seq<u8>, FusionError>(code));
    } else {
        assert(code.subrange(0, n) =~= code);
        lemma_scan_effect(Dialect::Handler, code, 0);
        let a = code.subrange(0, 0) + t + code.subrange(n, n);
        assert(a =~= t);
        assert(fuse_block_result(code, b) == Ok::<Seq<u8>, FusionError>(a));
        assert(fuse_blocks_from(code, blocks, 1, a) == Ok::<Seq<u8>, FusionError>(a));
    }
}


/// A basic block ends after an instruction exactly when that instruction is
/// `STOP`, `RETURN`, `REVERT`, `SELFDESTRUCT`, `JUMP` or `JUMPI`, or the
/// next instruction is `JUMPDEST` or `INVALID`.
pub proof fn law_block_boundary(code: Seq<u8>, q: int)
    requires
        is_inst_start(code, q),
        next_pc(code, q) < code.len(),
    ensures
        (exists|k: int|
            0 <= k < basic_blocks(code).len() && #[trigger] basic_blocks(code)[k].start_pc == next_pc(code, q))
            <==> {
            ||| code[q] == op::STOP
            ||| code[q] == op::RETURN
            ||| code[q] == op::REVERT
            ||| code[q] == op::SELFDESTRUCT
            ||| code[q] == op::JUMP
            ||| code[q] == op::JUMPI
            ||| code[next_pc(code, q)] == op::JUMPDEST
            ||| code[next_pc(code, q)] == op::INVALID
        },
{
    let p = next_pc(code, q);
    lemma_reaches_bounds(code, 0, q);
    lemma_next_pc(code, q);
    lemma_reach_next(code, q);
    law_block_starts(code, p);
    if exists|q2: int|
        #![trigger next_pc(code, q2)]
        reaches(code, 0, q2) && next_pc(code, q2) == p && spec_is_block_terminator(code[q2]) {
        let q2 = choose|q2: int|
            #![trigger next_pc(code, q2)]
            reaches(code, 0, q2) && next_pc(code, q2) == p && spec_is_block_terminator(code[q2]);
        lemma_reaches_bounds(code, 0, q2);
        lemma_next_pc(code, q2);
        if q2 < q {
            lemma_reach_gap(code, q2, q);
        } else if q < q2 {
            lemma_reach_gap(code, q, q2);
        }
    }
    if spec_is_block_terminator(code[q]) {
        assert(reaches(code, 0, q) && next_pc(code, q) == p && spec_is_block_terminator(code[q]));
    }
}

/// How control enters each basic block of `code` decides its type: the
/// block at the start of the code is the entry block; any other block
/// that starts with `JUMPDEST` is a jump destination, whatever precedes it;
/// a block right after a `JUMPI` byte that does not start with `JUMPDEST`
/// is a conditional fall-through; every other block is `Others`.  No block
/// is empty.
pub proof fn law_block_kinds(code: Seq<u8>, k: int)
    requires
        0 <= k < basic_blocks(code).len(),
    ensures
        ({
            let blocks = basic_blocks(code);
            let b = blocks[k];
            let t = block_type(b, prev_block(blocks, k));
            &&& (t == BlockType::EntryBB) == (b.start_pc == 0)
            &&& (t == BlockType::JumpDest) == (b.start_pc != 0 && code[b.start_pc] == op::JUMPDEST)
            &&& (t == BlockType::ConditionalFallthrough) == (b.start_pc != 0 && code[b.start_pc] != op::JUMPDEST
                && code[b.start_pc - 1] == op::JUMPI)
            &&& t != BlockType::Empty
        }),
{
    let blocks = basic_blocks(code);
    law_blocks_partition(code);
    let b = blocks[k];
    assert(b.opcodes.len() > 0);
    if k > 0 {
        let a = blocks[k - 1];
        assert(a.end_pc == b.start_pc);
        assert(a.opcodes.len() > 0);
        assert(a.opcodes.last() == code[b.start_pc - 1]);
    } else {
        assert(b.start_pc == 0);
    }
    if b.start_pc != 0 {
        assert(k != 0);
    }
}

/// Block-wise fusion leaves a block as it is exactly when control cannot
/// enter it but by falling through from a block that does not end in
/// `JUMPI` (it is not at the start of the code, does not start with
/// `JUMPDEST`, and does not follow a `JUMPI` byte), or when an instruction
/// of the block is `INVALID`.
pub proof fn law_block_skipped_iff(code: Seq<u8>, k: int)
    requires
        0 <= k < basic_blocks(code).len(),
    ensures
        ({
            let b = basic_blocks(code)[k];
            block_skipped(code, k) <==> {
                ||| (b.start_pc != 0 && code[b.start_pc] != op::JUMPDEST && code[b.start_pc - 1] != op::JUMPI)
                ||| exists|p: int|
                    reaches(code, b.start_pc, p) && p < b.end_pc && #[trigger] code[p] == op::INVALID
            }
        }),
{
    let blocks = basic_blocks(code);
    let b = blocks[k];
    law_block_kinds(code, k);
    law_blocks_partition(code);
    if walk_hits(code, b.start_pc, b.end_pc, |x: u8| hits_invalid(x)) {
        lemma_walk_hits_reaches(code, b.start_pc, b.end_pc, |x: u8| hits_invalid(x));
    }
    if exists|p: int| reaches(code, b.start_pc, p) && p < b.end_pc && #[trigger] code[p] == op::INVALID {
        let p = choose|p: int| reaches(code, b.start_pc, p) && p < b.end_pc && #[trigger] code[p] == op::INVALID;
        lemma_reaches_walk_hits(code, b.start_pc, b.end_pc, p, |x: u8| hits_invalid(x));
    }
}

/// A walk that reaches an instruction with property `target` before `end`
/// meets such a byte.
proof fn lemma_reaches_walk_hits(code: Seq<u8>, pc: int, end: int, p: int, target: spec_fn(u8) -> bool)
    requires
        reaches(code, pc, p),
        p < end,
        target(code[p]),
    ensures
        walk_hits(code, pc, end, target),
    decreases code.len() - pc,
{
    lemma_reaches_bounds(code, pc, p);
    if pc != p && !target(code[pc]) {
        lemma_next_pc(code, pc);
        lemma_reaches_walk_hits(code, next_pc(code, pc), end, p, target);
    }
}

} // verus!
