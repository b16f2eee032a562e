//! The pattern-matching engine shared by both whole-code fusion passes.
//!
//! A pass walks the code from its first byte.  At each visited position it
//! stops on `INVALID`, fails on a byte that is already a super-instruction,
//! and otherwise tries the fusion rules in a fixed order.  The first rule
//! whose fixed opcodes all occur at their offsets rewrites the window: the
//! first byte becomes the super-instruction, the other fixed opcodes become
//! a filler byte, and immediates stay where they are.  When no rule applies
//! the walk steps over the instruction and its immediate bytes.
//!
//! After a rewrite the walk resumes just past the window, so it only ever
//! visits instruction starts and never reads an immediate as an opcode.
//!
//! The two passes of the project differ only in their dialect: how many
//! rules they know, which filler they write, which bytes they reject, and
//! which immediates they skip.

use vstd::prelude::*;
use crate::bytecode::opcode as op;
use crate::bytecode::opcode_optimizer::FusionError;

verus! {

/// Which of the two whole-code passes is meant.
#[derive(Clone, Copy, Debug, PartialEq, Eq, Structural)]
pub enum Dialect {
    /// The pass of the bytecode crate: 24 rules, whose super-instructions
    /// are `0xB1..=0xC8`; `NOP` filler; rejects `0xB0..=0xC8`.
    Bytecode,
    /// The pass used per basic block: 31 rules, whose super-instructions
    /// are `0xB1..=0xCF`; `SNOP` filler; rejects `0xB0..=0xD0`.
    Handler,
}


/// The shape of one fusion rule: the rule applies at `i` when
/// `i + reach < len` and every `(offset, opcode)` of `checks` holds.  The
/// window, which the rewrite covers, ends at offset `window`; `reach` is
/// `window` but for two rules of the handler, which ask for one byte more.
pub struct RuleView {
    pub window: usize,
    pub reach: usize,
    pub checks: Seq<(usize, u8)>,
    pub fused: u8,
}

/// Executable form of a rule.
pub struct FusionRule {
    pub window: usize,
    pub reach: usize,
    pub checks: Vec<(usize, u8)>,
    pub fused: u8,
}

impl View for FusionRule {
    type V = RuleView;

    open spec fn view(&self) -> RuleView {
        RuleView { window: self.window, reach: self.reach, checks: self.checks@, fused: self.fused }
    }
}

pub open spec fn rv(window: usize, checks: Seq<(usize, u8)>, fused: u8) -> RuleView {
    RuleView { window, reach: window, checks, fused }
}

impl RuleView {
    /// The same rule, asking for `reach` bytes after its start.
    pub open spec fn with_reach(self, reach: usize) -> RuleView {
        RuleView { reach, ..self }
    }
}

/// The rules, in the order in which they are tried.  The first 24 are
/// known to both dialects; the last 7 only to the handler dialect.
pub open spec fn rule_shape(k: int) -> RuleView {
    if k == 0 {
        rv(15, seq![(0, op::PUSH1), (2, op::CALLDATALOAD), (3, op::PUSH1), (5, op::SHR), (6, op::DUP1), (7, op::PUSH4), (12, op::GT), (13, op::PUSH2)],
            op::PUSH1CALLDATALOADPUSH1SHRDUP1PUSH4GTPUSH2)
    } else if k == 1 {
        rv(12, seq![(0, op::SWAP1), (1, op::PUSH1), (3, op::DUP1), (4, op::NOT), (5, op::SWAP2), (6, op::ADD), (7, op::AND), (8, op::DUP2), (9, op::ADD), (10, op::SWAP1), (11, op::DUP2), (12, op::LT)],
            op::SWAP1PUSH1DUP1NOTSWAP2ADDANDDUP2ADDSWAP1DUP2LT)
    } else if k == 2 {
        rv(9, seq![(0, op::DUP1), (1, op::PUSH4), (6, op::EQ), (7, op::PUSH2)],
            op::DUP1PUSH4EQPUSH2)
    } else if k == 3 {
        rv(7, seq![(0, op::PUSH1), (2, op::PUSH1), (4, op::PUSH1), (6, op::SHL), (7, op::SUB)],
            op::PUSH1PUSH1PUSH1SHLSUB)
    } else if k == 4 {
        rv(5, seq![(0, op::AND), (1, op::DUP2), (2, op::ADD), (3, op::SWAP1), (4, op::DUP2), (5, op::LT)],
            op::ANDDUP2ADDSWAP1DUP2LT)
    } else if k == 5 {
        rv(4, seq![(0, op::AND), (1, op::SWAP1), (2, op::POP), (3, op::SWAP2), (4, op::SWAP1)],
            op::ANDSWAP1POPSWAP2SWAP1)
    } else if k == 6 {
        rv(4, seq![(0, op::ISZERO), (1, op::PUSH2), (4, op::JUMPI)],
            op::JUMPIFZERO)
    } else if k == 7 {
        rv(4, seq![(0, op::DUP2), (1, op::MSTORE), (2, op::PUSH1), (4, op::ADD)],
            op::DUP2MSTOREPUSH1ADD)
    } else if k == 8 {
        rv(3, seq![(0, op::SWAP2), (1, op::SWAP1), (2, op::POP), (3, op::JUMP)],
            op::SWAP2SWAP1POPJUMP)
    } else if k == 9 {
        rv(3, seq![(0, op::SWAP1), (1, op::POP), (2, op::SWAP2), (3, op::SWAP1)],
            op::SWAP1POPSWAP2SWAP1)
    } else if k == 10 {
        rv(3, seq![(0, op::POP), (1, op::SWAP2), (2, op::SWAP1), (3, op::POP)],
            op::POPSWAP2SWAP1POP)
    } else if k == 11 {
        rv(3, seq![(0, op::PUSH2), (3, op::JUMP)],
            op::PUSH2JUMP)
    } else if k == 12 {
        rv(3, seq![(0, op::PUSH2), (3, op::JUMPI)],
            op::PUSH2JUMPI)
    } else if k == 13 {
        rv(3, seq![(0, op::PUSH1), (2, op::PUSH1)],
            op::PUSH1PUSH1)
    } else if k == 14 {
        rv(3, seq![(0, op::ISZERO), (1, op::PUSH2)],
            op::ISZEROPUSH2)
    } else if k == 15 {
        rv(2, seq![(0, op::PUSH1), (2, op::ADD)],
            op::PUSH1ADD)
    } else if k == 16 {
        rv(2, seq![(0, op::PUSH1), (2, op::SHL)],
            op::PUSH1SHL)
    } else if k == 17 {
        rv(2, seq![(0, op::PUSH1), (2, op::DUP1)],
            op::PUSH1DUP1)
    } else if k == 18 {
        rv(1, seq![(0, op::SWAP1), (1, op::POP)],
            op::SWAP1POP)
    } else if k == 19 {
        rv(1, seq![(0, op::POP), (1, op::JUMP)],
            op::POPJUMP)
    } else if k == 20 {
        rv(1, seq![(0, op::POP), (1, op::POP)],
            op::POP2)
    } else if k == 21 {
        rv(1, seq![(0, op::SWAP2), (1, op::SWAP1)],
            op::SWAP2SWAP1)
    } else if k == 22 {
        rv(1, seq![(0, op::SWAP2), (1, op::POP)],
            op::SWAP2POP)
    } else if k == 23 {
        rv(1, seq![(0, op::DUP2), (1, op::LT)],
            op::DUP2LT)
    } else if k == 24 {
        rv(1, seq![(0, op::DUP3), (1, op::AND)],
            op::DUP3AND)
    } else if k == 25 {
        rv(9, seq![(0, op::SWAP2), (1, op::SWAP1), (2, op::DUP3), (3, op::SUB), (4, op::SWAP2), (5, op::DUP3), (6, op::GT), (7, op::PUSH2)],
            op::SWAP2SWAP1DUP3SUBSWAP2DUP3GTPUSH2).with_reach(10)
    } else if k == 26 {
        rv(1, seq![(0, op::SWAP1), (1, op::DUP2)],
            op::SWAP1DUP2)
    } else if k == 27 {
        rv(4, seq![(0, op::SHR), (1, op::SHR), (2, op::DUP1), (3, op::MUL), (4, op::DUP1)],
            op::SHRSHRDUP1MULDUP1)
    } else if k == 28 {
        rv(3, seq![(0, op::SWAP3), (1, op::POP), (2, op::POP), (3, op::POP)],
            op::SWAP3POPPOPPOP)
    } else if k == 29 {
        rv(5, seq![(0, op::SUB), (1, op::SLT), (2, op::ISZERO), (3, op::PUSH2)],
            op::SUBSLTISZEROPUSH2).with_reach(6)
    } else {
        rv(5, seq![(0, op::DUP11), (1, op::MUL), (2, op::DUP3), (3, op::SUB), (4, op::MUL), (5, op::DUP1)],
            op::DUP11MULDUP3SUBMULDUP1)
    }
}

/// Number of rules a dialect knows (a prefix of `rule_shape`).
pub open spec fn rule_count(d: Dialect) -> int {
    match d {
        Dialect::Bytecode => 24,
        Dialect::Handler => 31,
    }
}

/// Byte written over the absorbed opcodes of a rewritten window.
pub open spec fn filler(d: Dialect) -> u8 {
    match d {
        Dialect::Bytecode => op::NOP,
        Dialect::Handler => op::SNOP,
    }
}

/// How far the walk moves after rewriting a window: just past its last
/// byte, so that the walk stays on instruction starts.
pub open spec fn advance(d: Dialect, window: usize) -> int {
    window + 1
}

/// Upper end of the super-instruction range that the dialect rejects.
pub open spec fn max_optimized(d: Dialect) -> u8 {
    match d {
        Dialect::Bytecode => 0xC8u8,
        Dialect::Handler => 0xD0u8,
    }
}

/// Lower end of the rejected super-instruction range.
pub const MIN_OPTIMIZED_OPCODE: u8 = 0xB0;

pub open spec fn is_optimized(d: Dialect, b: u8) -> bool {
    MIN_OPTIMIZED_OPCODE <= b && b <= max_optimized(d)
}

/// Number of immediate bytes after an opcode, as the walk sees them:
/// `PUSHn` carries `n` bytes, and a super-instruction that carries
/// immediates carries the rest of the window it replaced.
pub open spec fn skip_steps(d: Dialect, inst: u8) -> Option<int> {
    if op::PUSH1 <= inst && inst <= op::PUSH32 {
        Some(inst - op::PUSH1 + 1)
    } else if inst == op::PUSH1ADD || inst == op::PUSH1SHL || inst == op::PUSH1DUP1 {
        Some(2)
    } else if inst == op::PUSH2JUMP || inst == op::PUSH2JUMPI || inst == op::PUSH1PUSH1 || inst == op::ISZEROPUSH2 {
        Some(3)
    } else if inst == op::JUMPIFZERO || inst == op::DUP2MSTOREPUSH1ADD {
        Some(4)
    } else if inst == op::PUSH1PUSH1PUSH1SHLSUB {
        Some(7)
    } else if inst == op::DUP1PUSH4EQPUSH2 {
        Some(9)
    } else if inst == op::SWAP1PUSH1DUP1NOTSWAP2ADDANDDUP2ADDSWAP1DUP2LT {
        Some(12)
    } else if inst == op::PUSH1CALLDATALOADPUSH1SHRDUP1PUSH4GTPUSH2 {
        Some(15)
    } else if d == Dialect::Handler && inst == op::SUBSLTISZEROPUSH2 {
        Some(5)
    } else if d == Dialect::Handler && inst == op::SWAP2SWAP1DUP3SUBSWAP2DUP3GTPUSH2 {
        Some(9)
    } else {
        None
    }
}

/// Width of the instruction at a byte: the opcode plus its immediates.
pub open spec fn inst_len(d: Dialect, inst: u8) -> int {
    match skip_steps(d, inst) {
        Some(n) => 1 + n,
        None => 1,
    }
}

pub open spec fn rule_matches(s: Seq<u8>, i: int, r: RuleView) -> bool {
    &&& 0 <= i
    &&& i + r.window < s.len()
    &&& i + r.reach < s.len()
    &&& forall|k: int| 0 <= k < r.checks.len() ==> s[i + (#[trigger] r.checks[k]).0] == r.checks[k].1
}

/// Byte that a rule writes over its fixed opcode at `offset`: the
/// super-instruction at offset 0, the filler elsewhere.
pub open spec fn written_byte(r: RuleView, offset: usize, f: u8) -> u8 {
    if offset == 0 {
        r.fused
    } else {
        f
    }
}

/// The code after writing, for each of the first `n` fixed opcodes of `r`
/// in turn, its replacement into the window at `i`.
pub open spec fn apply_checks(s: Seq<u8>, i: int, r: RuleView, f: u8, n: int) -> Seq<u8>
    decreases n,
{
    if n <= 0 {
        s
    } else {
        let c = r.checks[n - 1];
        let prev = apply_checks(s, i, r, f, n - 1);
        if 0 <= i + c.0 < prev.len() {
            prev.update(i + c.0, written_byte(r, c.0, f))
        } else {
            prev
        }
    }
}

/// The code after rewriting the window of `r` at `i` with filler `f`.
pub open spec fn rule_apply(s: Seq<u8>, i: int, r: RuleView, f: u8) -> Seq<u8> {
    apply_checks(s, i, r, f, r.checks.len() as int)
}

pub proof fn lemma_apply_checks_len(s: Seq<u8>, i: int, r: RuleView, f: u8, n: int)
    ensures
        apply_checks(s, i, r, f, n).len() == s.len(),
    decreases n,
{
    if n > 0 {
        lemma_apply_checks_len(s, i, r, f, n - 1);
    }
}

/// Index of the first rule, from `k` on, that applies at `i`.
pub open spec fn first_match(d: Dialect, s: Seq<u8>, i: int, k: int) -> Option<int>
    decreases rule_count(d) - k,
{
    if k < 0 || k >= rule_count(d) {
        None
    } else if rule_matches(s, i, rule_shape(k)) {
        Some(k)
    } else {
        first_match(d, s, i, k + 1)
    }
}

/// Position `step` bytes after `i`, where any position past the end counts
/// as the end.
pub open spec fn step_to(i: int, step: int, len: int) -> int {
    if i + step > len {
        len
    } else {
        i + step
    }
}

/// The result of the walk of dialect `d` over `s`, resumed at `i`.
pub open spec fn fusion_scan(d: Dialect, s: Seq<u8>, i: int) -> Result<Seq<u8>, FusionError>
    decreases s.len() - i,
{
    if i < 0 || i >= s.len() {
        Ok(s)
    } else if s[i] == op::INVALID {
        Ok(s)
    } else if is_optimized(d, s[i]) {
        Err(FusionError::FailPreprocessing)
    } else {
        match first_match(d, s, i, 0) {
            Some(k) => {
                let r = rule_shape(k);
                proof {
                    lemma_advance_positive(d, k);
                    lemma_apply_checks_len(s, i, r, filler(d), r.checks.len() as int);
                }
                fusion_scan(d, rule_apply(s, i, r, filler(d)), step_to(i, advance(d, r.window), s.len() as int))
            },
            None => {
                proof {
                    lemma_inst_len_positive(d, s[i]);
                }
                fusion_scan(d, s, step_to(i, inst_len(d, s[i]), s.len() as int))
            },
        }
    }
}

pub proof fn lemma_inst_len_positive(d: Dialect, inst: u8)
    ensures
        1 <= inst_len(d, inst) <= 33,
{
}

/// Opcodes that some rule names among its fixed opcodes.
pub open spec fn rewritable(b: u8) -> bool {
    ||| b == op::ADD || b == op::MUL || b == op::SUB || b == op::LT || b == op::GT
    ||| b == op::SLT || b == op::EQ || b == op::ISZERO || b == op::AND || b == op::NOT
    ||| b == op::SHL || b == op::SHR || b == op::CALLDATALOAD || b == op::POP || b == op::MSTORE
    ||| b == op::JUMP || b == op::JUMPI || b == op::PUSH1 || b == op::PUSH2 || b == op::PUSH4
    ||| b == op::DUP1 || b == op::DUP2 || b == op::DUP3 || b == op::DUP11
    ||| b == op::SWAP1 || b == op::SWAP2 || b == op::SWAP3
}

/// Bytes that a rewrite of dialect `d` may leave behind: one of its
/// super-instructions (`0xB1..=0xC8` for the bytecode crate's pass,
/// `0xB1..=0xCF` for the handler's) or its filler.
pub open spec fn written(d: Dialect, b: u8) -> bool {
    (0xB1 <= b && b <= max_fused(d)) || b == filler(d)
}

/// Largest super-instruction that dialect `d` writes.
pub open spec fn max_fused(d: Dialect) -> u8 {
    match d {
        Dialect::Bytecode => 0xC8u8,
        Dialect::Handler => 0xCFu8,
    }
}

pub open spec fn rule_wf(r: RuleView) -> bool {
    &&& 1 <= r.window <= 15
    &&& r.checks.len() >= 1
    &&& r.checks[0].0 == 0
    &&& 0xB1 <= r.fused <= 0xCF
    &&& forall|k: int| 0 <= k < r.checks.len() ==> (#[trigger] r.checks[k]).0 <= r.window
    &&& forall|k: int| 0 <= k < r.checks.len() ==> rewritable((#[trigger] r.checks[k]).1)
}

pub proof fn lemma_advance_positive(d: Dialect, k: int)
    ensures
        advance(d, rule_shape(k).window) >= 1,
{
    reveal_with_fuel(rule_shape, 1);
}


/// The rule at index `k`, in executable form.
pub fn rule_at(k: usize) -> (r: FusionRule)
    requires
        k < 31,
    ensures
        r@ == rule_shape(k as int),
{
    let r = if k == 0 {
        FusionRule { window: 15, reach: 15, checks: vec![(0, op::PUSH1), (2, op::CALLDATALOAD), (3, op::PUSH1), (5, op::SHR), (6, op::DUP1), (7, op::PUSH4), (12, op::GT), (13, op::PUSH2)],
            fused: op::PUSH1CALLDATALOADPUSH1SHRDUP1PUSH4GTPUSH2 }
    } else if k == 1 {
        FusionRule { window: 12, reach: 12, checks: vec![(0, op::SWAP1), (1, op::PUSH1), (3, op::DUP1), (4, op::NOT), (5, op::SWAP2), (6, op::ADD), (7, op::AND), (8, op::DUP2), (9, op::ADD), (10, op::SWAP1), (11, op::DUP2), (12, op::LT)],
            fused: op::SWAP1PUSH1DUP1NOTSWAP2ADDANDDUP2ADDSWAP1DUP2LT }
    } else if k == 2 {
        FusionRule { window: 9, reach: 9, checks: vec![(0, op::DUP1), (1, op::PUSH4), (6, op::EQ), (7, op::PUSH2)],
            fused: op::DUP1PUSH4EQPUSH2 }
    } else if k == 3 {
        FusionRule { window: 7, reach: 7, checks: vec![(0, op::PUSH1), (2, op::PUSH1), (4, op::PUSH1), (6, op::SHL), (7, op::SUB)],
            fused: op::PUSH1PUSH1PUSH1SHLSUB }
    } else if k == 4 {
        FusionRule { window: 5, reach: 5, checks: vec![(0, op::AND), (1, op::DUP2), (2, op::ADD), (3, op::SWAP1), (4, op::DUP2), (5, op::LT)],
            fused: op::ANDDUP2ADDSWAP1DUP2LT }
    } else if k == 5 {
        FusionRule { window: 4, reach: 4, checks: vec![(0, op::AND), (1, op::SWAP1), (2, op::POP), (3, op::SWAP2), (4, op::SWAP1)],
            fused: op::ANDSWAP1POPSWAP2SWAP1 }
    } else if k == 6 {
        FusionRule { window: 4, reach: 4, checks: vec![(0, op::ISZERO), (1, op::PUSH2), (4, op::JUMPI)],
            fused: op::JUMPIFZERO }
    } else if k == 7 {
        FusionRule { window: 4, reach: 4, checks: vec![(0, op::DUP2), (1, op::MSTORE), (2, op::PUSH1), (4, op::ADD)],
            fused: op::DUP2MSTOREPUSH1ADD }
    } else if k == 8 {
        FusionRule { window: 3, reach: 3, checks: vec![(0, op::SWAP2), (1, op::SWAP1), (2, op::POP), (3, op::JUMP)],
            fused: op::SWAP2SWAP1POPJUMP }
    } else if k == 9 {
        FusionRule { window: 3, reach: 3, checks: vec![(0, op::SWAP1), (1, op::POP), (2, op::SWAP2), (3, op::SWAP1)],
            fused: op::SWAP1POPSWAP2SWAP1 }
    } else if k == 10 {
        FusionRule { window: 3, reach: 3, checks: vec![(0, op::POP), (1, op::SWAP2), (2, op::SWAP1), (3, op::POP)],
            fused: op::POPSWAP2SWAP1POP }
    } else if k == 11 {
        FusionRule { window: 3, reach: 3, checks: vec![(0, op::PUSH2), (3, op::JUMP)],
            fused: op::PUSH2JUMP }
    } else if k == 12 {
        FusionRule { window: 3, reach: 3, checks: vec![(0, op::PUSH2), (3, op::JUMPI)],
            fused: op::PUSH2JUMPI }
    } else if k == 13 {
        FusionRule { window: 3, reach: 3, checks: vec![(0, op::PUSH1), (2, op::PUSH1)],
            fused: op::PUSH1PUSH1 }
    } else if k == 14 {
        FusionRule { window: 3, reach: 3, checks: vec![(0, op::ISZERO), (1, op::PUSH2)],
            fused: op::ISZEROPUSH2 }
    } else if k == 15 {
        FusionRule { window: 2, reach: 2, checks: vec![(0, op::PUSH1), (2, op::ADD)],
            fused: op::PUSH1ADD }
    } else if k == 16 {
        FusionRule { window: 2, reach: 2, checks: vec![(0, op::PUSH1), (2, op::SHL)],
            fused: op::PUSH1SHL }
    } else if k == 17 {
        FusionRule { window: 2, reach: 2, checks: vec![(0, op::PUSH1), (2, op::DUP1)],
            fused: op::PUSH1DUP1 }
    } else if k == 18 {
        FusionRule { window: 1, reach: 1, checks: vec![(0, op::SWAP1), (1, op::POP)],
            fused: op::SWAP1POP }
    } else if k == 19 {
        FusionRule { window: 1, reach: 1, checks: vec![(0, op::POP), (1, op::JUMP)],
            fused: op::POPJUMP }
    } else if k == 20 {
        FusionRule { window: 1, reach: 1, checks: vec![(0, op::POP), (1, op::POP)],
            fused: op::POP2 }
    } else if k == 21 {
        FusionRule { window: 1, reach: 1, checks: vec![(0, op::SWAP2), (1, op::SWAP1)],
            fused: op::SWAP2SWAP1 }
    } else if k == 22 {
        FusionRule { window: 1, reach: 1, checks: vec![(0, op::SWAP2), (1, op::POP)],
            fused: op::SWAP2POP }
    } else if k == 23 {
        FusionRule { window: 1, reach: 1, checks: vec![(0, op::DUP2), (1, op::LT)],
            fused: op::DUP2LT }
    } else if k == 24 {
        FusionRule { window: 1, reach: 1, checks: vec![(0, op::DUP3), (1, op::AND)],
            fused: op::DUP3AND }
    } else if k == 25 {
        FusionRule { window: 9, reach: 10, checks: vec![(0, op::SWAP2), (1, op::SWAP1), (2, op::DUP3), (3, op::SUB), (4, op::SWAP2), (5, op::DUP3), (6, op::GT), (7, op::PUSH2)],
            fused: op::SWAP2SWAP1DUP3SUBSWAP2DUP3GTPUSH2 }
    } else if k == 26 {
        FusionRule { window: 1, reach: 1, checks: vec![(0, op::SWAP1), (1, op::DUP2)],
            fused: op::SWAP1DUP2 }
    } else if k == 27 {
        FusionRule { window: 4, reach: 4, checks: vec![(0, op::SHR), (1, op::SHR), (2, op::DUP1), (3, op::MUL), (4, op::DUP1)],
            fused: op::SHRSHRDUP1MULDUP1 }
    } else if k == 28 {
        FusionRule { window: 3, reach: 3, checks: vec![(0, op::SWAP3), (1, op::POP), (2, op::POP), (3, op::POP)],
            fused: op::SWAP3POPPOPPOP }
    } else if k == 29 {
        FusionRule { window: 5, reach: 6, checks: vec![(0, op::SUB), (1, op::SLT), (2, op::ISZERO), (3, op::PUSH2)],
            fused: op::SUBSLTISZEROPUSH2 }
    } else {
        FusionRule { window: 5, reach: 5, checks: vec![(0, op::DUP11), (1, op::MUL), (2, op::DUP3), (3, op::SUB), (4, op::MUL), (5, op::DUP1)],
            fused: op::DUP11MULDUP3SUBMULDUP1 }
    };
    proof {
        reveal_with_fuel(rule_shape, 1);
    }
    assert(r.checks@ =~= rule_shape(k as int).checks);
    r
}


pub proof fn lemma_rule_wf(k: int)
    requires
        0 <= k < 31,
    ensures
        rule_wf(rule_shape(k)),
        k < rule_count(Dialect::Bytecode) ==> rule_shape(k).fused <= max_fused(Dialect::Bytecode),
{
}

pub proof fn lemma_first_match(d: Dialect, s: Seq<u8>, i: int, k0: int)
    ensures
        first_match(d, s, i, k0) matches Some(k) ==> {
            &&& k0 <= k < rule_count(d)
            &&& 0 <= k
            &&& rule_matches(s, i, rule_shape(k))
        },
    decreases rule_count(d) - k0,
{
    if 0 <= k0 < rule_count(d) && !rule_matches(s, i, rule_shape(k0)) {
        lemma_first_match(d, s, i, k0 + 1);
    }
}

/// The outcome of a pass, with the code taken by its contents.
pub open spec fn result_view(r: Result<Vec<u8>, FusionError>) -> Result<Seq<u8>, FusionError> {
    match r {
        Ok(v) => Ok(v@),
        Err(e) => Err(e),
    }
}

/// All rules of a dialect, in order.
pub fn rule_table(d: Dialect) -> (t: Vec<FusionRule>)
    ensures
        t.len() == rule_count(d),
        forall|k: int| 0 <= k < t.len() ==> (#[trigger] t[k])@ == rule_shape(k),
{
    let n: usize = match d {
        Dialect::Bytecode => 24,
        Dialect::Handler => 31,
    };
    let mut t: Vec<FusionRule> = Vec::new();
    let mut k: usize = 0;
    while k < n
        invariant
            n == rule_count(d),
            n <= 31,
            k <= n,
            t.len() == k,
            forall|j: int| 0 <= j < t.len() ==> (#[trigger] t[j])@ == rule_shape(j),
        decreases n - k,
    {
        t.push(rule_at(k));
        k += 1;
    }
    t
}

/// Executable `skip_steps`.
pub fn skip_steps_of(d: Dialect, inst: u8) -> (r: Option<usize>)
    ensures
        match r {
            Some(n) => skip_steps(d, inst) == Some(n as int),
            None => skip_steps(d, inst) is None,
        },
{
    if inst >= op::PUSH1 && inst <= op::PUSH32 {
        Some((inst - op::PUSH1 + 1) as usize)
    } else if inst == op::PUSH1ADD || inst == op::PUSH1SHL || inst == op::PUSH1DUP1 {
        Some(2)
    } else if inst == op::PUSH2JUMP || inst == op::PUSH2JUMPI || inst == op::PUSH1PUSH1 || inst == op::ISZEROPUSH2 {
        Some(3)
    } else if inst == op::JUMPIFZERO || inst == op::DUP2MSTOREPUSH1ADD {
        Some(4)
    } else if inst == op::PUSH1PUSH1PUSH1SHLSUB {
        Some(7)
    } else if inst == op::DUP1PUSH4EQPUSH2 {
        Some(9)
    } else if inst == op::SWAP1PUSH1DUP1NOTSWAP2ADDANDDUP2ADDSWAP1DUP2LT {
        Some(12)
    } else if inst == op::PUSH1CALLDATALOADPUSH1SHRDUP1PUSH4GTPUSH2 {
        Some(15)
    } else if d == Dialect::Handler && inst == op::SUBSLTISZEROPUSH2 {
        Some(5)
    } else if d == Dialect::Handler && inst == op::SWAP2SWAP1DUP3SUBSWAP2DUP3GTPUSH2 {
        Some(9)
    } else {
        None
    }
}

/// Whether rule `r` applies at position `i` of `code`.
pub fn rule_matches_at(code: &Vec<u8>, i: usize, r: &FusionRule) -> (b: bool)
    requires
        rule_wf(r@),
        i < code.len(),
    ensures
        b == rule_matches(code@, i as int, r@),
{
    if code.len() - i <= r.window || code.len() - i <= r.reach {
        return false;
    }
    let mut j: usize = 0;
    while j < r.checks.len()
        invariant
            j <= r.checks.len(),
            i + r.window < code.len(),
            rule_wf(r@),
            forall|k: int| 0 <= k < j ==> code@[i + (#[trigger] r.checks@[k]).0] == r.checks@[k].1,
        decreases r.checks.len() - j,
    {
        let (off, opc) = r.checks[j];
        assert(off <= r.window);
        if code[i + off] != opc {
            return false;
        }
        j += 1;
    }
    true
}

/// Rewrites the window of `r` at `i` in place.
pub fn apply_rule_at(code: &mut Vec<u8>, i: usize, r: &FusionRule, f: u8)
    requires
        rule_wf(r@),
        i + r.window < old(code).len(),
    ensures
        final(code)@ == rule_apply(old(code)@, i as int, r@, f),
{
    let ghost s = code@;
    let mut j: usize = 0;
    while j < r.checks.len()
        invariant
            j <= r.checks.len(),
            rule_wf(r@),
            i + r.window < s.len(),
            code@ == apply_checks(s, i as int, r@, f, j as int),
            code.len() == s.len(),
        decreases r.checks.len() - j,
    {
        let (off, _) = r.checks[j];
        assert(off <= r.window);
        assert(i + off < s.len());
        let b = if off == 0 {
            r.fused
        } else {
            f
        };
        code.set(i + off, b);
        j += 1;
    }
}

/// Index of the first rule of `rules` that applies at `i`.
pub fn find_rule(d: Dialect, rules: &Vec<FusionRule>, code: &Vec<u8>, i: usize) -> (r: Option<usize>)
    requires
        i < code.len(),
        rules.len() == rule_count(d),
        forall|k: int| 0 <= k < rules.len() ==> (#[trigger] rules[k])@ == rule_shape(k),
    ensures
        match r {
            Some(k) => first_match(d, code@, i as int, 0) == Some(k as int) && k < rules.len(),
            None => first_match(d, code@, i as int, 0) is None,
        },
{
    let mut k: usize = 0;
    while k < rules.len()
        invariant
            k <= rules.len(),
            i < code.len(),
            rules.len() == rule_count(d),
            forall|j: int| 0 <= j < rules.len() ==> (#[trigger] rules[j])@ == rule_shape(j),
            first_match(d, code@, i as int, 0) == first_match(d, code@, i as int, k as int),
        decreases rules.len() - k,
    {
        proof {
            lemma_rule_wf(k as int);
        }
        if rule_matches_at(code, i, &rules[k]) {
            return Some(k);
        }
        k += 1;
    }
    None
}

/// Runs the walk of dialect `d` over a copy of `code`.
pub fn fuse_code(code: &[u8], d: Dialect) -> (r: Result<Vec<u8>, FusionError>)
    ensures
        result_view(r) == fusion_scan(d, code@, 0),
{
    let rules = rule_table(d);
    let max_opt: u8 = match d {
        Dialect::Bytecode => 0xC8,
        Dialect::Handler => 0xD0,
    };
    let fill: u8 = match d {
        Dialect::Bytecode => op::NOP,
        Dialect::Handler => op::SNOP,
    };
    let mut fused = vstd::slice::slice_to_vec(code);
    let mut i: usize = 0;
    while i < fused.len()
        invariant
            i <= fused.len(),
            max_opt == max_optimized(d),
            fill == filler(d),
            rules.len() == rule_count(d),
            forall|k: int| 0 <= k < rules.len() ==> (#[trigger] rules[k])@ == rule_shape(k),
            fusion_scan(d, fused@, i as int) == fusion_scan(d, code@, 0),
        decreases fused.len() - i,
    {
        let cur = fused[i];
        if cur == op::INVALID {
            return Ok(fused);
        }
        if MIN_OPTIMIZED_OPCODE <= cur && cur <= max_opt {
            return Err(FusionError::FailPreprocessing);
        }
        match find_rule(d, &rules, &fused, i) {
            Some(k) => {
                proof {
                    lemma_rule_wf(k as int);
                    lemma_first_match(d, fused@, i as int, 0);
                }
                let w = rules[k].window;
                let ghost before = fused@;
                apply_rule_at(&mut fused, i, &rules[k], fill);
                proof {
                    lemma_apply_checks_len(before, i as int, rule_shape(k as int), fill, rule_shape(k as int).checks.len() as int);
                }
                i = i + w + 1;
            },
            None => {
                let step: usize = match skip_steps_of(d, cur) {
                    Some(n) => 1 + n,
                    None => 1,
                };
                if step > fused.len() - i {
                    i = fused.len();
                } else {
                    i = i + step;
                }
            },
        }
    }
    Ok(fused)
}


pub proof fn lemma_apply_checks_shape(s: Seq<u8>, i: int, r: RuleView, f: u8, n: int)
    requires
        0 <= n <= r.checks.len(),
    ensures
        forall|p: int|
            0 <= p < s.len() ==> {
                ||| apply_checks(s, i, r, f, n)[p] == s[p]
                ||| exists|j: int|
                    0 <= j < n && p == i + (#[trigger] r.checks[j]).0 && apply_checks(s, i, r, f, n)[p]
                        == written_byte(r, r.checks[j].0, f)
            },
    decreases n,
{
    lemma_apply_checks_len(s, i, r, f, n);
    if n > 0 {
        lemma_apply_checks_shape(s, i, r, f, n - 1);
        lemma_apply_checks_len(s, i, r, f, n - 1);
        let prev = apply_checks(s, i, r, f, n - 1);
        let c = r.checks[n - 1];
        assert forall|p: int| 0 <= p < s.len() implies {
            ||| apply_checks(s, i, r, f, n)[p] == s[p]
            ||| exists|j: int|
                0 <= j < n && p == i + (#[trigger] r.checks[j]).0 && apply_checks(s, i, r, f, n)[p]
                    == written_byte(r, r.checks[j].0, f)
        } by {
            if p == i + c.0 {
                assert(apply_checks(s, i, r, f, n)[p] == written_byte(r, c.0, f));
            } else {
                assert(apply_checks(s, i, r, f, n)[p] == prev[p]);
                if prev[p] != s[p] {
                    let j = choose|j: int|
                        0 <= j < n - 1 && p == i + (#[trigger] r.checks[j]).0 && prev[p]
                            == written_byte(r, r.checks[j].0, f);
                    assert(0 <= j < n && p == i + r.checks[j].0);
                }
            }
        }
    }
}

/// What one rewrite does to the code: bytes outside the window stay, and
/// every changed byte was a fixed opcode of the rule and now holds the
/// super-instruction (at the window start) or the filler (after it).
pub proof fn lemma_rule_apply_effect(d: Dialect, s: Seq<u8>, i: int, k: int)
    requires
        0 <= k < rule_count(d),
        rule_matches(s, i, rule_shape(k)),
    ensures
        rule_apply(s, i, rule_shape(k), filler(d)).len() == s.len(),
        forall|p: int|
            0 <= p < s.len() ==> {
                ||| #[trigger] rule_apply(s, i, rule_shape(k), filler(d))[p] == s[p]
                ||| {
                    &&& i <= p <= i + rule_shape(k).window
                    &&& rewritable(s[p])
                    &&& written(d, rule_apply(s, i, rule_shape(k), filler(d))[p])
                    &&& (p > i ==> rule_apply(s, i, rule_shape(k), filler(d))[p] == filler(d))
                }
            },
{
    let r = rule_shape(k);
    let f = filler(d);
    lemma_rule_wf(k);
    lemma_apply_checks_len(s, i, r, f, r.checks.len() as int);
    lemma_apply_checks_shape(s, i, r, f, r.checks.len() as int);
    let u = rule_apply(s, i, r, f);
    assert forall|p: int| 0 <= p < s.len() implies {
        ||| u[p] == s[p]
        ||| {
            &&& i <= p <= i + r.window
            &&& rewritable(s[p])
            &&& written(d, u[p])
            &&& (p > i ==> u[p] == f)
        }
    } by {
        if u[p] != s[p] {
            let j = choose|j: int|
                0 <= j < r.checks.len() && p == i + (#[trigger] r.checks[j]).0 && u[p]
                    == written_byte(r, r.checks[j].0, f);
            assert(s[i + r.checks[j].0] == r.checks[j].1);
        }
    }
}

/// Facts about the walk resumed at `i`: on success the code keeps its
/// length and only rule opcodes are rewritten, into super-instructions or
/// filler; on failure some byte from `i` on is a rejected opcode.
pub proof fn lemma_scan_effect(d: Dialect, s: Seq<u8>, i: int)
    ensures
        fusion_scan(d, s, i) matches Ok(t) ==> {
            &&& t.len() == s.len()
            &&& forall|p: int|
                0 <= p < s.len() ==> t[p] == s[p] || (rewritable(s[p]) && written(d, t[p]))
        },
        fusion_scan(d, s, i) is Err ==> exists|p: int|
            0 <= i <= p < s.len() && is_optimized(d, #[trigger] s[p]),
    decreases s.len() - i,
{
    if 0 <= i < s.len() && s[i] != op::INVALID && !is_optimized(d, s[i]) {
        lemma_first_match(d, s, i, 0);
        match first_match(d, s, i, 0) {
            Some(k) => {
                let r = rule_shape(k);
                let u = rule_apply(s, i, r, filler(d));
                let ni = step_to(i, advance(d, r.window), s.len() as int);
                lemma_advance_positive(d, k);
                lemma_rule_apply_effect(d, s, i, k);
                lemma_scan_effect(d, u, ni);
                if let Ok(t) = fusion_scan(d, s, i) {
                    assert forall|p: int| 0 <= p < s.len() implies t[p] == s[p] || (rewritable(s[p])
                        && written(d, t[p])) by {
                        if u[p] != s[p] && t[p] != u[p] {
                            assert(rewritable(u[p]));
                            assert(false);
                        }
                    }
                }
                if fusion_scan(d, s, i) is Err {
                    let p = choose|p: int| 0 <= ni <= p < u.len() && is_optimized(d, #[trigger] u[p]);
                    if u[p] != s[p] {
                        assert(p <= i + r.window);
                        assert(u[p] == filler(d));
                        assert(false);
                    }
                    assert(is_optimized(d, s[p]));
                }
            },
            None => {
                lemma_inst_len_positive(d, s[i]);
                lemma_scan_effect(d, s, step_to(i, inst_len(d, s[i]), s.len() as int));
            },
        }
    }
}


/// The walk resumed at `i` leaves every byte before `i` as it is.
pub proof fn lemma_scan_keeps_prefix(d: Dialect, s: Seq<u8>, i: int)
    ensures
        fusion_scan(d, s, i) matches Ok(t) ==> forall|p: int| 0 <= p < i && p < s.len() ==> #[trigger] t[p] == s[p],
    decreases s.len() - i,
{
    if 0 <= i < s.len() && s[i] != op::INVALID && !is_optimized(d, s[i]) {
        lemma_first_match(d, s, i, 0);
        match first_match(d, s, i, 0) {
            Some(k) => {
                let r = rule_shape(k);
                let u = rule_apply(s, i, r, filler(d));
                let ni = step_to(i, advance(d, r.window), s.len() as int);
                lemma_advance_positive(d, k);
                lemma_rule_apply_effect(d, s, i, k);
                lemma_scan_keeps_prefix(d, u, ni);
                if let Ok(t) = fusion_scan(d, s, i) {
                    assert forall|p: int| 0 <= p < i && p < s.len() implies #[trigger] t[p] == s[p] by {
                        assert(t[p] == u[p]);
                        assert(u[p] == s[p]);
                    }
                }
            },
            None => {
                lemma_inst_len_positive(d, s[i]);
                lemma_scan_keeps_prefix(d, s, step_to(i, inst_len(d, s[i]), s.len() as int));
            },
        }
    }
}

/// Rewriting a window reads nothing of the code: two codes that agree at a
/// position still agree there after the same rewrite.
pub proof fn lemma_apply_checks_pointwise(s1: Seq<u8>, s2: Seq<u8>, i: int, r: RuleView, f: u8, n: int, q: int)
    requires
        0 <= n <= r.checks.len(),
        s1.len() == s2.len(),
        0 <= q < s1.len(),
        s1[q] == s2[q],
    ensures
        apply_checks(s1, i, r, f, n)[q] == apply_checks(s2, i, r, f, n)[q],
    decreases n,
{
    if n > 0 {
        lemma_apply_checks_len(s1, i, r, f, n - 1);
        lemma_apply_checks_len(s2, i, r, f, n - 1);
        lemma_apply_checks_pointwise(s1, s2, i, r, f, n - 1, q);
    }
}

/// Whether two codes of the same length agree on `lo..=hi`.
pub open spec fn agree_on(s1: Seq<u8>, s2: Seq<u8>, lo: int, hi: int) -> bool {
    &&& s1.len() == s2.len()
    &&& forall|q: int| lo <= q <= hi && 0 <= q < s1.len() ==> #[trigger] s1[q] == #[trigger] s2[q]
}

/// Whether a rule matches depends only on the bytes of its window.
pub proof fn lemma_rule_matches_agree(s1: Seq<u8>, s2: Seq<u8>, p: int, k: int)
    requires
        0 <= k < 31,
        agree_on(s1, s2, p, p + rule_shape(k).window),
    ensures
        rule_matches(s1, p, rule_shape(k)) == rule_matches(s2, p, rule_shape(k)),
{
    let r = rule_shape(k);
    lemma_rule_wf(k);
    if rule_matches(s1, p, r) {
        assert forall|j: int| 0 <= j < r.checks.len() implies s2[p + (#[trigger] r.checks[j]).0] == r.checks[j].1 by {
            assert(s1[p + r.checks[j].0] == s2[p + r.checks[j].0]);
        }
    }
    if rule_matches(s2, p, r) {
        assert forall|j: int| 0 <= j < r.checks.len() implies s1[p + (#[trigger] r.checks[j]).0] == r.checks[j].1 by {
            assert(s1[p + r.checks[j].0] == s2[p + r.checks[j].0]);
        }
    }
}

/// Whether, at `p`, `t` holds a window that rule `k` rewrote in `s`: the
/// rule matches `s` at `p`, and the window of `t` is the rewritten one.
pub open spec fn rewritten_by(s: Seq<u8>, t: Seq<u8>, p: int, k: int, f: u8) -> bool {
    &&& 0 <= k < 31
    &&& rule_matches(s, p, rule_shape(k))
    &&& agree_on(t, rule_apply(s, p, rule_shape(k), f), p, p + rule_shape(k).window)
}

/// Where a pass changed a byte into something other than its filler, it
/// wrote a super-instruction: some rule matched the code it was given
/// there, and the window holds that rule's rewrite.
pub proof fn lemma_scan_trace(d: Dialect, s: Seq<u8>, i: int)
    requires
        0 <= i,
    ensures
        fusion_scan(d, s, i) matches Ok(t) ==> forall|p: int|
            i <= p < s.len() && #[trigger] t[p] != s[p] && t[p] != filler(d) ==> exists|k: int|
                rewritten_by(s, t, p, k, filler(d)),
    decreases s.len() - i,
{
    lemma_scan_effect(d, s, i);
    if 0 <= i < s.len() && s[i] != op::INVALID && !is_optimized(d, s[i]) {
        lemma_first_match(d, s, i, 0);
        match first_match(d, s, i, 0) {
            Some(k) => {
                let r = rule_shape(k);
                let f = filler(d);
                let u = rule_apply(s, i, r, f);
                let ni = step_to(i, advance(d, r.window), s.len() as int);
                lemma_advance_positive(d, k);
                lemma_rule_apply_effect(d, s, i, k);
                lemma_scan_keeps_prefix(d, u, ni);
                lemma_scan_trace(d, u, ni);
                lemma_scan_effect(d, u, ni);
                if let Ok(t) = fusion_scan(d, s, i) {
                    assert(fusion_scan(d, u, ni) == Ok::<Seq<u8>, FusionError>(t));
                    assert(ni == i + r.window + 1);
                    assert forall|p: int|
                        i <= p < s.len() && #[trigger] t[p] != s[p] && t[p] != filler(d) implies exists|k2: int|
                            rewritten_by(s, t, p, k2, filler(d)) by {
                        if p < ni {
                            assert(t[p] == u[p]);
                            if p == i {
                                assert(agree_on(t, u, i, i + r.window)) by {
                                    assert forall|q: int| i <= q <= i + r.window && 0 <= q < t.len() implies #[trigger] t[q] == #[trigger] u[q] by {
                                        assert(q < ni);
                                    }
                                }
                                assert(rewritten_by(s, t, p, k, filler(d)));
                            } else {
                                assert(u[p] == s[p] || u[p] == f);
                            }
                        } else {
                            assert(u[p] == s[p]);
                            let k2 = choose|k2: int| rewritten_by(u, t, p, k2, filler(d));
                            let r2 = rule_shape(k2);
                            assert(agree_on(u, s, p, p + r2.window)) by {
                                assert forall|q: int| p <= q <= p + r2.window && 0 <= q < u.len() implies #[trigger] u[q] == #[trigger] s[q] by {
                                    assert(q > i + r.window);
                                }
                            }
                            lemma_rule_matches_agree(u, s, p, k2);
                            lemma_apply_checks_len(u, p, r2, filler(d), r2.checks.len() as int);
                            lemma_apply_checks_len(s, p, r2, filler(d), r2.checks.len() as int);
                            assert(agree_on(t, rule_apply(s, p, r2, filler(d)), p, p + r2.window)) by {
                                assert forall|q: int| p <= q <= p + r2.window && 0 <= q < t.len() implies #[trigger] t[q] == #[trigger] rule_apply(s, p, r2, filler(d))[q] by {
                                    assert(t[q] == rule_apply(u, p, r2, filler(d))[q]);
                                    assert(u[q] == s[q]);
                                    lemma_apply_checks_pointwise(u, s, p, r2, filler(d), r2.checks.len() as int, q);
                                }
                            }
                            assert(rewritten_by(s, t, p, k2, filler(d)));
                        }
                    }
                }
            },
            None => {
                let ni = step_to(i, inst_len(d, s[i]), s.len() as int);
                lemma_inst_len_positive(d, s[i]);
                lemma_scan_keeps_prefix(d, s, ni);
                lemma_scan_trace(d, s, ni);
            },
        }
    }
}


/// Rewriting a window of a slice of the code is rewriting the same window of
/// the whole code, as far as the slice reaches.
proof fn lemma_apply_checks_shift(s: Seq<u8>, a: int, b: int, q: int, r: RuleView, f: u8, n: int, x: int)
    requires
        0 <= a <= x < b <= s.len(),
        0 <= n <= r.checks.len(),
    ensures
        apply_checks(s.subrange(a, b), q, r, f, n)[x - a] == apply_checks(s, q + a, r, f, n)[x],
    decreases n,
{
    let ss = s.subrange(a, b);
    lemma_apply_checks_len(ss, q, r, f, n);
    lemma_apply_checks_len(s, q + a, r, f, n);
    if n > 0 {
        lemma_apply_checks_len(ss, q, r, f, n - 1);
        lemma_apply_checks_len(s, q + a, r, f, n - 1);
        lemma_apply_checks_shift(s, a, b, q, r, f, n - 1, x);
    }
}

/// A window rewritten in a slice of the code is a window rewritten in the
/// whole code, at the slice's offset.
pub proof fn lemma_rewritten_by_shift(s: Seq<u8>, t: Seq<u8>, a: int, b: int, q: int, k: int, f: u8)
    requires
        0 <= a <= b <= s.len(),
        t.len() == s.len(),
        rewritten_by(s.subrange(a, b), t.subrange(a, b), q, k, f),
    ensures
        rewritten_by(s, t, q + a, k, f),
{
    let r = rule_shape(k);
    let ss = s.subrange(a, b);
    let tt = t.subrange(a, b);
    let p = q + a;
    lemma_rule_wf(k);
    assert forall|j: int| 0 <= j < r.checks.len() implies s[p + (#[trigger] r.checks[j]).0] == r.checks[j].1 by {
        assert(ss[q + r.checks[j].0] == r.checks[j].1);
    }
    assert(rule_matches(s, p, r));
    lemma_apply_checks_len(s, p, r, f, r.checks.len() as int);
    lemma_apply_checks_len(ss, q, r, f, r.checks.len() as int);
    assert forall|x: int| p <= x <= p + r.window && 0 <= x < t.len() implies #[trigger] t[x] == #[trigger] rule_apply(s, p, r, f)[x] by {
        assert(tt[x - a] == rule_apply(ss, q, r, f)[x - a]);
        lemma_apply_checks_shift(s, a, b, q, r, f, r.checks.len() as int, x);
    }
}



} // verus!
