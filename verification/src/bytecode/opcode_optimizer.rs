//! Whole-code fusion pass of the bytecode crate.

use vstd::prelude::*;
use crate::decoding::{law_pass_fails_iff_decoding_meets_rejected_byte, meets_optimized};
use crate::fusion::{
    Dialect, fuse_code, fusion_scan, is_optimized, lemma_scan_effect, result_view, rewritable, skip_steps,
    skip_steps_of, written,
};

verus! {

/// Lower end of the super-instruction range.
pub const MIN_OPTIMIZED_OPCODE: u8 = 0xB0;

/// Upper end of the super-instruction range that this pass rejects.
pub const MAX_OPTIMIZED_OPCODE: u8 = 0xC8;

/// Failure of a fusion pass.
#[derive(Clone, Copy, Debug, PartialEq, Eq, Structural)]
pub enum FusionError {
    /// The input already holds a super-instruction where the walk looked,
    /// so it is not plain bytecode; fusion is abandoned.
    FailPreprocessing,
}

/// Fuses known opcode sequences of `code` into super-instructions and
/// returns the rewritten copy; `code` itself is left as it is.
///
/// The walk visits instruction starts: it stops at the first `INVALID` it
/// visits and returns what it has, and fails with `FailPreprocessing` when
/// it visits a byte in `0xB0..=0xC8`.  A rewritten window keeps its length:
/// its first opcode becomes the super-instruction and its other fixed
/// opcodes become `NOP`, and the walk resumes just past the window.
///
/// Beyond the exact result, the contract states that the output has the
/// input's length, that a changed byte was an opcode some rule names and is
/// now a super-instruction or `NOP` (so `INVALID` bytes never change), and
/// that the pass fails exactly when plain decoding of `code` meets a byte
/// in `0xB0..=0xC8` before it meets `INVALID`.
pub fn do_code_fusion(code: &[u8]) -> (r: Result<Vec<u8>, FusionError>)
    ensures
        result_view(r) == fusion_scan(Dialect::Bytecode, code@, 0),
        r matches Ok(t) ==> {
            &&& t@.len() == code@.len()
            &&& forall|p: int|
                0 <= p < code@.len() ==> #[trigger] t@[p] == code@[p] || (rewritable(code@[p]) && written(
                    Dialect::Bytecode,
                    t@[p],
                ))
        },
        (forall|p: int| 0 <= p < code@.len() ==> !is_optimized(Dialect::Bytecode, #[trigger] code@[p]))
            ==> r is Ok,
        r is Err <==> meets_optimized(Dialect::Bytecode, code@, 0),
{
    proof {
        lemma_scan_effect(Dialect::Bytecode, code@, 0);
        law_pass_fails_iff_decoding_meets_rejected_byte(Dialect::Bytecode, code@);
    }
    fuse_code(code, Dialect::Bytecode)
}

/// Number of bytes to step over after the opcode at `cur`: the immediate
/// bytes of `PUSHn`, and those that a super-instruction carries.
pub fn calculate_skip_steps(code: &[u8], cur: usize) -> (r: Option<usize>)
    requires
        cur < code.len(),
    ensures
        match r {
            Some(n) => skip_steps(Dialect::Bytecode, code@[cur as int]) == Some(n as int),
            None => skip_steps(Dialect::Bytecode, code@[cur as int]) is None,
        },
{
    skip_steps_of(Dialect::Bytecode, code[cur])
}

} // verus!
