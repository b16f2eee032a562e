# revm_fusion

Super-instructions for an EVM interpreter, verified with Verus.

Frequent runs of plain EVM opcodes (`PUSH1 <x> ADD`, `SWAP1 POP`,
`ISZERO PUSH2 <dest> JUMPI`, ...) are rewritten into single opcodes in the
range `0xB0..=0xCF`, which the interpreter executes in one step.  The
whole-code pass of the bytecode crate writes `0xB1..=0xC8` and rejects code
that already holds a byte of `0xB0..=0xC8` where an instruction starts; the
handler's passes write `0xB1..=0xCF` and reject `0xB0..=0xD0`.

## Layout

- `src/fusion.rs` — the rule table and the walk shared by the rewriting
  passes, as spec functions and their executable forms.
- `src/decoding.rs` — the passes compared with plain decoding.
- `src/bytecode/` — opcode values and the whole-code pass of the bytecode
  crate (`do_code_fusion`).
- `src/handler/` — the pass used by the handler: basic blocks, block
  types, and block-wise fusion (`do_basic_block_opcode_fusion`).
- `src/interpreter/` — 256-bit words (arithmetic through `ruint`), the
  machine state, the super-instructions, and the plain instructions they
  stand for.
- `src/benchmark/` — what the benchmark computes: bytecode text parsing,
  super-instruction statistics, token call data, medians.
- `app/` — the benchmark driver and the background fusion worker.

## What is proved

- Each pass returns exactly what its spec walk describes.  The walk visits
  instruction starts only: after a rewritten window it resumes past the
  window's last byte, and it steps over the immediates of `PUSHn` and of
  every super-instruction that carries them.  The result keeps the code's
  length and changes only opcodes that some rule names, into a
  super-instruction or the filler.
- Against plain decoding (`src/decoding.rs`): a pass fails exactly when
  decoding the code from its first byte meets a rejected byte before it
  meets `INVALID`; it changes nothing from that `INVALID` on; it never
  changes a `PUSHn` immediate; and whatever it changed is rejected when fed
  back in.
- Basic blocks partition the code; a block starts exactly at the first
  byte, at each `JUMPDEST` or `INVALID` instruction, and after each
  terminator, so control enters a block only at its start and leaves only
  at its end.  Block-wise fusion stays inside blocks: a super-instruction
  byte met by the walk of any block aborts it, skipped blocks keep their
  bytes, and fused ones hold the single-pass result of their own bytes;
  on code that is one block, it agrees with the handler's whole-code pass.
- Each super-instruction's contract gives its effect on the machine state;
  for every rule, one step of the super-instruction on rewritten code ends
  where the replaced plain instructions end on the code before the rewrite
  (with the exceptions the law names); and this holds at every
  super-instruction in the output of each of the three passes.
