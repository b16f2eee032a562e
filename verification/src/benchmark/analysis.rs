//! What the benchmark reports about a bytecode: how many super-instruction
//! opcodes it holds, broken down by opcode, and how often the pattern
//! `PUSH1 <imm> ADD` occurs.

use vstd::prelude::*;

verus! {

/// Lowest opcode the analysis counts as a super-instruction.
pub const SUPER_INSTRUCTION_LOW: u8 = 0xB0;
/// Highest opcode the analysis counts as a super-instruction.
pub const SUPER_INSTRUCTION_HIGH: u8 = 0xCF;
/// Highest super-instruction opcode that has a name in the breakdown.
pub const NAMED_SUPER_INSTRUCTION_HIGH: u8 = 0xCC;

/// Number of bytes of `s` that lie in `lo..=hi`.
pub open spec fn count_in_range(s: Seq<u8>, lo: u8, hi: u8) -> nat
    decreases s.len(),
{
    if s.len() == 0 {
        0
    } else {
        count_in_range(s.drop_last(), lo, hi) + if lo <= s.last() <= hi { 1nat } else { 0nat }
    }
}

/// Number of occurrences of `b` in `s`.
pub open spec fn occurrences(s: Seq<u8>, b: u8) -> nat {
    count_in_range(s, b, b)
}

proof fn lemma_count_in_range_bound(s: Seq<u8>, lo: u8, hi: u8)
    ensures
        count_in_range(s, lo, hi) <= s.len(),
    decreases s.len(),
{
    if s.len() > 0 {
        lemma_count_in_range_bound(s.drop_last(), lo, hi);
    }
}

/// Number of bytes of `code` that are super-instruction opcodes
/// (`0xB0..=0xCF`).
pub fn count_super_instructions(code: &[u8]) -> (r: usize)
    ensures
        r == count_in_range(code@, SUPER_INSTRUCTION_LOW, SUPER_INSTRUCTION_HIGH),
{
    let mut n: usize = 0;
    let mut i: usize = 0;
    while i < code.len()
        invariant
            i <= code.len(),
            n == count_in_range(code@.take(i as int), SUPER_INSTRUCTION_LOW, SUPER_INSTRUCTION_HIGH),
        decreases code.len() - i,
    {
        proof {
            assert(code@.take(i + 1).drop_last() =~= code@.take(i as int));
            lemma_count_in_range_bound(code@.take(i as int), SUPER_INSTRUCTION_LOW, SUPER_INSTRUCTION_HIGH);
        }
        let b = code[i];
        if SUPER_INSTRUCTION_LOW <= b && b <= SUPER_INSTRUCTION_HIGH {
            n = n + 1;
        }
        i = i + 1;
    }
    assert(code@.take(code.len() as int) =~= code@);
    n
}

/// Number of occurrences of each named super-instruction opcode in `code`:
/// entry `k` counts opcode `0xB0 + k`, for `0xB0..=0xCC`.
fn named_counts(code: &[u8]) -> (r: Vec<usize>)
    ensures
        r.len() == NAMED_SUPER_INSTRUCTION_HIGH - SUPER_INSTRUCTION_LOW + 1,
        forall|k: int| 0 <= k < r.len() ==> #[trigger] r@[k] == occurrences(code@, (SUPER_INSTRUCTION_LOW + k) as u8),
{
    let width: usize = (NAMED_SUPER_INSTRUCTION_HIGH - SUPER_INSTRUCTION_LOW + 1) as usize;
    let mut counts: Vec<usize> = Vec::new();
    let mut k: usize = 0;
    while k < width
        invariant
            k <= width,
            width == NAMED_SUPER_INSTRUCTION_HIGH - SUPER_INSTRUCTION_LOW + 1,
            counts.len() == k,
            forall|j: int| 0 <= j < k ==> #[trigger] counts@[j] == 0,
        decreases width - k,
    {
        counts.push(0);
        k = k + 1;
    }
    let mut i: usize = 0;
    while i < code.len()
        invariant
            i <= code.len(),
            width == NAMED_SUPER_INSTRUCTION_HIGH - SUPER_INSTRUCTION_LOW + 1,
            counts.len() == width,
            forall|j: int| 0 <= j < width ==> #[trigger] counts@[j] == occurrences(code@.take(i as int), (SUPER_INSTRUCTION_LOW + j) as u8),
            forall|j: int| 0 <= j < width ==> #[trigger] counts@[j] <= i,
        decreases code.len() - i,
    {
        let ghost prev = counts@;
        proof {
            assert(code@.take(i + 1).drop_last() =~= code@.take(i as int));
        }
        let b = code[i];
        if SUPER_INSTRUCTION_LOW <= b && b <= NAMED_SUPER_INSTRUCTION_HIGH {
            let idx: usize = (b - SUPER_INSTRUCTION_LOW) as usize;
            let c = counts[idx];
            counts.set(idx, c + 1);
        }
        i = i + 1;
        assert forall|j: int| 0 <= j < width implies #[trigger] counts@[j] == occurrences(code@.take(i as int), (SUPER_INSTRUCTION_LOW + j) as u8) by {
            assert(code@.take(i as int).drop_last() =~= code@.take(i - 1));
            assert(prev[j] == occurrences(code@.take(i - 1), (SUPER_INSTRUCTION_LOW + j) as u8));
        }
    }
    assert(code@.take(code.len() as int) =~= code@);
    counts
}

/// Order of the breakdown: more occurrences first, then the lower opcode.
pub open spec fn breakdown_before(a: (u8, usize), b: (u8, usize)) -> bool {
    a.1 > b.1 || (a.1 == b.1 && a.0 < b.0)
}

/// The named super-instruction opcodes (`0xB0..=0xCC`) that occur in
/// `code`, each with its number of occurrences, most frequent first and, at
/// equal counts, by opcode.
pub fn super_instruction_breakdown(code: &[u8]) -> (r: Vec<(u8, usize)>)
    ensures
        forall|i: int| 0 <= i < r.len() ==> {
            &&& SUPER_INSTRUCTION_LOW <= (#[trigger] r@[i]).0 <= NAMED_SUPER_INSTRUCTION_HIGH
            &&& r@[i].1 == occurrences(code@, r@[i].0)
            &&& r@[i].1 > 0
        },
        forall|op: u8|
            SUPER_INSTRUCTION_LOW <= op <= NAMED_SUPER_INSTRUCTION_HIGH && occurrences(code@, op) > 0
                ==> exists|i: int| 0 <= i < r.len() && (#[trigger] r@[i]).0 == op,
        forall|i: int, j: int| 0 <= i < j < r.len() ==> breakdown_before(#[trigger] r@[i], #[trigger] r@[j]),
{
    let counts = named_counts(code);
    let mut r: Vec<(u8, usize)> = Vec::new();
    let mut k: usize = 0;
    while k < counts.len()
        invariant
            k <= counts.len(),
            counts.len() == NAMED_SUPER_INSTRUCTION_HIGH - SUPER_INSTRUCTION_LOW + 1,
            forall|j: int| 0 <= j < counts.len() ==> #[trigger] counts@[j] == occurrences(code@, (SUPER_INSTRUCTION_LOW + j) as u8),
            forall|i: int| 0 <= i < r.len() ==> {
                &&& SUPER_INSTRUCTION_LOW <= (#[trigger] r@[i]).0 < SUPER_INSTRUCTION_LOW + k
                &&& r@[i].1 == occurrences(code@, r@[i].0)
                &&& r@[i].1 > 0
            },
            forall|op: u8|
                SUPER_INSTRUCTION_LOW <= op < SUPER_INSTRUCTION_LOW + k && occurrences(code@, op) > 0
                    ==> exists|i: int| 0 <= i < r.len() && (#[trigger] r@[i]).0 == op,
            forall|i: int, j: int| 0 <= i < j < r.len() ==> breakdown_before(#[trigger] r@[i], #[trigger] r@[j]),
        decreases counts.len() - k,
    {
        let c = counts[k];
        let op: u8 = SUPER_INSTRUCTION_LOW + k as u8;
        assert(c == occurrences(code@, op));
        if c > 0 {
            let ghost before = r@;
            let mut p: usize = 0;
            while p < r.len() && r[p].1 >= c
                invariant
                    p <= r.len(),
                    forall|i: int| 0 <= i < p ==> (#[trigger] r@[i]).1 >= c,
                decreases r.len() - p,
            {
                p = p + 1;
            }
            r.insert(p, (op, c));
            assert forall|i: int, j: int| 0 <= i < j < r.len() implies breakdown_before(#[trigger] r@[i], #[trigger] r@[j]) by {
                if j < p {
                    assert(r@[i] == before[i] && r@[j] == before[j]);
                } else if j == p {
                    assert(r@[i] == before[i]);
                } else if i == p {
                    assert(r@[j] == before[j - 1]);
                    assert(before[p as int].1 < c);
                    if j - 1 > p {
                        assert(breakdown_before(before[p as int], before[j - 1]));
                    }
                } else if i < p {
                    assert(r@[i] == before[i] && r@[j] == before[j - 1]);
                } else {
                    assert(r@[i] == before[i - 1] && r@[j] == before[j - 1]);
                }
            }
            assert forall|o: u8|
                SUPER_INSTRUCTION_LOW <= o < SUPER_INSTRUCTION_LOW + k + 1 && occurrences(code@, o) > 0
                    implies exists|i: int| 0 <= i < r.len() && (#[trigger] r@[i]).0 == o by {
                if o == op {
                    assert(r@[p as int].0 == o);
                } else {
                    let i0 = choose|i: int| 0 <= i < before.len() && (#[trigger] before[i]).0 == o;
                    if i0 < p {
                        assert(r@[i0].0 == o);
                    } else {
                        assert(r@[i0 + 1].0 == o);
                    }
                }
            }
        }
        k = k + 1;
    }
    r
}

/// Whether `PUSH1 <imm> ADD` starts at `i`.
pub open spec fn is_push1_add_at(s: Seq<u8>, i: int) -> bool {
    s[i] == 0x60 && s[i + 2] == 0x01
}

/// Number of starts `i < n` of `PUSH1 <imm> ADD` in `s`.
pub open spec fn push1_add_patterns(s: Seq<u8>, n: int) -> nat
    decreases n,
{
    if n <= 0 {
        0
    } else {
        push1_add_patterns(s, n - 1) + if is_push1_add_at(s, n - 1) { 1nat } else { 0nat }
    }
}

/// Number of positions followed by at least one byte where `PUSH1 <imm>
/// ADD` starts.  A `PUSH1` in the next-to-last byte would have its `ADD`
/// read past the end, so such code is not accepted.
pub fn count_push1_add_patterns(code: &[u8]) -> (r: usize)
    requires
        !(code.len() >= 2 && code@[code.len() - 2] == 0x60),
    ensures
        r == push1_add_patterns(code@, code.len() - 1),
{
    let mut n: usize = 0;
    let mut cur: usize = 0;
    while cur + 1 < code.len()
        invariant
            cur <= code.len(),
            cur == 0 || cur + 1 <= code.len(),
            !(code.len() >= 2 && code@[code.len() - 2] == 0x60),
            n == push1_add_patterns(code@, cur as int),
            n <= cur,
        decreases code.len() - cur,
    {
        if code[cur] == 0x60 && code[cur + 2] == 0x01 {
            n = n + 1;
        }
        cur = cur + 1;
    }
    n
}

} // verus!
