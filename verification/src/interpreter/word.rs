//! 256-bit machine words.
//!
//! A word is held as four 64-bit limbs, least significant first.  Its
//! arithmetic is that of `ruint`'s `U256`, which the EVM crates use; the
//! calls into `ruint` sit in the unverified wrappers below, each stated against the
//! word's value modulo 2^256.

use vstd::prelude::*;
use vstd::arithmetic::power2::{lemma2_to64, lemma_pow2_adds, lemma_pow2_strictly_increases, pow2};
use ruint::aliases::U256;

verus! {

/// A 256-bit word, least significant limb first.
#[derive(Clone, Copy, Debug, PartialEq, Eq)]
pub struct Word {
    pub l0: u64,
    pub l1: u64,
    pub l2: u64,
    pub l3: u64,
}

pub open spec fn p64() -> int {
    0x1_0000_0000_0000_0000int
}

/// 2^256.
pub open spec fn modulus() -> int {
    p64() * p64() * p64() * p64()
}

impl Word {
    /// The number the word stands for.
    pub open spec fn value(self) -> int {
        self.l0 + p64() * (self.l1 + p64() * (self.l2 + p64() * self.l3))
    }
}

/// The word holding `v` modulo 2^256.
pub open spec fn word_of(v: int) -> Word {
    Word {
        l0: (v % p64()) as u64,
        l1: ((v / p64()) % p64()) as u64,
        l2: ((v / p64() / p64()) % p64()) as u64,
        l3: ((v / p64() / p64() / p64()) % p64()) as u64,
    }
}

/// The word with low limb `x`.
pub open spec fn word_from(x: u64) -> Word {
    Word { l0: x, l1: 0, l2: 0, l3: 0 }
}

/// 1 if `b`, else 0.
pub open spec fn word_bool(b: bool) -> Word {
    word_from(if b { 1 } else { 0 })
}

pub open spec fn w_add(a: Word, b: Word) -> Word {
    word_of((a.value() + b.value()) % modulus())
}

pub open spec fn w_sub(a: Word, b: Word) -> Word {
    word_of((a.value() + modulus() - b.value()) % modulus())
}

pub open spec fn w_mul(a: Word, b: Word) -> Word {
    word_of((a.value() * b.value()) % modulus())
}

pub open spec fn w_shl(a: Word, shift: nat) -> Word {
    word_of((a.value() * pow2(shift)) % modulus())
}

pub open spec fn w_shr(a: Word, shift: nat) -> Word {
    word_of(a.value() / (pow2(shift) as int))
}

pub open spec fn w_and(a: Word, b: Word) -> Word {
    Word { l0: a.l0 & b.l0, l1: a.l1 & b.l1, l2: a.l2 & b.l2, l3: a.l3 & b.l3 }
}

pub open spec fn w_not(a: Word) -> Word {
    Word { l0: !a.l0, l1: !a.l1, l2: !a.l2, l3: !a.l3 }
}

/// Signed (two's complement) value of a word.
pub open spec fn signed_value(a: Word) -> int {
    if a.l3 >= 0x8000_0000_0000_0000u64 {
        a.value() - modulus()
    } else {
        a.value()
    }
}

impl Word {
    pub fn zero() -> (r: Word)
        ensures
            r == word_from(0),
    {
        Word { l0: 0, l1: 0, l2: 0, l3: 0 }
    }

    /// The word holding `x`.
    pub fn from_u64(x: u64) -> (r: Word)
        ensures
            r == word_from(x),
            r.value() == x,
    {
        Word { l0: x, l1: 0, l2: 0, l3: 0 }
    }

    /// Whether the word is zero.
    pub fn is_zero(&self) -> (r: bool)
        ensures
            r == (self.value() == 0),
    {
        self.l0 == 0 && self.l1 == 0 && self.l2 == 0 && self.l3 == 0
    }
}

/// Shifting a word right by 256 or more bits leaves zero.
pub proof fn lemma_shr_large(w: Word, n: nat)
    requires
        n >= 256,
    ensures
        w_shr(w, n) == word_from(0),
{
    lemma_value_bounds(w);
    lemma2_to64();
    lemma_pow2_adds(64, 64);
    lemma_pow2_adds(128, 64);
    lemma_pow2_adds(192, 64);
    assert(pow2(256) == modulus());
    if n > 256 {
        lemma_pow2_strictly_increases(256, n);
    }
    assert(w.value() / (pow2(n) as int) == 0) by (nonlinear_arith)
        requires
            0 <= w.value() < pow2(n);
}

/// Big-endian value of a byte string.
pub open spec fn be_value(s: Seq<u8>) -> int
    decreases s.len(),
{
    if s.len() == 0 {
        0
    } else {
        be_value(s.drop_last()) * 256 + s.last()
    }
}

/// Signed `a < b` (two's complement).
pub fn word_slt(a: Word, b: Word) -> (r: bool)
    ensures
        r == (signed_value(a) < signed_value(b)),
{
    let a_neg = a.l3 >= 0x8000_0000_0000_0000u64;
    let b_neg = b.l3 >= 0x8000_0000_0000_0000u64;
    if a_neg != b_neg {
        proof {
            lemma_value_bounds(a);
            lemma_value_bounds(b);
            lemma_sign_bit(a);
            lemma_sign_bit(b);
        }
        a_neg
    } else {
        word_lt(a, b)
    }
}

pub proof fn lemma_value_bounds(w: Word)
    ensures
        0 <= w.value() < modulus(),
{
    let p = p64();
    assert(0 <= w.value() < modulus()) by (nonlinear_arith)
        requires
            w.value() == w.l0 + p * (w.l1 + p * (w.l2 + p * w.l3)),
            p == 0x1_0000_0000_0000_0000int,
            0 <= w.l0 < p,
            0 <= w.l1 < p,
            0 <= w.l2 < p,
            0 <= w.l3 < p,
            modulus() == p * p * p * p;
}

/// The top limb's high bit splits the values at 2^255.
pub proof fn lemma_sign_bit(w: Word)
    ensures
        (w.l3 >= 0x8000_0000_0000_0000u64) == (w.value() >= modulus() / 2),
{
    let p = p64();
    let h = 0x8000_0000_0000_0000int;
    assert((w.l3 >= h) == (w.value() >= modulus() / 2)) by (nonlinear_arith)
        requires
            w.value() == w.l0 + p * (w.l1 + p * (w.l2 + p * w.l3)),
            p == 0x1_0000_0000_0000_0000int,
            h * 2 == p,
            0 <= w.l0 < p,
            0 <= w.l1 < p,
            0 <= w.l2 < p,
            0 <= w.l3 < p,
            modulus() == p * p * p * p;
}

/// The word holding the big-endian number `bytes` (`U256::from_be_slice`).
#[verifier::external_body]
pub(crate) fn word_from_be_bytes(bytes: &[u8]) -> (r: Word)
    requires
        bytes.len() <= 32,
    ensures
        r == word_of(be_value(bytes@)),
{
    let l = U256::from_be_slice(bytes).into_limbs();
    Word { l0: l[0], l1: l[1], l2: l[2], l3: l[3] }
}

/// `256^n`.
pub open spec fn byte_base(n: nat) -> int
    decreases n,
{
    if n == 0 {
        1
    } else {
        256 * byte_base((n - 1) as nat)
    }
}

pub proof fn lemma_byte_base_positive(n: nat)
    ensures
        byte_base(n) > 0,
    decreases n,
{
    if n > 0 {
        lemma_byte_base_positive((n - 1) as nat);
    }
}

/// The 32 bytes of the word, most significant first.
pub open spec fn word_be_bytes(w: Word) -> Seq<u8> {
    Seq::new(32, |j: int| ((w.value() / byte_base((31 - j) as nat)) % 256) as u8)
}

/// The first `n` big-endian bytes of a word stand for the word without its
/// last `32 - n` bytes.
proof fn lemma_word_be_bytes_prefix(w: Word, n: nat)
    requires
        n <= 32,
    ensures
        be_value(word_be_bytes(w).take(n as int)) == w.value() / byte_base((32 - n) as nat),
    decreases n,
{
    let s = word_be_bytes(w);
    let v = w.value();
    lemma_value_bounds(w);
    if n == 0 {
        assert(s.take(0) =~= Seq::<u8>::empty());
        assert(byte_base(32) == modulus()) by {
            reveal_with_fuel(byte_base, 33);
        }
        vstd::arithmetic::div_mod::lemma_basic_div(v, byte_base(32));
    } else {
        lemma_word_be_bytes_prefix(w, (n - 1) as nat);
        let k = (32 - n) as nat;
        lemma_byte_base_positive(k);
        assert(byte_base((k + 1) as nat) == 256 * byte_base(k));
        let x = v / byte_base(k);
        vstd::arithmetic::div_mod::lemma_div_denominator(v, byte_base(k), 256);
        vstd::arithmetic::div_mod::lemma_fundamental_div_mod(x, 256);
        vstd::arithmetic::div_mod::lemma_div_pos_is_pos(v, byte_base(k));
        assert(s.take(n as int).drop_last() =~= s.take(n - 1));
        assert(s.take(n as int).last() == s[n - 1]);
        assert(s[n - 1] == (x % 256) as u8);
        assert(byte_base(k) * 256 == 256 * byte_base(k)) by (nonlinear_arith);
        assert(x / 256 == v / byte_base((k + 1) as nat));
    }
}

/// The big-endian bytes of a word stand for the word.
pub proof fn lemma_word_be_bytes_value(w: Word)
    ensures
        word_be_bytes(w).len() == 32,
        be_value(word_be_bytes(w)) == w.value(),
{
    lemma_word_be_bytes_prefix(w, 32);
    assert(word_be_bytes(w).take(32) =~= word_be_bytes(w));
    assert(byte_base(0) == 1);
}

/// The 32 big-endian bytes of the word (`U256::to_be_bytes::<32>`).
#[verifier::external_body]
pub(crate) fn word_to_be_bytes(w: Word) -> (r: Vec<u8>)
    ensures
        r@ == word_be_bytes(w),
{
    let x = U256::from_limbs([w.l0, w.l1, w.l2, w.l3]);
    x.to_be_bytes::<32>().to_vec()
}

/// `a + b` modulo 2^256 (`U256::wrapping_add`).
#[verifier::external_body]
pub(crate) fn word_add(a: Word, b: Word) -> (r: Word)
    ensures
        r == w_add(a, b),
{
    let x = U256::from_limbs([a.l0, a.l1, a.l2, a.l3]);
    let y = U256::from_limbs([b.l0, b.l1, b.l2, b.l3]);
    let l = x.wrapping_add(y).into_limbs();
    Word { l0: l[0], l1: l[1], l2: l[2], l3: l[3] }
}

/// `a - b` modulo 2^256 (`U256::wrapping_sub`).
#[verifier::external_body]
pub(crate) fn word_sub(a: Word, b: Word) -> (r: Word)
    ensures
        r == w_sub(a, b),
{
    let x = U256::from_limbs([a.l0, a.l1, a.l2, a.l3]);
    let y = U256::from_limbs([b.l0, b.l1, b.l2, b.l3]);
    let l = x.wrapping_sub(y).into_limbs();
    Word { l0: l[0], l1: l[1], l2: l[2], l3: l[3] }
}

/// `a * b` modulo 2^256 (`U256::wrapping_mul`).
#[verifier::external_body]
pub(crate) fn word_mul(a: Word, b: Word) -> (r: Word)
    ensures
        r == w_mul(a, b),
{
    let x = U256::from_limbs([a.l0, a.l1, a.l2, a.l3]);
    let y = U256::from_limbs([b.l0, b.l1, b.l2, b.l3]);
    let l = x.wrapping_mul(y).into_limbs();
    Word { l0: l[0], l1: l[1], l2: l[2], l3: l[3] }
}

/// `a << shift` modulo 2^256 (`U256::wrapping_shl`).
#[verifier::external_body]
pub(crate) fn word_shl(a: Word, shift: usize) -> (r: Word)
    ensures
        r == w_shl(a, shift as nat),
{
    let x = U256::from_limbs([a.l0, a.l1, a.l2, a.l3]);
    let l = x.wrapping_shl(shift).into_limbs();
    Word { l0: l[0], l1: l[1], l2: l[2], l3: l[3] }
}

/// `a >> shift`, rounding down (`U256::wrapping_shr`).
#[verifier::external_body]
pub(crate) fn word_shr(a: Word, shift: usize) -> (r: Word)
    ensures
        r == w_shr(a, shift as nat),
{
    let x = U256::from_limbs([a.l0, a.l1, a.l2, a.l3]);
    let l = x.wrapping_shr(shift).into_limbs();
    Word { l0: l[0], l1: l[1], l2: l[2], l3: l[3] }
}

/// Bitwise and, limb by limb (`U256::bitand`).
#[verifier::external_body]
pub(crate) fn word_and(a: Word, b: Word) -> (r: Word)
    ensures
        r == w_and(a, b),
{
    let x = U256::from_limbs([a.l0, a.l1, a.l2, a.l3]);
    let y = U256::from_limbs([b.l0, b.l1, b.l2, b.l3]);
    let l = (x & y).into_limbs();
    Word { l0: l[0], l1: l[1], l2: l[2], l3: l[3] }
}

/// Bitwise complement, limb by limb (`U256::not`).
#[verifier::external_body]
pub(crate) fn word_not(a: Word) -> (r: Word)
    ensures
        r == w_not(a),
{
    let x = U256::from_limbs([a.l0, a.l1, a.l2, a.l3]);
    let l = (!x).into_limbs();
    Word { l0: l[0], l1: l[1], l2: l[2], l3: l[3] }
}

/// `a < b` on the values (`U256`'s order).
#[verifier::external_body]
pub(crate) fn word_lt(a: Word, b: Word) -> (r: bool)
    ensures
        r == (a.value() < b.value()),
{
    let x = U256::from_limbs([a.l0, a.l1, a.l2, a.l3]);
    let y = U256::from_limbs([b.l0, b.l1, b.l2, b.l3]);
    x < y
}

} // verus!
