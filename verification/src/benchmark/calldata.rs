//! The token calls the benchmark sends to the contract it measures, and
//! what it reads back: ABI call data for `mint`, `balanceOf` and
//! `transfer`, the balance in a call's output, the recipients of the
//! transfers and the gas each transfer gets.

use vstd::prelude::*;
use crate::interpreter::word::{
    Word, be_value, byte_base, lemma_word_be_bytes_value, modulus, p64, word_add, word_from_be_bytes, word_mul,
    word_of, word_to_be_bytes,
};

verus! {

/// Selector of `mint(uint256)`.
pub open spec fn mint_uint256_selector() -> Seq<u8> {
    seq![0xa0u8, 0x71u8, 0x2du8, 0x68u8]
}

/// Selector of `mint(address,uint256)`.
pub open spec fn mint_address_uint256_selector() -> Seq<u8> {
    seq![0x40u8, 0xc1u8, 0x0fu8, 0x19u8]
}

/// Selector of `balanceOf(address)`.
pub open spec fn balance_of_selector() -> Seq<u8> {
    seq![0x70u8, 0xa0u8, 0x82u8, 0x31u8]
}

/// Selector of `transfer(address,uint256)`.
pub open spec fn transfer_selector() -> Seq<u8> {
    seq![0xa9u8, 0x05u8, 0x9cu8, 0xbbu8]
}

/// Twelve zero bytes: the padding of an address to a 32-byte ABI word.
pub open spec fn address_padding() -> Seq<u8> {
    Seq::new(12, |i: int| 0u8)
}

/// Whether `d` is `prefix` followed by the 32 big-endian bytes of `w`.
pub open spec fn ends_with_word(d: Seq<u8>, prefix: Seq<u8>, w: Word) -> bool {
    &&& d.len() == prefix.len() + 32
    &&& d.subrange(0, prefix.len() as int) == prefix
    &&& be_value(d.subrange(prefix.len() as int, d.len() as int)) == w.value()
}

fn push_all(v: &mut Vec<u8>, s: &[u8])
    ensures
        final(v)@ == old(v)@ + s@,
{
    let mut i: usize = 0;
    while i < s.len()
        invariant
            i <= s.len(),
            v@ == old(v)@ + s@.take(i as int),
        decreases s.len() - i,
    {
        v.push(s[i]);
        i = i + 1;
        assert(v@ =~= old(v)@ + s@.take(i as int));
    }
    assert(s@.take(s.len() as int) =~= s@);
}

fn push_selector(v: &mut Vec<u8>, a: u8, b: u8, c: u8, d: u8)
    ensures
        final(v)@ == old(v)@ + seq![a, b, c, d],
{
    v.push(a);
    v.push(b);
    v.push(c);
    v.push(d);
    assert(v@ =~= old(v)@ + seq![a, b, c, d]);
}

fn push_padding(v: &mut Vec<u8>)
    ensures
        final(v)@ == old(v)@ + address_padding(),
{
    let mut i: usize = 0;
    while i < 12
        invariant
            i <= 12,
            v@ == old(v)@ + Seq::new(i as nat, |k: int| 0u8),
        decreases 12 - i,
    {
        v.push(0);
        i = i + 1;
        assert(v@ =~= old(v)@ + Seq::new(i as nat, |k: int| 0u8));
    }
}

fn push_word(v: &mut Vec<u8>, w: Word)
    ensures
        final(v)@.len() == old(v)@.len() + 32,
        final(v)@.subrange(0, old(v)@.len() as int) == old(v)@,
        be_value(final(v)@.subrange(old(v)@.len() as int, final(v)@.len() as int)) == w.value(),
{
    let bytes = word_to_be_bytes(w);
    proof {
        lemma_word_be_bytes_value(w);
    }
    let ghost start = v@;
    push_all(v, bytes.as_slice());
    assert(v@.subrange(0, start.len() as int) =~= start);
    assert(v@.subrange(start.len() as int, v@.len() as int) =~= bytes@);
}

/// Call data of `mint(uint256)` for `amount`.
pub fn mint_uint256_calldata(amount: Word) -> (d: Vec<u8>)
    ensures
        ends_with_word(d@, mint_uint256_selector(), amount),
{
    let mut d: Vec<u8> = Vec::new();
    push_selector(&mut d, 0xa0, 0x71, 0x2d, 0x68);
    push_word(&mut d, amount);
    d
}

/// Call data of `mint(address,uint256)` for the 20-byte address `to`.
pub fn mint_address_uint256_calldata(to: &[u8], amount: Word) -> (d: Vec<u8>)
    requires
        to.len() == 20,
    ensures
        ends_with_word(d@, mint_address_uint256_selector() + address_padding() + to@, amount),
{
    let mut d: Vec<u8> = Vec::new();
    push_selector(&mut d, 0x40, 0xc1, 0x0f, 0x19);
    push_padding(&mut d);
    push_all(&mut d, to);
    let ghost head = d@;
    assert(head =~= mint_address_uint256_selector() + address_padding() + to@);
    push_word(&mut d, amount);
    d
}

/// Call data of `balanceOf(address)` for the 20-byte address `account`.
pub fn balance_of_calldata(account: &[u8]) -> (d: Vec<u8>)
    requires
        account.len() == 20,
    ensures
        d@ == balance_of_selector() + address_padding() + account@,
{
    let mut d: Vec<u8> = Vec::new();
    push_selector(&mut d, 0x70, 0xa0, 0x82, 0x31);
    push_padding(&mut d);
    push_all(&mut d, account);
    d
}

/// Call data of `transfer(address,uint256)` sending `amount` to the
/// 20-byte address `to`.
pub fn transfer_calldata(to: &[u8], amount: Word) -> (d: Vec<u8>)
    requires
        to.len() == 20,
    ensures
        ends_with_word(d@, transfer_selector() + address_padding() + to@, amount),
{
    let mut d: Vec<u8> = Vec::new();
    push_selector(&mut d, 0xa9, 0x05, 0x9c, 0xbb);
    push_padding(&mut d);
    push_all(&mut d, to);
    let ghost head = d@;
    assert(head =~= transfer_selector() + address_padding() + to@);
    push_word(&mut d, amount);
    d
}

/// The balance a `balanceOf` call returned: the first 32 bytes of its
/// output as a big-endian number, or zero when the output is shorter.
pub fn decode_balance(output: &[u8]) -> (r: Word)
    ensures
        r == if output.len() >= 32 {
            word_of(be_value(output@.subrange(0, 32)))
        } else {
            word_of(0)
        },
{
    if output.len() >= 32 {
        word_from_be_bytes(vstd::slice::slice_subrange(output, 0, 32))
    } else {
        proof {
            assert(word_of(0) == Word { l0: 0, l1: 0, l2: 0, l3: 0 });
        }
        Word::zero()
    }
}

/// One token in its smallest unit (10^18).
pub const ONE_TOKEN: u64 = 1_000_000_000_000_000_000;

/// Tokens minted before the transfers: ten million tokens.
pub fn total_mint_amount() -> (r: Word)
    ensures
        r.value() == 10_000_000int * 1_000_000_000_000_000_000int,
{
    let r = word_mul(Word::from_u64(10_000_000), Word::from_u64(ONE_TOKEN));
    proof {
        let v = 10_000_000int * 1_000_000_000_000_000_000int;
        assert(v < modulus());
        assert(v % modulus() == v) by (nonlinear_arith)
            requires
                0 <= v < modulus();
        lemma_word_of_value(v);
    }
    r
}

/// The word built from `v` stands for `v`, for `0 <= v < 2^256`.
pub proof fn lemma_word_of_value(v: int)
    requires
        0 <= v < modulus(),
    ensures
        word_of(v).value() == v,
{
    let p = p64();
    let l0 = v % p;
    let q1 = v / p;
    let l1 = q1 % p;
    let q2 = q1 / p;
    let l2 = q2 % p;
    let q3 = q2 / p;
    let l3 = q3 % p;
    assert(q2 == v / p / p);
    assert(q3 == v / p / p / p);
    assert(v == l0 + p * (l1 + p * (l2 + p * l3)) && 0 <= l0 < p && 0 <= l1 < p && 0 <= l2 < p && 0 <= l3 < p)
        by (nonlinear_arith)
        requires
            p == 0x1_0000_0000_0000_0000int,
            0 <= v < p * p * p * p,
            l0 == v % p,
            q1 == v / p,
            l1 == q1 % p,
            q2 == q1 / p,
            l2 == q2 % p,
            q3 == q2 / p,
            l3 == q3 % p;
}

/// Address of the first transfer recipient, as a number.
pub open spec fn first_recipient() -> int {
    0x3000000000000000000000000000000000000001int
}

/// The recipient of transfer `i`: the 20-byte address `first_recipient() + i`.
pub fn transfer_recipient(i: u64) -> (r: Vec<u8>)
    ensures
        r.len() == 20,
        be_value(r@) == first_recipient() + i,
{
    let start = Word { l0: 1, l1: 0, l2: 0x3000_0000, l3: 0 };
    let sum = word_add(start, Word::from_u64(i));
    let bytes = word_to_be_bytes(sum);
    proof {
        lemma_word_be_bytes_value(sum);
    }
    let r = vstd::slice::slice_to_vec(vstd::slice::slice_subrange(bytes.as_slice(), 12, 32));
    proof {
        let v = first_recipient() + i;
        assert(start.value() == first_recipient());
        assert(byte_base(20) == 0x1_0000_0000_0000_0000_0000_0000_0000_0000_0000_0000int) by {
            reveal_with_fuel(byte_base, 21);
        }
        assert(v < byte_base(20));
        assert(byte_base(20) < modulus());
        assert((start.value() + i) % modulus() == v) by (nonlinear_arith)
            requires
                start.value() == first_recipient(),
                v == first_recipient() + i,
                0 <= v < modulus();
        lemma_word_of_value(v);
        assert(sum.value() == v);
        assert(bytes@ =~= bytes@.subrange(0, 12) + r@);
        lemma_be_value_append(bytes@.subrange(0, 12), r@);
        lemma_be_value_bound(r@);
        lemma_be_value_nonneg(bytes@.subrange(0, 12));
        let hi = be_value(bytes@.subrange(0, 12));
        let lo = be_value(r@);
        let b = byte_base(20);
        assert(lo == v) by (nonlinear_arith)
            requires
                v == hi * b + lo,
                0 <= lo < b,
                0 <= v < b,
                hi >= 0,
                b > 0;
    }
    r
}

/// The big-endian value of a concatenation.
pub proof fn lemma_be_value_append(a: Seq<u8>, b: Seq<u8>)
    ensures
        be_value(a + b) == be_value(a) * byte_base(b.len()) + be_value(b),
    decreases b.len(),
{
    if b.len() == 0 {
        assert(a + b =~= a);
    } else {
        lemma_be_value_append(a, b.drop_last());
        assert((a + b).drop_last() =~= a + b.drop_last());
        assert((a + b).last() == b.last());
        let x = be_value(a);
        let y = be_value(b.drop_last());
        let p = byte_base((b.len() - 1) as nat);
        assert((x * p + y) * 256 + b.last() == x * (256 * p) + (y * 256 + b.last())) by (nonlinear_arith);
    }
}

pub proof fn lemma_be_value_nonneg(s: Seq<u8>)
    ensures
        be_value(s) >= 0,
    decreases s.len(),
{
    if s.len() > 0 {
        lemma_be_value_nonneg(s.drop_last());
    }
}

/// A big-endian number of `n` bytes is below `256^n`.
pub proof fn lemma_be_value_bound(s: Seq<u8>)
    ensures
        0 <= be_value(s) < byte_base(s.len()),
    decreases s.len(),
{
    if s.len() > 0 {
        lemma_be_value_bound(s.drop_last());
        let p = byte_base((s.len() - 1) as nat);
        let x = be_value(s.drop_last());
        assert(0 <= x * 256 + s.last() < 256 * p) by (nonlinear_arith)
            requires
                0 <= x < p,
                0 <= s.last() < 256;
    }
}

/// Gas limit of each transfer: the batch's limit shared evenly, rounded
/// down.  There must be at least one transfer.
pub fn gas_per_transfer(total_gas_limit: u64, num_transfers: u64) -> (r: u64)
    requires
        num_transfers > 0,
    ensures
        r == total_gas_limit / num_transfers,
{
    total_gas_limit / num_transfers
}

} // verus!
