//! Contract bytecode as the benchmark stores it: a text file holding hex.

use vstd::prelude::*;
use vstd::utf8::encode_utf8;

verus! {

/// White space in Unicode's sense (the `White_Space` property), which is
/// what `char::is_whitespace` and `str::trim` go by.
pub open spec fn is_white_space(c: char) -> bool {
    let u = c as u32;
    ||| 0x09 <= u <= 0x0D
    ||| u == 0x20
    ||| u == 0x85
    ||| u == 0xA0
    ||| u == 0x1680
    ||| 0x2000 <= u <= 0x200A
    ||| u == 0x2028
    ||| u == 0x2029
    ||| u == 0x202F
    ||| u == 0x205F
    ||| u == 0x3000
}

/// `s` without its leading white space.
pub open spec fn trim_start_chars(s: Seq<char>) -> Seq<char>
    decreases s.len(),
{
    if s.len() > 0 && is_white_space(s[0]) {
        trim_start_chars(s.drop_first())
    } else {
        s
    }
}

/// `s` without its trailing white space.
pub open spec fn trim_end_chars(s: Seq<char>) -> Seq<char>
    decreases s.len(),
{
    if s.len() > 0 && is_white_space(s.last()) {
        trim_end_chars(s.drop_last())
    } else {
        s
    }
}

/// `s` without leading and trailing white space.
pub open spec fn trimmed_chars(s: Seq<char>) -> Seq<char> {
    trim_end_chars(trim_start_chars(s))
}

/// `str::trim`: the text without its leading and trailing white space.
#[verifier::external_body]
fn trim_text(s: &str) -> (r: &str)
    ensures
        r@ == trimmed_chars(s@),
{
    s.trim()
}

/// An ASCII hex digit, of either case.
pub open spec fn is_hex_digit(b: u8) -> bool {
    ||| 0x30 <= b <= 0x39
    ||| 0x41 <= b <= 0x46
    ||| 0x61 <= b <= 0x66
}

/// The number a hex digit stands for.
pub open spec fn hex_value(b: u8) -> int {
    if b <= 0x39 {
        b - 0x30
    } else if b <= 0x46 {
        b - 0x41 + 10
    } else {
        b - 0x61 + 10
    }
}

/// `s` without a leading `0x` or `0X`.
pub open spec fn without_hex_prefix(s: Seq<u8>) -> Seq<u8> {
    if s.len() >= 2 && s[0] == 0x30 && (s[1] == 0x78 || s[1] == 0x58) {
        s.skip(2)
    } else {
        s
    }
}

/// Hex decoding as `const_hex::decode` does it: the input must have an even
/// length; a `0x` or `0X` prefix is dropped; every other byte must be a hex
/// digit; each pair of digits, high digit first, gives one byte.
pub open spec fn hex_decoded(s: Seq<u8>) -> Option<Seq<u8>> {
    let d = without_hex_prefix(s);
    if s.len() % 2 != 0 {
        None
    } else if forall|i: int| 0 <= i < d.len() ==> #[trigger] is_hex_digit(d[i]) {
        Some(Seq::new(d.len() / 2, |k: int| (hex_value(d[2 * k]) * 16 + hex_value(d[2 * k + 1])) as u8))
    } else {
        None
    }
}

/// Whether `r` is the outcome `d` describes: the same bytes, or nothing.
pub open spec fn decodes_to(r: Option<Vec<u8>>, d: Option<Seq<u8>>) -> bool {
    match r {
        Some(v) => d == Some(v@),
        None => d is None,
    }
}

/// `const_hex::decode`, with its error dropped: the decoded bytes, or
/// `None` where the input is not hex.
#[verifier::external_body]
fn decode_hex(s: &[u8]) -> (r: Option<Vec<u8>>)
    ensures
        decodes_to(r, hex_decoded(s@)),
{
    const_hex::decode(s).ok()
}

/// `s` without a leading lower-case `0x`, which the loader drops itself
/// before decoding.
pub open spec fn without_0x(s: Seq<u8>) -> Seq<u8> {
    if s.len() >= 2 && s[0] == 0x30 && s[1] == 0x78 {
        s.skip(2)
    } else {
        s
    }
}

/// The bytes a bytecode file's text stands for, if it is valid.
pub open spec fn bytecode_of_text(text: Seq<char>) -> Option<Seq<u8>> {
    hex_decoded(without_0x(encode_utf8(trimmed_chars(text))))
}

/// Contract bytecode from the text of a bytecode file: surrounding white
/// space is ignored, a `0x` prefix is dropped, and the rest is decoded as
/// hex.  `None` when the text is not valid hex.
pub fn parse_bytecode_hex(text: &str) -> (r: Option<Vec<u8>>)
    ensures
        decodes_to(r, bytecode_of_text(text@)),
{
    let t = trim_text(text);
    let b = t.as_bytes();
    if b.len() >= 2 && b[0] == 0x30 && b[1] == 0x78 {
        let rest = vstd::slice::slice_subrange(b, 2, b.len());
        assert(rest@ == without_0x(b@));
        decode_hex(rest)
    } else {
        decode_hex(b)
    }
}

} // verus!
