//! A 256-bit unsigned integer held as four little-endian 64-bit words,
//! the layout of `ethers::types::U256`.
use vstd::prelude::*;
use vstd::utf8::*;
use crate::hex::{all_hex_digits, hex_digit_value, strip_lower_0x};

verus! {

/// 2^64.
pub open spec fn word_base() -> int {
    0x1_0000_0000_0000_0000int
}

/// 2^256: every `Uint256` value is below it.
pub open spec fn uint256_bound() -> int {
    word_base() * word_base() * word_base() * word_base()
}

/// A 256-bit unsigned integer (wei amounts, gas prices).
#[derive(Clone, Copy, Debug)]
pub struct Uint256 {
    /// Least significant word first.
    pub words: [u64; 4],
}

impl Uint256 {
    /// The number the four words denote.
    pub open spec fn value(self) -> int {
        self.words[0] + word_base() * (self.words[1] + word_base() * (self.words[2] + word_base()
            * self.words[3]))
    }

    /// Zero.
    pub fn zero() -> (r: Uint256)
        ensures
            r.value() == 0,
    {
        Uint256 { words: [0u64, 0u64, 0u64, 0u64] }
    }

    /// The value of a `u64` (what `U256::from(u64)` gives).
    pub fn from_u64(x: u64) -> (r: Uint256)
        ensures
            r.value() == x,
    {
        Uint256 { words: [x, 0u64, 0u64, 0u64] }
    }
}

/// Every value lies in `[0, 2^256)`.
pub proof fn lemma_value_bounds(a: Uint256)
    ensures
        0 <= a.value() < uint256_bound(),
{
    let b = word_base();
    let w0 = a.words[0] as int;
    let w1 = a.words[1] as int;
    let w2 = a.words[2] as int;
    let w3 = a.words[3] as int;
    assert(0 <= w0 < b && 0 <= w1 < b && 0 <= w2 < b && 0 <= w3 < b);
    assert(0 <= w2 + b * w3 <= b * b - 1) by (nonlinear_arith)
        requires
            0 <= w2 < b,
            0 <= w3 < b,
    ;
    let t2 = w2 + b * w3;
    assert(0 <= w1 + b * t2 <= b * b * b - 1) by (nonlinear_arith)
        requires
            0 <= w1 < b,
            0 <= t2 <= b * b - 1,
    ;
    let t1 = w1 + b * t2;
    assert(0 <= w0 + b * t1 <= b * b * b * b - 1) by (nonlinear_arith)
        requires
            0 <= w0 < b,
            0 <= t1 <= b * b * b - 1,
    ;
}

/// `U256::checked_mul` on the two values: `None` exactly when the product
/// does not fit in 256 bits, else the product.
#[verifier::external_body]
pub(crate) fn checked_mul(a: Uint256, b: Uint256) -> (r: Option<Uint256>)
    ensures
        r is Some <==> a.value() * b.value() < uint256_bound(),
        r matches Some(p) ==> p.value() == a.value() * b.value(),
{
    match ethers::types::U256(a.words).checked_mul(ethers::types::U256(b.words)) {
        Some(p) => Some(Uint256 { words: p.0 }),
        None => None,
    }
}

/// Hex digits read as a big-endian number.
pub open spec fn hex_number(digits: Seq<u8>) -> int
    decreases digits.len(),
{
    if digits.len() == 0 {
        0
    } else {
        hex_number(digits.drop_last()) * 16 + hex_digit_value(digits.last())
    }
}

/// What `U256::from_str` gives for `text`: after a leading `0x` is dropped,
/// at most 64 hex digits (none at all reads as zero) read as a big-endian
/// number; anything else is an error.
pub open spec fn uint256_text_value(text: Seq<u8>) -> Option<int> {
    let digits = strip_lower_0x(text);
    if digits.len() <= 64 && all_hex_digits(digits) {
        Some(hex_number(digits))
    } else {
        None
    }
}

/// `U256::from_str` (`ethers::types::U256`): the number exactly when
/// `uint256_text_value` gives one, `None` on a parse error.
#[verifier::external_body]
pub(crate) fn parse_uint256(text: &str) -> (r: Option<Uint256>)
    ensures
        match uint256_text_value(encode_utf8(text@)) {
            None => r is None,
            Some(v) => r matches Some(u) && u.value() == v,
        },
{
    match text.parse::<ethers::types::U256>() {
        Ok(u) => Some(Uint256 { words: u.0 }),
        Err(_) => None,
    }
}

} // verus!
