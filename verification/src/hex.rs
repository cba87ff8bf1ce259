//! Hexadecimal text, as `ethers::utils::hex` writes and reads it.
use vstd::prelude::*;
use vstd::utf8::*;

verus! {

/// An ASCII hex digit, either case.
pub open spec fn is_hex_digit(c: u8) -> bool {
    (48 <= c <= 57) || (97 <= c <= 102) || (65 <= c <= 70)
}

/// The number a hex digit stands for.
pub open spec fn hex_digit_value(c: u8) -> int {
    if 48 <= c <= 57 {
        c - 48
    } else if 97 <= c <= 102 {
        c - 87
    } else {
        c - 55
    }
}

/// The lowercase hex digit of a number below 16.
pub open spec fn lower_hex_digit(n: int) -> u8 {
    if n < 10 {
        (48 + n) as u8
    } else {
        (87 + n) as u8
    }
}

/// Every byte of `text` is a hex digit.
pub open spec fn all_hex_digits(text: Seq<u8>) -> bool {
    forall|i: int| 0 <= i < text.len() ==> is_hex_digit(#[trigger] text[i])
}

/// Lowercase hex text of `data`: two digits per byte, high nibble first.
pub open spec fn hex_encoding(data: Seq<u8>) -> Seq<u8> {
    Seq::new(
        data.len() * 2,
        |i: int|
            if i % 2 == 0 {
                lower_hex_digit((data[i / 2] / 16) as int)
            } else {
                lower_hex_digit((data[i / 2] % 16) as int)
            },
    )
}

/// The bytes denoted by hex digits read in pairs, high nibble first.
pub open spec fn hex_pairs(digits: Seq<u8>) -> Seq<u8> {
    Seq::new(
        digits.len() / 2,
        |i: int| (hex_digit_value(digits[2 * i]) * 16 + hex_digit_value(digits[2 * i + 1])) as u8,
    )
}

/// `text` without a leading `0x` or `0X`.
pub open spec fn strip_hex_prefix(text: Seq<u8>) -> Seq<u8> {
    if text.len() >= 2 && text[0] == 48 && (text[1] == 120 || text[1] == 88) {
        text.skip(2)
    } else {
        text
    }
}

/// What `ethers::utils::hex::decode` gives for `text`: an error when the
/// whole text has odd length or, once a `0x`/`0X` prefix is dropped, holds a
/// byte that is no hex digit; otherwise the decoded bytes.
pub open spec fn hex_decoding(text: Seq<u8>) -> Option<Seq<u8>> {
    if text.len() % 2 != 0 {
        None
    } else if all_hex_digits(strip_hex_prefix(text)) {
        Some(hex_pairs(strip_hex_prefix(text)))
    } else {
        None
    }
}

/// The characters of a byte string read one byte per character.
pub open spec fn ascii_chars(bytes: Seq<u8>) -> Seq<char> {
    bytes.map_values(|b: u8| b as char)
}

/// `text` without a leading lowercase `0x`, as `str::strip_prefix("0x")`
/// leaves it.
pub open spec fn strip_lower_0x(text: Seq<u8>) -> Seq<u8> {
    if text.len() >= 2 && text[0] == 48 && text[1] == 120 {
        text.skip(2)
    } else {
        text
    }
}

/// The bytes that hex readers of transaction hashes skip: space, tab, CR, LF.
pub open spec fn is_hex_space(c: u8) -> bool {
    c == 32 || c == 9 || c == 10 || c == 13
}

/// What `H256::from_str` gives for `text`: after a leading `0x` and all
/// spaces, tabs and line breaks are dropped, exactly 64 hex digits, read in
/// pairs; anything else is an error.
pub open spec fn h256_text_value(text: Seq<u8>) -> Option<Seq<u8>> {
    let digits = strip_lower_0x(text).filter(|c: u8| !is_hex_space(c));
    if digits.len() == 64 && all_hex_digits(digits) {
        Some(hex_pairs(digits))
    } else {
        None
    }
}

#[verifier::external_type_specification]
#[verifier::external_body]
pub struct ExFromHexError(ethers::utils::hex::FromHexError);

/// `ethers::utils::hex::encode`: the lowercase hex text of `data`.
#[verifier::external_body]
pub(crate) fn hex_encode(data: &[u8]) -> (text: String)
    ensures
        text@ == ascii_chars(hex_encoding(data@)),
{
    ethers::utils::hex::encode(data)
}

/// `ethers::utils::hex::decode`: `Ok` with the decoded bytes exactly when
/// `hex_decoding` gives them, an error otherwise.
#[verifier::external_body]
pub(crate) fn hex_decode(text: &[u8]) -> (r: Result<Vec<u8>, ethers::utils::hex::FromHexError>)
    ensures
        match r {
            Ok(v) => hex_decoding(text@) == Some(v@),
            Err(_) => hex_decoding(text@) is None,
        },
{
    ethers::utils::hex::decode(text)
}

/// `H256::from_str` (`ethers::types::H256`): the hash bytes exactly when
/// `h256_text_value` gives them, `None` on a parse error.
#[verifier::external_body]
pub(crate) fn parse_h256(text: &str) -> (r: Option<[u8; 32]>)
    ensures
        match h256_text_value(encode_utf8(text@)) {
            None => r is None,
            Some(h) => r matches Some(a) && a@ == h,
        },
{
    match text.parse::<ethers::types::H256>() {
        Ok(h) => Some(h.0),
        Err(_) => None,
    }
}

proof fn lemma_lower_hex_digit(n: int)
    requires
        0 <= n < 16,
    ensures
        is_hex_digit(lower_hex_digit(n)),
        hex_digit_value(lower_hex_digit(n)) == n,
        lower_hex_digit(n) != 120 && lower_hex_digit(n) != 88,
        lower_hex_digit(n) < 128,
{
}

/// Hex text is ASCII, so its UTF-8 bytes are the digits themselves.
pub proof fn lemma_hex_text_bytes(data: Seq<u8>)
    ensures
        encode_utf8(ascii_chars(hex_encoding(data))) == hex_encoding(data),
{
    let e = hex_encoding(data);
    let c = ascii_chars(e);
    assert forall|i: int| 0 <= i < e.len() implies e[i] < 128 by {
        lemma_lower_hex_digit((data[i / 2] / 16) as int);
        lemma_lower_hex_digit((data[i / 2] % 16) as int);
    }
    assert(is_ascii_chars(c));
    vstd::utf8::is_ascii_chars_encode_utf8(c);
    assert forall|i: int| 0 <= i < e.len() implies encode_utf8(c)[i] == e[i] by {
        assert(c[i] == e[i] as char);
        assert(c[i] as u8 == encode_utf8(c)[i]);
    }
    assert(encode_utf8(c) =~= e);
}

/// Decoding undoes encoding: the text `hex_encode` writes for `data` is
/// read back by `hex_decode` as `data`.
pub proof fn lemma_hex_round_trip(data: Seq<u8>)
    ensures
        hex_decoding(encode_utf8(ascii_chars(hex_encoding(data)))) == Some(data),
{
    lemma_hex_text_bytes(data);
    let e = hex_encoding(data);
    assert forall|i: int| 0 <= i < e.len() implies is_hex_digit(#[trigger] e[i]) by {
        lemma_lower_hex_digit((data[i / 2] / 16) as int);
        lemma_lower_hex_digit((data[i / 2] % 16) as int);
    }
    if e.len() >= 2 {
        lemma_lower_hex_digit((data[0] / 16) as int);
        lemma_lower_hex_digit((data[0] % 16) as int);
    }
    assert(strip_hex_prefix(e) == e);
    assert forall|i: int| 0 <= i < data.len() implies #[trigger] hex_pairs(e)[i] == data[i] by {
        assert((2 * i) / 2 == i && (2 * i) % 2 == 0);
        assert((2 * i + 1) / 2 == i && (2 * i + 1) % 2 == 1);
        lemma_lower_hex_digit((data[i] / 16) as int);
        lemma_lower_hex_digit((data[i] % 16) as int);
    }
    assert(hex_pairs(e) =~= data);
}

/// Reading back lowercase hex text gives the bytes it was written from.
pub proof fn lemma_decode_encoding(data: Seq<u8>)
    ensures
        hex_decoding(hex_encoding(data)) == Some(data),
{
    lemma_hex_round_trip(data);
    lemma_hex_text_bytes(data);
}

/// The hex text of a concatenation is the concatenation of the hex texts.
pub proof fn lemma_encoding_concat(a: Seq<u8>, b: Seq<u8>)
    ensures
        hex_encoding(a + b) == hex_encoding(a) + hex_encoding(b),
{
    let l = hex_encoding(a + b);
    let r = hex_encoding(a) + hex_encoding(b);
    assert forall|i: int| 0 <= i < l.len() implies l[i] == r[i] by {
        if i >= 2 * a.len() {
            let k = i - 2 * a.len();
            assert(i / 2 == a.len() + k / 2);
            assert(i % 2 == k % 2);
        }
    }
    assert(l =~= r);
}

/// Hex text of `data` without its first `2 * m` digits is the hex text of
/// `data` without its first `m` bytes; its first `2 * m` digits are the hex
/// text of the first `m` bytes.
pub proof fn lemma_encoding_split(data: Seq<u8>, m: int)
    requires
        0 <= m <= data.len(),
    ensures
        hex_encoding(data).skip(2 * m) == hex_encoding(data.skip(m)),
        hex_encoding(data).take(2 * m) == hex_encoding(data.take(m)),
{
    assert(data =~= data.take(m) + data.skip(m));
    lemma_encoding_concat(data.take(m), data.skip(m));
    assert(hex_encoding(data).skip(2 * m) =~= hex_encoding(data.skip(m)));
    assert(hex_encoding(data).take(2 * m) =~= hex_encoding(data.take(m)));
}

/// Hex text holds no uppercase letter.
pub proof fn lemma_encoding_lowercase(data: Seq<u8>)
    ensures
        forall|i: int|
            0 <= i < hex_encoding(data).len() ==> !(65 <= #[trigger] hex_encoding(data)[i] <= 90),
{
    assert forall|i: int| 0 <= i < hex_encoding(data).len() implies !(65 <= #[trigger] hex_encoding(
        data,
    )[i] <= 90) by {
        lemma_lower_hex_digit((data[i / 2] / 16) as int);
        lemma_lower_hex_digit((data[i / 2] % 16) as int);
    }
}

/// Different bytes have different hex texts.
pub proof fn lemma_encoding_injective(a: Seq<u8>, b: Seq<u8>)
    ensures
        hex_encoding(a) == hex_encoding(b) ==> a == b,
{
    lemma_decode_encoding(a);
    lemma_decode_encoding(b);
}

} // verus!
