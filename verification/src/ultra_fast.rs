//! The raw-JSON watcher: it reads pending transactions as the text fields
//! of the node's JSON reply, picks the first new target transaction of a
//! block, and builds its replacement from those text fields.
use vstd::prelude::*;
use vstd::utf8::*;
use crate::ascii::{ascii_lower, bytes_eq_ignore_ascii_case, eq_ignore_ascii_case, region_eq_ignore_ascii_case};
use crate::config::{
    GAS_LIMIT, NEW_METHOD_TEXT, OLD_METHOD_TEXT, TARGET_FROM_TEXT, TARGET_TO, TARGET_TO_TEXT,
    ULTRA_FAST_GAS_MULTIPLIER,
};
use crate::calldata::{replace_selector, starts_with_selector};
use crate::config::{NEW_METHOD_ID, OLD_METHOD_ID, TARGET_FROM};
use crate::hex::{
    all_hex_digits, h256_text_value, hex_decode, hex_decoding, hex_encoding, hex_pairs, is_hex_digit,
    strip_hex_prefix, lemma_decode_encoding,
    lemma_encoding_concat, lemma_encoding_injective, lemma_encoding_lowercase, lemma_encoding_split,
    parse_h256,
};
use crate::processed::ProcessedTxs;
use crate::request::{FrontrunRequest, PrepareError};
use crate::uint256::{checked_mul, hex_number, parse_uint256, uint256_bound, uint256_text_value, Uint256};

verus! {

/// A pending transaction as text fields of the node's JSON reply; a field
/// that is missing or not a string is `None`.
pub struct RawTx {
    pub hash: Option<String>,
    pub from: Option<String>,
    pub to: Option<String>,
    pub input: Option<String>,
    pub value: Option<String>,
    pub gas_price: Option<String>,
}

/// Why a block scan stopped.
#[derive(Clone, Copy, Debug, PartialEq, Eq, Structural)]
pub enum ScanError {
    /// A target transaction's hash is not 32 bytes of hex.
    InvalidHash,
}

/// The UTF-8 bytes of a string.
pub open spec fn text(s: String) -> Seq<u8> {
    encode_utf8(s@)
}

/// The bytes of an optional field, empty where it is missing.
pub open spec fn field_text(f: Option<String>) -> Seq<u8> {
    match f {
        Some(s) => text(s),
        None => Seq::empty(),
    }
}

/// Sender and recipient are the watched ones (ASCII case ignored) and the
/// input text carries the watched selector in bytes 2..10.
pub open spec fn names_target(from: Seq<u8>, to: Seq<u8>, input: Seq<u8>) -> bool {
    &&& eq_ignore_ascii_case(from, TARGET_FROM_TEXT@)
    &&& eq_ignore_ascii_case(to, TARGET_TO_TEXT@)
    &&& input.len() >= 10
    &&& eq_ignore_ascii_case(input.subrange(2, 10), OLD_METHOD_TEXT@)
}

/// `tx` has hash, sender, recipient and input, and names the target.
pub open spec fn is_json_target(tx: RawTx) -> bool {
    match (tx.hash, tx.from, tx.to, tx.input) {
        (Some(_), Some(f), Some(t), Some(i)) => names_target(text(f), text(t), text(i)),
        _ => false,
    }
}

/// Looking at `tx` cannot fail on string slicing: where sender and
/// recipient match and the input has ten bytes, bytes 2 and 10 of the input
/// start characters.
pub open spec fn json_scan_safe(tx: RawTx) -> bool {
    match (tx.hash, tx.from, tx.to, tx.input) {
        (Some(_), Some(f), Some(t), Some(i)) => (eq_ignore_ascii_case(text(f), TARGET_FROM_TEXT@)
            && eq_ignore_ascii_case(text(t), TARGET_TO_TEXT@) && text(i).len() >= 10) ==> (
        is_char_boundary(text(i), 2) && is_char_boundary(text(i), 10)),
        _ => true,
    }
}

/// The scan stops at `tx`: a target whose hash does not parse, or whose
/// hash is not handled yet.
pub open spec fn halts_at(seen: Set<Seq<u8>>, tx: RawTx) -> bool {
    &&& is_json_target(tx)
    &&& match h256_text_value(field_text(tx.hash)) {
        None => true,
        Some(h) => !seen.contains(h),
    }
}

/// The first index from `i` on where the scan stops; `txs.len()` if none.
pub open spec fn first_halt(seen: Set<Seq<u8>>, txs: Seq<RawTx>, i: int) -> int
    decreases txs.len() - i,
{
    if i < 0 || i >= txs.len() {
        txs.len() as int
    } else if halts_at(seen, txs[i]) {
        i
    } else {
        first_halt(seen, txs, i + 1)
    }
}

proof fn lemma_first_halt_range(seen: Set<Seq<u8>>, txs: Seq<RawTx>, i: int)
    requires
        0 <= i <= txs.len(),
    ensures
        i <= first_halt(seen, txs, i) <= txs.len(),
        first_halt(seen, txs, i) < txs.len() ==> halts_at(seen, txs[first_halt(seen, txs, i)]),
    decreases txs.len() - i,
{
    if i < txs.len() && !halts_at(seen, txs[i]) {
        lemma_first_halt_range(seen, txs, i + 1);
    }
}

/// What scanning `txs` with the handled hashes `seen` gives, and the
/// handled hashes afterwards: the scan stops at `first_halt`; there a hash
/// that does not parse is an error, a new hash is marked handled and its
/// index returned; with no stop the result is `Ok(None)`.
pub open spec fn json_scan(seen: Set<Seq<u8>>, txs: Seq<RawTx>) -> (
    Result<Option<usize>, ScanError>,
    Set<Seq<u8>>,
) {
    let k = first_halt(seen, txs, 0);
    if k >= txs.len() {
        (Ok(None), seen)
    } else {
        match h256_text_value(field_text(txs[k].hash)) {
            None => (Err(ScanError::InvalidHash), seen),
            Some(h) => (Ok(Some(k as usize)), seen.insert(h)),
        }
    }
}

/// Whether the text fields name the target (see `names_target`).
pub fn names_target_text(from: &str, to: &str, input: &str) -> (r: bool)
    ensures
        r == names_target(encode_utf8(from@), encode_utf8(to@), encode_utf8(input@)),
{
    let input_bytes = input.as_bytes();
    bytes_eq_ignore_ascii_case(from.as_bytes(), TARGET_FROM_TEXT.as_slice())
        && bytes_eq_ignore_ascii_case(to.as_bytes(), TARGET_TO_TEXT.as_slice())
        && input_bytes.len() >= 10 && region_eq_ignore_ascii_case(
        input_bytes,
        2,
        OLD_METHOD_TEXT.as_slice(),
    )
}

/// Scans a block in order and stops at the first target whose hash does not
/// parse (an error) or is not handled yet (that hash is marked handled and
/// its index returned); `Ok(None)` when there is none.
pub fn select_json_target(processed: &mut ProcessedTxs, txs: &Vec<RawTx>) -> (r: Result<Option<usize>, ScanError>)
    requires
        forall|j: int|
            0 <= j < txs@.len() && j <= first_halt(old(processed)@, txs@, 0) ==> json_scan_safe(
                #[trigger] txs@[j],
            ),
    ensures
        (r, final(processed)@) == json_scan(old(processed)@, txs@),
{
    let ghost seen = processed@;
    let n = txs.len();
    proof {
        lemma_first_halt_range(seen, txs@, 0);
    }
    let mut i: usize = 0;
    while i < n
        invariant
            n == txs@.len(),
            i <= n,
            processed@ == seen,
            seen == old(processed)@,
            first_halt(seen, txs@, 0) == first_halt(seen, txs@, i as int),
            i <= first_halt(seen, txs@, 0) <= n,
            forall|j: int|
                0 <= j < txs@.len() && j <= first_halt(seen, txs@, 0) ==> json_scan_safe(
                    #[trigger] txs@[j],
                ),
        decreases n - i,
    {
        let tx = &txs[i];
        assert(json_scan_safe(txs@[i as int]));
        let mut stop = false;
        match (&tx.hash, &tx.from, &tx.to, &tx.input) {
            (Some(hash), Some(from), Some(to), Some(input)) => {
                if names_target_text(from.as_str(), to.as_str(), input.as_str()) {
                    match parse_h256(hash.as_str()) {
                        None => {
                            assert(halts_at(seen, txs@[i as int]));
                            assert(first_halt(seen, txs@, i as int) == i);
                            return Err(ScanError::InvalidHash);
                        },
                        Some(h) => {
                            if !processed.contains(&h) {
                                processed.insert(h);
                                assert(halts_at(seen, txs@[i as int]));
                                assert(first_halt(seen, txs@, i as int) == i);
                                return Ok(Some(i));
                            }
                        },
                    }
                }
            },
            _ => {},
        }
        assert(!halts_at(seen, txs@[i as int]));
        i = i + 1;
        proof {
            lemma_first_halt_range(seen, txs@, i as int);
        }
    }
    Ok(None)
}

/// The number in an optional numeric field: a missing field reads as the
/// text `0x0`.
pub open spec fn field_number(f: Option<String>) -> Option<int> {
    match f {
        Some(s) => uint256_text_value(text(s)),
        None => uint256_text_value(seq![48u8, 120u8, 48u8]),
    }
}

/// The calldata text of the replacement: `NEW_METHOD_TEXT` followed by the
/// input text from byte 10 on.
pub open spec fn json_calldata_text(tx: RawTx) -> Seq<u8> {
    NEW_METHOD_TEXT@ + field_text(tx.input).skip(10)
}

/// Building the replacement cannot fail on slicing or overflow: where the
/// input has ten bytes, byte 10 starts a character, and where the value
/// parses, the boosted gas price fits in 256 bits.
pub open spec fn json_prepare_safe(tx: RawTx) -> bool {
    field_text(tx.input).len() >= 10 ==> {
        &&& is_char_boundary(field_text(tx.input), 10)
        &&& field_number(tx.value) is Some ==> match field_number(tx.gas_price) {
            Some(g) => g * ULTRA_FAST_GAS_MULTIPLIER < uint256_bound(),
            None => true,
        }
    }
}

/// What building the replacement from `tx` gives (value, gas price, calldata)
/// or the first error met: input too short, value, gas price, calldata.
pub open spec fn json_prepared(tx: RawTx) -> Result<(int, int, Seq<u8>), PrepareError> {
    if field_text(tx.input).len() < 10 {
        Err(PrepareError::InputTooShort)
    } else {
        match field_number(tx.value) {
            None => Err(PrepareError::InvalidValue),
            Some(v) => match field_number(tx.gas_price) {
                None => Err(PrepareError::InvalidGasPrice),
                Some(g) => match hex_decoding(json_calldata_text(tx)) {
                    None => Err(PrepareError::InvalidCalldata),
                    Some(d) => Ok((v, g * ULTRA_FAST_GAS_MULTIPLIER, d)),
                },
            },
        }
    }
}

proof fn lemma_zero_text()
    ensures
        uint256_text_value(seq![48u8, 120u8, 48u8]) == Some(0int),
{
    let t = seq![48u8, 120u8, 48u8];
    let d = t.skip(2);
    assert(d =~= seq![48u8]);
    assert(d.drop_last() =~= Seq::<u8>::empty());
    reveal_with_fuel(hex_number, 2);
    assert(hex_number(d) == 0);
}

fn field_value(f: &Option<String>) -> (r: Option<Uint256>)
    ensures
        match field_number(*f) {
            None => r is None,
            Some(v) => r matches Some(u) && u.value() == v,
        },
{
    match f {
        Some(s) => parse_uint256(s.as_str()),
        None => {
            proof {
                lemma_zero_text();
            }
            Some(Uint256::zero())
        },
    }
}

/// Builds the replacement transaction from the text fields of a target:
/// recipient `TARGET_TO`, the parsed value, the calldata text rewritten to
/// start with `NEW_METHOD_TEXT` and decoded, gas limit `GAS_LIMIT`, the
/// parsed gas price times `ULTRA_FAST_GAS_MULTIPLIER`.
pub fn prepare_json_frontrun(tx: &RawTx) -> (r: Result<FrontrunRequest, PrepareError>)
    requires
        json_prepare_safe(*tx),
    ensures
        match (r, json_prepared(*tx)) {
            (Ok(q), Ok(t)) => {
                &&& q.to == TARGET_TO
                &&& q.value.value() == t.0
                &&& q.gas_price.value() == t.1
                &&& q.data@ == t.2
                &&& q.gas.value() == GAS_LIMIT
            },
            (Err(e), Err(f)) => e == f,
            _ => false,
        },
{
    let empty: Vec<u8> = Vec::new();
    let input_bytes: &[u8] = match &tx.input {
        Some(s) => s.as_str().as_bytes(),
        None => empty.as_slice(),
    };
    assert(input_bytes@ == field_text(tx.input));
    let n = input_bytes.len();
    if n < 10 {
        return Err(PrepareError::InputTooShort);
    }
    let mut modified: Vec<u8> = Vec::new();
    let mut k: usize = 0;
    while k < 8
        invariant
            k <= 8,
            modified@ == NEW_METHOD_TEXT@.take(k as int),
        decreases 8 - k,
    {
        modified.push(NEW_METHOD_TEXT[k]);
        k = k + 1;
        assert(modified@ =~= NEW_METHOD_TEXT@.take(k as int));
    }
    let mut i: usize = 10;
    while i < n
        invariant
            n == input_bytes@.len(),
            10 <= i <= n,
            modified@ == NEW_METHOD_TEXT@ + input_bytes@.subrange(10, i as int),
        decreases n - i,
    {
        modified.push(input_bytes[i]);
        i = i + 1;
        assert(modified@ =~= NEW_METHOD_TEXT@ + input_bytes@.subrange(10, i as int));
    }
    assert(input_bytes@.subrange(10, n as int) =~= input_bytes@.skip(10));
    let value = match field_value(&tx.value) {
        Some(v) => v,
        None => {
            return Err(PrepareError::InvalidValue);
        },
    };
    let gas = match field_value(&tx.gas_price) {
        Some(g) => g,
        None => {
            return Err(PrepareError::InvalidGasPrice);
        },
    };
    let gas_price = checked_mul(gas, Uint256::from_u64(ULTRA_FAST_GAS_MULTIPLIER)).unwrap();
    let data = match hex_decode(modified.as_slice()) {
        Ok(d) => d,
        Err(_) => {
            return Err(PrepareError::InvalidCalldata);
        },
    };
    Ok(
        FrontrunRequest {
            to: TARGET_TO,
            value,
            data,
            gas: Uint256::from_u64(GAS_LIMIT),
            gas_price,
        },
    )
}

proof fn lemma_first_halt_skip(seen: Set<Seq<u8>>, txs: Seq<RawTx>, i: int, m: int)
    requires
        0 <= i <= m <= txs.len(),
        forall|j: int| i <= j < m ==> !halts_at(seen, #[trigger] txs[j]),
    ensures
        first_halt(seen, txs, i) == first_halt(seen, txs, m),
    decreases m - i,
{
    if i < m {
        lemma_first_halt_skip(seen, txs, i + 1, m);
    }
}

proof fn lemma_before_first_halt(seen: Set<Seq<u8>>, txs: Seq<RawTx>, i: int, j: int)
    requires
        0 <= i <= j < first_halt(seen, txs, i),
        j < txs.len(),
    ensures
        !halts_at(seen, txs[j]),
    decreases j - i,
{
    if i < j {
        lemma_before_first_halt(seen, txs, i + 1, j);
    }
}

/// Once the raw-JSON watcher has picked a transaction of a block, scanning
/// the same block again, with the hashes left by the first scan, never picks
/// that transaction or one before it.
pub proof fn lemma_json_rescan_moves_on(seen: Set<Seq<u8>>, txs: Seq<RawTx>, k: usize)
    requires
        txs.len() <= usize::MAX,
        json_scan(seen, txs).0 == Ok::<Option<usize>, ScanError>(Some(k)),
    ensures
        first_halt(json_scan(seen, txs).1, txs, 0) > k,
        match json_scan(json_scan(seen, txs).1, txs).0 {
            Ok(Some(k2)) => k2 > k,
            _ => true,
        },
{
    let f = first_halt(seen, txs, 0);
    lemma_first_halt_range(seen, txs, 0);
    assert(f == k);
    let h = h256_text_value(field_text(txs[f].hash))->0;
    let after = seen.insert(h);
    assert(json_scan(seen, txs).1 == after);
    assert forall|j: int| 0 <= j < k + 1 implies !halts_at(after, #[trigger] txs[j]) by {
        if j < k {
            lemma_before_first_halt(seen, txs, 0, j);
        }
    }
    lemma_first_halt_skip(after, txs, 0, k + 1);
    lemma_first_halt_range(after, txs, k + 1);
}

/// For calldata `c` written as `0x` and its lowercase hex, the raw-JSON
/// watcher sees the watched selector exactly where `c` calls the watched
/// method, and the replacement calldata it decodes is `c` with
/// `NEW_METHOD_ID` in place of the selector: what the typed-block watcher
/// sends for the same call.
pub proof fn lemma_json_calldata_rewrite(c: Seq<u8>)
    requires
        c.len() >= 4,
    ensures
        ({
            let input = seq![48u8, 120u8] + hex_encoding(c);
            &&& input.len() >= 10
            &&& starts_with_selector(c, OLD_METHOD_ID@) ==> eq_ignore_ascii_case(
                input.subrange(2, 10),
                OLD_METHOD_TEXT@,
            )
            &&& hex_decoding(NEW_METHOD_TEXT@ + input.skip(10)) == Some(
                replace_selector(c, NEW_METHOD_ID@),
            )
        }),
{
    let e = hex_encoding(c);
    let input = seq![48u8, 120u8] + e;
    lemma_encoding_split(c, 4);
    assert(input.skip(10) =~= e.skip(8));
    assert(input.subrange(2, 10) =~= e.take(8));
    assert(NEW_METHOD_ID@ =~= seq![0xb4u8, 0x20u8, 0x6du8, 0xd2u8]);
    assert(hex_encoding(NEW_METHOD_ID@) =~= NEW_METHOD_TEXT@);
    lemma_encoding_concat(NEW_METHOD_ID@, c.skip(4));
    lemma_decode_encoding(replace_selector(c, NEW_METHOD_ID@));
    if starts_with_selector(c, OLD_METHOD_ID@) {
        assert(OLD_METHOD_ID@ =~= seq![0x38u8, 0x0fu8, 0x9cu8, 0x38u8]);
        assert(hex_encoding(OLD_METHOD_ID@) =~= OLD_METHOD_TEXT@);
        assert forall|i: int| 0 <= i < 8 implies ascii_lower(
            #[trigger] input.subrange(2, 10)[i],
        ) == ascii_lower(OLD_METHOD_TEXT@[i]) by {}
    }
}

/// `0x` followed by the lowercase hex text of `bytes`: how a node writes
/// an address or calldata in JSON.
pub open spec fn prefixed_hex(bytes: Seq<u8>) -> Seq<u8> {
    seq![48u8, 120u8] + hex_encoding(bytes)
}

proof fn lemma_eq_ignore_case_trans(a: Seq<u8>, b: Seq<u8>, c: Seq<u8>)
    requires
        eq_ignore_ascii_case(b, c),
    ensures
        eq_ignore_ascii_case(a, b) <==> eq_ignore_ascii_case(a, c),
{
    if eq_ignore_ascii_case(a, b) {
        assert forall|i: int| 0 <= i < a.len() implies ascii_lower(#[trigger] a[i]) == ascii_lower(
            c[i],
        ) by {
            assert(ascii_lower(b[i]) == ascii_lower(c[i]));
        }
    }
    if eq_ignore_ascii_case(a, c) {
        assert forall|i: int| 0 <= i < a.len() implies ascii_lower(#[trigger] a[i]) == ascii_lower(
            b[i],
        ) by {
            assert(ascii_lower(b[i]) == ascii_lower(c[i]));
        }
    }
}

proof fn lemma_prefixed_hex_eq(a: Seq<u8>, b: Seq<u8>)
    ensures
        eq_ignore_ascii_case(prefixed_hex(a), prefixed_hex(b)) <==> a == b,
{
    let x = prefixed_hex(a);
    let y = prefixed_hex(b);
    lemma_encoding_lowercase(a);
    lemma_encoding_lowercase(b);
    if eq_ignore_ascii_case(x, y) {
        assert forall|i: int| 0 <= i < x.len() implies x[i] == y[i] by {
            assert(ascii_lower(x[i]) == ascii_lower(y[i]));
            if i >= 2 {
                assert(x[i] == hex_encoding(a)[i - 2]);
                assert(y[i] == hex_encoding(b)[i - 2]);
            }
        }
        assert(x =~= y);
        assert(hex_encoding(a) =~= x.skip(2));
        assert(hex_encoding(b) =~= y.skip(2));
        lemma_encoding_injective(a, b);
    }
}

proof fn lemma_target_texts()
    ensures
        eq_ignore_ascii_case(TARGET_FROM_TEXT@, prefixed_hex(TARGET_FROM@)),
        eq_ignore_ascii_case(TARGET_TO_TEXT@, prefixed_hex(TARGET_TO@)),
{
    let a = TARGET_FROM@;
    assert(a =~= seq![0xc2u8, 0xdbu8, 0x89u8, 0xb2u8, 0xbdu8, 0x43u8, 0x4cu8, 0xeau8, 0xc6u8, 0xc7u8, 0x4fu8, 0xbcu8, 0x0bu8, 0x2au8, 0xd3u8, 0xa2u8, 0x80u8, 0xe6u8, 0x6du8, 0xb0u8]);
    let t = TARGET_FROM_TEXT@;
    assert(t =~= seq![0x30u8, 0x78u8, 0x63u8, 0x32u8, 0x44u8, 0x62u8, 0x38u8, 0x39u8, 0x42u8, 0x32u8, 0x42u8, 0x64u8, 0x34u8, 0x33u8, 0x34u8, 0x63u8, 0x65u8, 0x41u8, 0x63u8, 0x36u8, 0x43u8, 0x37u8, 0x34u8, 0x46u8, 0x42u8, 0x63u8, 0x30u8, 0x42u8, 0x32u8, 0x61u8, 0x64u8, 0x33u8, 0x61u8, 0x32u8, 0x38u8, 0x30u8, 0x65u8, 0x36u8, 0x36u8, 0x44u8, 0x42u8, 0x30u8]);
    let e = prefixed_hex(a);
    assert forall|i: int| 0 <= i < 42 implies ascii_lower(#[trigger] t[i]) == ascii_lower(e[i]) by {}
    let a2 = TARGET_TO@;
    assert(a2 =~= seq![0x26u8, 0x75u8, 0x9du8, 0xbbu8, 0x20u8, 0x1au8, 0xfbu8, 0xa3u8, 0x61u8, 0xbeu8, 0xc7u8, 0x8eu8, 0x09u8, 0x7au8, 0xa3u8, 0x94u8, 0x2bu8, 0x0bu8, 0x4au8, 0xb8u8]);
    let t2 = TARGET_TO_TEXT@;
    assert(t2 =~= seq![0x30u8, 0x78u8, 0x32u8, 0x36u8, 0x37u8, 0x35u8, 0x39u8, 0x64u8, 0x62u8, 0x42u8, 0x32u8, 0x30u8, 0x31u8, 0x61u8, 0x46u8, 0x62u8, 0x41u8, 0x33u8, 0x36u8, 0x31u8, 0x42u8, 0x65u8, 0x63u8, 0x37u8, 0x38u8, 0x45u8, 0x30u8, 0x39u8, 0x37u8, 0x41u8, 0x61u8, 0x33u8, 0x39u8, 0x34u8, 0x32u8, 0x42u8, 0x30u8, 0x62u8, 0x34u8, 0x41u8, 0x42u8, 0x38u8]);
    let e2 = prefixed_hex(a2);
    assert forall|i: int| 0 <= i < 42 implies ascii_lower(#[trigger] t2[i]) == ascii_lower(e2[i]) by {}
}

/// Both watchers watch the same calls: for a sender, recipient and calldata
/// written in JSON as `0x`-prefixed lowercase hex, the raw-JSON watcher's
/// test holds exactly when the typed-block watcher's test holds for the
/// bytes.
pub proof fn lemma_watchers_agree(from: Seq<u8>, to: Seq<u8>, input: Seq<u8>)
    requires
        from.len() == 20,
        to.len() == 20,
    ensures
        names_target(prefixed_hex(from), prefixed_hex(to), prefixed_hex(input)) <==> {
            &&& from == TARGET_FROM@
            &&& to == TARGET_TO@
            &&& starts_with_selector(input, OLD_METHOD_ID@)
        },
{
    lemma_target_texts();
    lemma_eq_ignore_case_trans(prefixed_hex(from), TARGET_FROM_TEXT@, prefixed_hex(TARGET_FROM@));
    lemma_eq_ignore_case_trans(prefixed_hex(to), TARGET_TO_TEXT@, prefixed_hex(TARGET_TO@));
    lemma_prefixed_hex_eq(from, TARGET_FROM@);
    lemma_prefixed_hex_eq(to, TARGET_TO@);
    let text = prefixed_hex(input);
    if input.len() >= 4 {
        lemma_encoding_split(input, 4);
        assert(text.subrange(2, 10) =~= hex_encoding(input).take(8));
        assert(OLD_METHOD_ID@ =~= seq![0x38u8, 0x0fu8, 0x9cu8, 0x38u8]);
        assert(hex_encoding(OLD_METHOD_ID@) =~= OLD_METHOD_TEXT@);
        lemma_encoding_lowercase(input.take(4));
        lemma_encoding_lowercase(OLD_METHOD_ID@);
        let x = hex_encoding(input.take(4));
        let y = hex_encoding(OLD_METHOD_ID@);
        if eq_ignore_ascii_case(x, y) {
            assert forall|i: int| 0 <= i < x.len() implies x[i] == y[i] by {
                assert(ascii_lower(x[i]) == ascii_lower(y[i]));
            }
            assert(x =~= y);
            lemma_encoding_injective(input.take(4), OLD_METHOD_ID@);
        }
    } else {
        assert(text.len() < 10);
    }
}

/// `tx` carries all four fields and they name the watched sender, the
/// watched contract and the watched selector.
proof fn lemma_json_target_fields(tx: RawTx)
    ensures
        is_json_target(tx) <==> (tx.hash is Some && tx.from is Some && tx.to is Some && tx.input
            is Some && names_target(field_text(tx.from), field_text(tx.to), field_text(tx.input))),
{
}

/// What a scan of a block answers, in terms of the transactions' fields:
/// - `Ok(None)` only when every transaction that carries hash, sender,
///   recipient and input and names the watched sender, contract and
///   selector has a hash that parses and is already handled; nothing is
///   marked then;
/// - `Ok(Some(k))` only for such a target whose hash parses to a hash not
///   handled before, which is then marked, and with no such target, new or
///   with an unparsable hash, before it;
/// - an error only at such a target whose hash does not parse, with none of
///   these before it; nothing is marked then.
pub proof fn lemma_json_scan_outcome(seen: Set<Seq<u8>>, txs: Seq<RawTx>)
    requires
        txs.len() <= usize::MAX,
    ensures
        json_scan(seen, txs).0 == Ok::<Option<usize>, ScanError>(None) ==> {
            &&& json_scan(seen, txs).1 == seen
            &&& forall|j: int|
                0 <= j < txs.len() && txs[j].hash is Some && txs[j].from is Some && txs[j].to
                    is Some && txs[j].input is Some && names_target(
                    field_text(txs[j].from),
                    field_text(txs[j].to),
                    field_text(txs[j].input),
                ) ==> (h256_text_value(field_text(#[trigger] txs[j].hash)) matches Some(h)
                    && seen.contains(h))
        },
        json_scan(seen, txs).0 matches Ok(Some(k)) ==> {
            &&& k < txs.len()
            &&& txs[k as int].hash is Some && txs[k as int].from is Some && txs[k as int].to is Some
                && txs[k as int].input is Some
            &&& names_target(
                field_text(txs[k as int].from),
                field_text(txs[k as int].to),
                field_text(txs[k as int].input),
            )
            &&& h256_text_value(field_text(txs[k as int].hash)) matches Some(h) && !seen.contains(
                h,
            ) && json_scan(seen, txs).1 == seen.insert(h)
        },
        json_scan(seen, txs).0 is Err ==> json_scan(seen, txs).1 == seen && exists|k: int|
            0 <= k < txs.len() && txs[k].from is Some && txs[k].to is Some && txs[k].input is Some
                && names_target(field_text(txs[k].from), field_text(txs[k].to), field_text(txs[k].input))
                && h256_text_value(field_text(#[trigger] txs[k].hash)) is None,
        forall|j: int|
            0 <= j < first_halt(seen, txs, 0) && j < txs.len() && txs[j].hash is Some
                && txs[j].from is Some && txs[j].to is Some && txs[j].input is Some && names_target(
                field_text(txs[j].from),
                field_text(txs[j].to),
                field_text(txs[j].input),
            ) ==> (h256_text_value(field_text(#[trigger] txs[j].hash)) matches Some(h)
                && seen.contains(h)),
        json_scan(seen, txs).0 matches Ok(Some(k)) ==> k == first_halt(seen, txs, 0),
        json_scan(seen, txs).0 is Err ==> first_halt(seen, txs, 0) < txs.len(),
{
    lemma_first_halt_range(seen, txs, 0);
    let f = first_halt(seen, txs, 0);
    assert forall|j: int|
        0 <= j < f && j < txs.len() && txs[j].hash is Some && txs[j].from is Some && txs[j].to
            is Some && txs[j].input is Some && names_target(
            field_text(txs[j].from),
            field_text(txs[j].to),
            field_text(txs[j].input),
        ) implies (h256_text_value(field_text(#[trigger] txs[j].hash)) matches Some(h)
        && seen.contains(h)) by {
        lemma_before_first_halt(seen, txs, 0, j);
        lemma_json_target_fields(txs[j]);
    }
    if f < txs.len() {
        lemma_json_target_fields(txs[f]);
    }
}

/// The bytes that NEW_METHOD_TEXT denotes are NEW_METHOD_ID.
proof fn lemma_new_method_text()
    ensures
        hex_pairs(NEW_METHOD_TEXT@) == NEW_METHOD_ID@,
        NEW_METHOD_TEXT@.len() == 8,
        all_hex_digits(NEW_METHOD_TEXT@),
        NEW_METHOD_TEXT@[0] != 48,
{
    assert(NEW_METHOD_TEXT@ =~= seq![0x62u8, 0x34u8, 0x32u8, 0x30u8, 0x36u8, 0x64u8, 0x64u8, 0x32u8]);
    assert(NEW_METHOD_ID@ =~= seq![0xb4u8, 0x20u8, 0x6du8, 0xd2u8]);
    assert(hex_pairs(NEW_METHOD_TEXT@) =~= NEW_METHOD_ID@);
}

/// Decoding `NEW_METHOD_TEXT` followed by `rest` gives `NEW_METHOD_ID`
/// followed by the bytes `rest` denotes, and fails exactly when `rest` has
/// odd length or a byte that is no hex digit.
proof fn lemma_decode_after_new_text(rest: Seq<u8>)
    ensures
        hex_decoding(NEW_METHOD_TEXT@ + rest) is Some <==> (rest.len() % 2 == 0 && all_hex_digits(
            rest,
        )),
        hex_decoding(NEW_METHOD_TEXT@ + rest) is Some ==> hex_decoding(NEW_METHOD_TEXT@ + rest)
            == Some(NEW_METHOD_ID@ + hex_pairs(rest)),
{
    lemma_new_method_text();
    let t = NEW_METHOD_TEXT@ + rest;
    assert(strip_hex_prefix(t) == t);
    if rest.len() % 2 == 0 && all_hex_digits(rest) {
        assert forall|i: int| 0 <= i < t.len() implies is_hex_digit(#[trigger] t[i]) by {
            if i >= 8 {
                assert(t[i] == rest[i - 8]);
            }
        }
        let p = hex_pairs(t);
        let q = NEW_METHOD_ID@ + hex_pairs(rest);
        assert forall|i: int| 0 <= i < p.len() implies p[i] == q[i] by {
            if i < 4 {
                assert(t[2 * i] == NEW_METHOD_TEXT@[2 * i]);
                assert(t[2 * i + 1] == NEW_METHOD_TEXT@[2 * i + 1]);
                assert(hex_pairs(NEW_METHOD_TEXT@)[i] == NEW_METHOD_ID@[i]);
            } else {
                assert(t[2 * i] == rest[2 * (i - 4)]);
                assert(t[2 * i + 1] == rest[2 * (i - 4) + 1]);
            }
        }
        assert(p =~= q);
    } else if rest.len() % 2 == 0 {
        let i = choose|i: int| 0 <= i < rest.len() && !is_hex_digit(rest[i]);
        assert(t[i + 8] == rest[i]);
    }
}

/// What building the replacement from the text fields gives, in terms of
/// those fields (`input` the input text, `rest` its bytes from 10 on):
/// - too short exactly when `input` has fewer than ten bytes;
/// - a value error exactly when, past that, the value text does not parse
///   (a missing value reads as zero);
/// - a gas price error exactly when, past those, the gas price text does not
///   parse;
/// - a calldata error exactly when, past those, `rest` has odd length or a
///   byte that is no hex digit;
/// - otherwise the parsed value, twice the parsed gas price, and calldata
///   `NEW_METHOD_ID` followed by all the bytes that `rest` denotes.
pub proof fn lemma_json_prepared_outcome(tx: RawTx)
    ensures
        tx.value is None ==> field_number(tx.value) == Some(0int),
        (json_prepared(tx) == Err::<(int, int, Seq<u8>), PrepareError>(PrepareError::InputTooShort))
            <==> field_text(tx.input).len() < 10,
        (json_prepared(tx) == Err::<(int, int, Seq<u8>), PrepareError>(PrepareError::InvalidValue))
            <==> (field_text(tx.input).len() >= 10 && field_number(tx.value) is None),
        (json_prepared(tx) == Err::<(int, int, Seq<u8>), PrepareError>(PrepareError::InvalidGasPrice))
            <==> (field_text(tx.input).len() >= 10 && field_number(tx.value) is Some
            && field_number(tx.gas_price) is None),
        (json_prepared(tx) == Err::<(int, int, Seq<u8>), PrepareError>(PrepareError::InvalidCalldata))
            <==> (field_text(tx.input).len() >= 10 && field_number(tx.value) is Some
            && field_number(tx.gas_price) is Some && !(field_text(tx.input).skip(10).len() % 2 == 0
            && all_hex_digits(field_text(tx.input).skip(10)))),
        json_prepared(tx) matches Ok(t) ==> {
            &&& field_number(tx.value) == Some(t.0)
            &&& field_number(tx.gas_price) matches Some(g) && t.1 == g * ULTRA_FAST_GAS_MULTIPLIER
            &&& t.2 == NEW_METHOD_ID@ + hex_pairs(field_text(tx.input).skip(10))
            &&& t.2.len() == 4 + field_text(tx.input).skip(10).len() / 2
        },
{
    lemma_zero_text();
    lemma_decode_after_new_text(field_text(tx.input).skip(10));
}

/// For input text `0x` and the lowercase hex of calldata `c` (at least a
/// selector long), with value and gas price texts that parse, the
/// replacement is built and its calldata is all of `c` with `NEW_METHOD_ID`
/// in place of the selector.
pub proof fn lemma_json_prepared_calldata(tx: RawTx, c: Seq<u8>)
    requires
        c.len() >= 4,
        field_text(tx.input) == prefixed_hex(c),
        field_number(tx.value) is Some,
        field_number(tx.gas_price) is Some,
    ensures
        json_prepared(tx) matches Ok(t) && t.2 == replace_selector(c, NEW_METHOD_ID@),
{
    lemma_json_calldata_rewrite(c);
    assert(json_calldata_text(tx) == NEW_METHOD_TEXT@ + prefixed_hex(c).skip(10));
}

} // verus!
