//! The typed-block watcher: it reads decoded pending transactions, emits
//! an order for each new target transaction, and turns an order into a
//! replacement transaction.
use vstd::prelude::*;
use vstd::utf8::*;
use crate::ascii::bytes_eq;
use crate::calldata::{calls_old_method, replace_selector, starts_with_selector, with_new_selector};
use crate::config::{GAS_LIMIT, NEW_METHOD_ID, OLD_METHOD_ID, OPTIMIZED_GAS_MULTIPLIER, TARGET_FROM, TARGET_TO};
use crate::hex::{ascii_chars, hex_decode, hex_decoding, hex_encode, hex_encoding, lemma_hex_round_trip};
use crate::processed::ProcessedTxs;
use crate::request::{FrontrunRequest, PrepareError};
use crate::uint256::{checked_mul, lemma_value_bounds, Uint256};

verus! {

/// A pending transaction as the node returns it.
pub struct PendingTx {
    pub hash: [u8; 32],
    pub from: [u8; 20],
    pub to: Option<[u8; 20]>,
    pub value: Uint256,
    pub gas_price: Option<Uint256>,
    pub input: Vec<u8>,
}

/// What is kept of a target transaction until the replacement is built:
/// recipient, value, gas price and the calldata as lowercase hex text.
pub struct TxData {
    pub to: [u8; 20],
    pub value: Uint256,
    pub gas_price: Uint256,
    pub input: String,
}

/// A call of the watched method by the watched sender on the watched
/// contract.
pub open spec fn is_target_tx(tx: PendingTx) -> bool {
    &&& tx.from@ == TARGET_FROM@
    &&& tx.to matches Some(to) && to@ == TARGET_TO@
    &&& starts_with_selector(tx.input@, OLD_METHOD_ID@)
}

/// The gas price of `tx`, zero where the node gave none.
pub open spec fn gas_price_or_zero(tx: PendingTx) -> int {
    match tx.gas_price {
        Some(g) => g.value(),
        None => 0,
    }
}

/// `d` is the order kept for `tx`.
pub open spec fn is_order_for(d: TxData, tx: PendingTx) -> bool {
    &&& tx.to == Some(d.to)
    &&& d.value == tx.value
    &&& d.gas_price.value() == gas_price_or_zero(tx)
    &&& d.input@ == ascii_chars(hex_encoding(tx.input@))
}

/// Scanning `txs` in order with the handled hashes `seen`: the hashes
/// handled afterwards, and the indices of the transactions that get an
/// order (targets whose hash was not handled yet).
pub open spec fn scan(seen: Set<Seq<u8>>, txs: Seq<PendingTx>) -> (Set<Seq<u8>>, Seq<int>)
    decreases txs.len(),
{
    if txs.len() == 0 {
        (seen, Seq::empty())
    } else {
        let prev = scan(seen, txs.drop_last());
        let t = txs.last();
        if !prev.0.contains(t.hash@) && is_target_tx(t) {
            (prev.0.insert(t.hash@), prev.1.push(txs.len() - 1))
        } else {
            prev
        }
    }
}

/// Whether `tx` is a target transaction.
pub fn is_target(tx: &PendingTx) -> (r: bool)
    ensures
        r == is_target_tx(*tx),
{
    if !bytes_eq(tx.from.as_slice(), TARGET_FROM.as_slice()) {
        return false;
    }
    match &tx.to {
        Some(to) => {
            if !bytes_eq(to.as_slice(), TARGET_TO.as_slice()) {
                return false;
            }
        },
        None => {
            return false;
        },
    }
    calls_old_method(tx.input.as_slice())
}

/// The order kept for a target transaction.
pub fn order_for(tx: &PendingTx) -> (d: TxData)
    requires
        tx.to is Some,
    ensures
        is_order_for(d, *tx),
{
    let to = match tx.to {
        Some(to) => to,
        None => TARGET_TO,
    };
    let gas_price = match tx.gas_price {
        Some(g) => g,
        None => Uint256::zero(),
    };
    TxData { to, value: tx.value, gas_price, input: hex_encode(tx.input.as_slice()) }
}

/// Scans the transactions of a pending block in order: each target whose
/// hash was not handled is marked handled and gets an order.
pub fn select_targets(processed: &mut ProcessedTxs, txs: &Vec<PendingTx>) -> (orders: Vec<TxData>)
    ensures
        final(processed)@ == scan(old(processed)@, txs@).0,
        orders@.len() == scan(old(processed)@, txs@).1.len(),
        forall|k: int|
            0 <= k < orders@.len() ==> {
                let j = #[trigger] scan(old(processed)@, txs@).1[k];
                &&& 0 <= j < txs@.len()
                &&& is_order_for(orders@[k], txs@[j])
            },
{
    let ghost seen0 = processed@;
    let mut orders: Vec<TxData> = Vec::new();
    let n = txs.len();
    let mut i: usize = 0;
    while i < n
        invariant
            n == txs@.len(),
            i <= n,
            processed@ == scan(seen0, txs@.take(i as int)).0,
            orders@.len() == scan(seen0, txs@.take(i as int)).1.len(),
            forall|k: int|
                0 <= k < orders@.len() ==> {
                    let j = #[trigger] scan(seen0, txs@.take(i as int)).1[k];
                    &&& 0 <= j < i
                    &&& is_order_for(orders@[k], txs@[j])
                },
        decreases n - i,
    {
        let tx = &txs[i];
        assert(txs@.take(i + 1).drop_last() =~= txs@.take(i as int));
        assert(txs@.take(i + 1).last() == txs@[i as int]);
        let fresh = !processed.contains(&tx.hash);
        if fresh && is_target(tx) {
            processed.insert(tx.hash);
            orders.push(order_for(tx));
        }
        i = i + 1;
    }
    assert(txs@.take(n as int) =~= txs@);
    orders
}

/// What building the replacement from `d` gives: the calldata text decoded,
/// then its selector replaced; or the error met on the way.
pub open spec fn prepared_calldata(d: TxData) -> Result<Seq<u8>, PrepareError> {
    match hex_decoding(encode_utf8(d.input@)) {
        None => Err(PrepareError::InvalidHexInput),
        Some(b) => if b.len() < 4 {
            Err(PrepareError::InputTooShort)
        } else {
            Ok(replace_selector(b, NEW_METHOD_ID@))
        },
    }
}

/// Builds the replacement transaction for an order: same recipient and
/// value, calldata with `NEW_METHOD_ID`, gas limit `GAS_LIMIT`, gas price
/// times `OPTIMIZED_GAS_MULTIPLIER`.
pub fn prepare_frontrun(d: &TxData) -> (r: Result<FrontrunRequest, PrepareError>)
    ensures
        match (r, prepared_calldata(*d)) {
            (Ok(q), Ok(data)) => {
                &&& q.data@ == data
                &&& q.to == d.to
                &&& q.value == d.value
                &&& q.gas.value() == GAS_LIMIT
                &&& q.gas_price.value() == d.gas_price.value() * OPTIMIZED_GAS_MULTIPLIER
            },
            (Err(e), Err(f)) => e == f,
            _ => false,
        },
{
    let input_bytes = match hex_decode(d.input.as_str().as_bytes()) {
        Ok(b) => b,
        Err(_) => {
            return Err(PrepareError::InvalidHexInput);
        },
    };
    if input_bytes.len() < 4 {
        return Err(PrepareError::InputTooShort);
    }
    let data = with_new_selector(input_bytes.as_slice());
    proof {
        lemma_value_bounds(d.gas_price);
    }
    let gas_price = checked_mul(d.gas_price, Uint256::from_u64(OPTIMIZED_GAS_MULTIPLIER)).unwrap();
    Ok(
        FrontrunRequest {
            to: d.to,
            value: d.value,
            data,
            gas: Uint256::from_u64(GAS_LIMIT),
            gas_price,
        },
    )
}


/// Hashes of the target transactions among `txs`.
pub open spec fn target_hashes(txs: Seq<PendingTx>) -> Set<Seq<u8>> {
    Set::new(|h: Seq<u8>| exists|j: int| 0 <= j < txs.len() && is_target_tx(txs[j]) && txs[j].hash@ == h)
}

/// Every order built from a scan turns into a replacement: the stored hex
/// text decodes back to the calldata of the transaction, which is long enough, so the
/// replacement carries that calldata with `NEW_METHOD_ID` in front of its
/// arguments.
pub proof fn lemma_order_prepares(d: TxData, tx: PendingTx)
    requires
        is_order_for(d, tx),
        is_target_tx(tx),
    ensures
        prepared_calldata(d) == Ok::<Seq<u8>, PrepareError>(replace_selector(tx.input@, NEW_METHOD_ID@)),
{
    lemma_hex_round_trip(tx.input@);
}

/// After a scan, the handled hashes are those handled before plus the
/// hashes of all target transactions of the block.
pub proof fn lemma_scan_handles_targets(seen: Set<Seq<u8>>, txs: Seq<PendingTx>)
    ensures
        scan(seen, txs).0 == seen.union(target_hashes(txs)),
    decreases txs.len(),
{
    if txs.len() == 0 {
        assert(target_hashes(txs) =~= Set::<Seq<u8>>::empty());
        assert(seen.union(target_hashes(txs)) =~= seen);
    } else {
        let pre = txs.drop_last();
        lemma_scan_handles_targets(seen, pre);
        let t = txs.last();
        assert forall|h: Seq<u8>| #[trigger] target_hashes(txs).contains(h) == (target_hashes(
            pre,
        ).contains(h) || (is_target_tx(t) && t.hash@ == h)) by {
            if target_hashes(txs).contains(h) {
                let j = choose|j: int|
                    0 <= j < txs.len() && is_target_tx(txs[j]) && txs[j].hash@ == h;
                if j < pre.len() {
                    assert(pre[j] == txs[j]);
                }
            }
            if target_hashes(pre).contains(h) {
                let j = choose|j: int|
                    0 <= j < pre.len() && is_target_tx(pre[j]) && pre[j].hash@ == h;
                assert(pre[j] == txs[j]);
            }
            if is_target_tx(t) && t.hash@ == h {
                assert(txs[txs.len() - 1] == t);
            }
        }
        assert(scan(seen, txs).0 =~= seen.union(target_hashes(txs)));
    }
}

/// The transactions that get an order are targets (sent by `TARGET_FROM`
/// to `TARGET_TO`, calldata starting with `OLD_METHOD_ID`), come in block order,
/// their hashes were not handled before, and no hash gets two orders.
pub proof fn lemma_scan_orders_once(seen: Set<Seq<u8>>, txs: Seq<PendingTx>)
    ensures
        forall|k: int|
            0 <= k < scan(seen, txs).1.len() ==> {
                let j = #[trigger] scan(seen, txs).1[k];
                &&& 0 <= j < txs.len()
                &&& is_target_tx(txs[j])
                &&& txs[j].from@ == TARGET_FROM@
                &&& txs[j].to matches Some(t) && t@ == TARGET_TO@
                &&& txs[j].input@.len() >= 4 && txs[j].input@.take(4) == OLD_METHOD_ID@
                &&& !seen.contains(txs[j].hash@)
                &&& scan(seen, txs).0.contains(txs[j].hash@)
            },
        forall|k1: int, k2: int|
            0 <= k1 < k2 < scan(seen, txs).1.len() ==> {
                &&& scan(seen, txs).1[k1] < scan(seen, txs).1[k2]
                &&& txs[scan(seen, txs).1[k1]].hash@ != txs[scan(seen, txs).1[k2]].hash@
            },
    decreases txs.len(),
{
    if txs.len() > 0 {
        let pre = txs.drop_last();
        lemma_scan_orders_once(seen, pre);
        let prev = scan(seen, pre);
        let cur = scan(seen, txs);
        assert forall|k: int| 0 <= k < prev.1.len() implies txs[#[trigger] prev.1[k]] == pre[prev.1[k]] by {}
        if !prev.0.contains(txs.last().hash@) && is_target_tx(txs.last()) {
            assert forall|k: int| 0 <= k < cur.1.len() implies {
                let j = #[trigger] cur.1[k];
                &&& 0 <= j < txs.len()
                &&& is_target_tx(txs[j])
                &&& !seen.contains(txs[j].hash@)
                &&& cur.0.contains(txs[j].hash@)
            } by {
                if k < prev.1.len() {
                    assert(cur.1[k] == prev.1[k]);
                } else {
                    assert(prev.0 == seen.union(target_hashes(pre))) by {
                        lemma_scan_handles_targets(seen, pre);
                    }
                }
            }
            assert forall|k1: int, k2: int| 0 <= k1 < k2 < cur.1.len() implies {
                &&& cur.1[k1] < cur.1[k2]
                &&& txs[cur.1[k1]].hash@ != txs[cur.1[k2]].hash@
            } by {
                assert(cur.1[k1] == prev.1[k1]);
                if k2 < prev.1.len() {
                    assert(cur.1[k2] == prev.1[k2]);
                }
            }
        }
    }
}

/// Scanning a block a second time, with the hashes the first scan left,
/// emits no order and handles nothing new.
pub proof fn lemma_rescan_emits_nothing(seen: Set<Seq<u8>>, txs: Seq<PendingTx>)
    ensures
        scan(scan(seen, txs).0, txs).1.len() == 0,
        scan(scan(seen, txs).0, txs).0 == scan(seen, txs).0,
{
    lemma_scan_handles_targets(seen, txs);
    lemma_scan_with_all_handled(scan(seen, txs).0, txs, txs.len() as int);
    assert(txs.take(txs.len() as int) =~= txs);
}

proof fn lemma_scan_with_all_handled(seen: Set<Seq<u8>>, txs: Seq<PendingTx>, n: int)
    requires
        0 <= n <= txs.len(),
        target_hashes(txs).subset_of(seen),
    ensures
        scan(seen, txs.take(n)).1.len() == 0,
        scan(seen, txs.take(n)).0 == seen,
    decreases n,
{
    if n > 0 {
        lemma_scan_with_all_handled(seen, txs, n - 1);
        assert(txs.take(n).drop_last() =~= txs.take(n - 1));
        let t = txs.take(n).last();
        assert(t == txs[n - 1]);
        if is_target_tx(t) {
            assert(target_hashes(txs).contains(t.hash@));
        }
    }
}

/// Every fresh target gets an order: a transaction from `TARGET_FROM` to
/// `TARGET_TO` whose calldata starts with `OLD_METHOD_ID`, whose hash was
/// not handled before, and whose hash no earlier target of the block
/// carries, is among the transactions the scan gives an order to, whatever
/// the length of its calldata.
pub proof fn lemma_scan_answers_fresh_target(seen: Set<Seq<u8>>, txs: Seq<PendingTx>, j: int)
    requires
        0 <= j < txs.len(),
        txs[j].from@ == TARGET_FROM@,
        txs[j].to matches Some(t) && t@ == TARGET_TO@,
        txs[j].input@.len() >= 4,
        txs[j].input@.take(4) == OLD_METHOD_ID@,
        !seen.contains(txs[j].hash@),
        forall|i: int|
            0 <= i < j && txs[i].from@ == TARGET_FROM@ && (txs[i].to matches Some(t) && t@
                == TARGET_TO@) && txs[i].input@.len() >= 4 && txs[i].input@.take(4)
                == OLD_METHOD_ID@ ==> #[trigger] txs[i].hash@ != txs[j].hash@,
    ensures
        exists|k: int| 0 <= k < scan(seen, txs).1.len() && #[trigger] scan(seen, txs).1[k] == j,
    decreases txs.len(),
{
    let pre = txs.drop_last();
    let prev = scan(seen, pre);
    if j == txs.len() - 1 {
        lemma_scan_handles_targets(seen, pre);
        if target_hashes(pre).contains(txs[j].hash@) {
            let i = choose|i: int|
                0 <= i < pre.len() && is_target_tx(pre[i]) && pre[i].hash@ == txs[j].hash@;
            assert(pre[i] == txs[i]);
            assert(txs[i].hash@ != txs[j].hash@);
        }
        assert(txs.last() == txs[j]);
        assert(is_target_tx(txs[j]));
        assert(scan(seen, txs).1[prev.1.len() as int] == j);
    } else {
        assert forall|i: int|
            0 <= i < j && pre[i].from@ == TARGET_FROM@ && (pre[i].to matches Some(t) && t@
                == TARGET_TO@) && pre[i].input@.len() >= 4 && pre[i].input@.take(4)
                == OLD_METHOD_ID@ implies #[trigger] pre[i].hash@ != pre[j].hash@ by {
            assert(pre[i] == txs[i]);
            assert(pre[j] == txs[j]);
            assert(txs[i].hash@ != txs[j].hash@);
        }
        assert(pre[j] == txs[j]);
        lemma_scan_answers_fresh_target(seen, pre, j);
        let k = choose|k: int| 0 <= k < prev.1.len() && #[trigger] prev.1[k] == j;
        assert(scan(seen, txs).1[k] == j);
    }
}

} // verus!
