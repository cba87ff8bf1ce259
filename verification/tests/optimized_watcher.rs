use mev_bot::config::{GAS_LIMIT, NEW_METHOD_ID, OLD_METHOD_ID, TARGET_FROM, TARGET_TO};
use mev_bot::optimized::{is_target, order_for, prepare_frontrun, select_targets, PendingTx, TxData};
use mev_bot::processed::ProcessedTxs;
use mev_bot::request::PrepareError;
use mev_bot::uint256::Uint256;

fn hash(n: u8) -> [u8; 32] {
    let mut h = [0u8; 32];
    h[31] = n;
    h
}

fn target_input() -> Vec<u8> {
    let mut v = OLD_METHOD_ID.to_vec();
    v.extend_from_slice(&[0x00, 0x11, 0xaa, 0xff]);
    v
}

fn target_tx(n: u8) -> PendingTx {
    PendingTx {
        hash: hash(n),
        from: TARGET_FROM,
        to: Some(TARGET_TO),
        value: Uint256::from_u64(1000),
        gas_price: Some(Uint256::from_u64(3_000_000_000)),
        input: target_input(),
    }
}

#[test]
fn target_needs_sender_recipient_and_selector() {
    assert!(is_target(&target_tx(1)));

    let mut other_sender = target_tx(1);
    other_sender.from[0] ^= 1;
    assert!(!is_target(&other_sender));

    let mut other_recipient = target_tx(1);
    other_recipient.to = Some([0u8; 20]);
    assert!(!is_target(&other_recipient));

    let mut creation = target_tx(1);
    creation.to = None;
    assert!(!is_target(&creation));

    let mut short = target_tx(1);
    short.input = OLD_METHOD_ID[..3].to_vec();
    assert!(!is_target(&short));

    let mut other_method = target_tx(1);
    other_method.input[3] = 0x39;
    assert!(!is_target(&other_method));
}

#[test]
fn order_keeps_fields_and_writes_input_as_hex() {
    let tx = target_tx(1);
    let d = order_for(&tx);
    assert_eq!(d.to, TARGET_TO);
    assert_eq!(d.value.words, [1000, 0, 0, 0]);
    assert_eq!(d.gas_price.words, [3_000_000_000, 0, 0, 0]);
    assert_eq!(d.input, "380f9c380011aaff");

    let mut no_price = target_tx(2);
    no_price.gas_price = None;
    assert_eq!(order_for(&no_price).gas_price.words, [0, 0, 0, 0]);
}

#[test]
fn scan_orders_each_new_target_once() {
    let mut stranger = target_tx(9);
    stranger.from = [7u8; 20];
    let txs = vec![target_tx(1), stranger, target_tx(2), target_tx(1)];
    let mut processed = ProcessedTxs::new();
    let orders = select_targets(&mut processed, &txs);
    assert_eq!(orders.len(), 2);
    assert!(processed.contains(&hash(1)));
    assert!(processed.contains(&hash(2)));
    assert!(!processed.contains(&hash(9)));

    let again = select_targets(&mut processed, &txs);
    assert_eq!(again.len(), 0);
}

#[test]
fn scan_skips_already_handled_hashes() {
    let mut processed = ProcessedTxs::new();
    assert!(processed.insert(hash(1)));
    let orders = select_targets(&mut processed, &vec![target_tx(1), target_tx(3)]);
    assert_eq!(orders.len(), 1);
    assert_eq!(orders[0].input, "380f9c380011aaff");
}

#[test]
fn prepared_request_swaps_selector() {
    let d = order_for(&target_tx(1));
    let q = prepare_frontrun(&d).unwrap();
    let mut expected = NEW_METHOD_ID.to_vec();
    expected.extend_from_slice(&[0x00, 0x11, 0xaa, 0xff]);
    assert_eq!(q.data, expected);
    assert_eq!(q.to, TARGET_TO);
    assert_eq!(q.value.words, [1000, 0, 0, 0]);
    assert_eq!(q.gas.words, [GAS_LIMIT, 0, 0, 0]);
    assert_eq!(q.gas_price.words, [3_000_000_000, 0, 0, 0]);
}

#[test]
fn prepared_request_keeps_large_gas_price() {
    let d = TxData {
        to: TARGET_TO,
        value: Uint256::zero(),
        gas_price: Uint256 { words: [u64::MAX, u64::MAX, u64::MAX, u64::MAX] },
        input: "b4206dd2".to_string(),
    };
    let q = prepare_frontrun(&d).unwrap();
    assert_eq!(q.gas_price.words, [u64::MAX; 4]);
    assert_eq!(q.data, NEW_METHOD_ID.to_vec());
}

#[test]
fn prepare_rejects_bad_hex_and_short_input() {
    let mut d = order_for(&target_tx(1));
    d.input = "380f9c3z".to_string();
    assert_eq!(prepare_frontrun(&d).err(), Some(PrepareError::InvalidHexInput));
    d.input = "380f9c3".to_string();
    assert_eq!(prepare_frontrun(&d).err(), Some(PrepareError::InvalidHexInput));
    d.input = "380f9c".to_string();
    assert_eq!(prepare_frontrun(&d).err(), Some(PrepareError::InputTooShort));
    d.input = "0x380F9C3800".to_string();
    assert_eq!(prepare_frontrun(&d).unwrap().data, vec![0xb4, 0x20, 0x6d, 0xd2, 0x00]);
}
