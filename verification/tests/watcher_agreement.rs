use mev_bot::calldata::with_new_selector;
use mev_bot::config::{OLD_METHOD_ID, TARGET_FROM, TARGET_TO};
use mev_bot::optimized::{is_target, order_for, prepare_frontrun, PendingTx};
use mev_bot::processed::ProcessedTxs;
use mev_bot::uint256::Uint256;
use mev_bot::ultra_fast::{names_target_text, prepare_json_frontrun, select_json_target, RawTx};

fn prefixed_hex(bytes: &[u8]) -> String {
    let mut s = String::from("0x");
    for b in bytes {
        s.push_str(&format!("{:02x}", b));
    }
    s
}

fn calldata() -> Vec<u8> {
    let mut v = OLD_METHOD_ID.to_vec();
    v.extend_from_slice(&[0xde, 0xad, 0xbe, 0xef, 0x01]);
    v
}

fn json_form() -> RawTx {
    RawTx {
        hash: Some(prefixed_hex(&[3u8; 32])),
        from: Some(prefixed_hex(&TARGET_FROM)),
        to: Some(prefixed_hex(&TARGET_TO)),
        input: Some(prefixed_hex(&calldata())),
        value: Some("0x7".to_string()),
        gas_price: Some("0xb".to_string()),
    }
}

#[test]
fn both_watchers_build_the_same_calldata() {
    let typed = PendingTx {
        hash: [3u8; 32],
        from: TARGET_FROM,
        to: Some(TARGET_TO),
        value: Uint256::from_u64(7),
        gas_price: Some(Uint256::from_u64(11)),
        input: calldata(),
    };
    let json = json_form();
    assert!(is_target(&typed));
    assert!(names_target_text(
        json.from.as_deref().unwrap(),
        json.to.as_deref().unwrap(),
        json.input.as_deref().unwrap()
    ));
    let mut processed = ProcessedTxs::new();
    assert_eq!(select_json_target(&mut processed, &vec![json_form()]), Ok(Some(0)));
    assert!(processed.contains(&[3u8; 32]));

    let typed_request = prepare_frontrun(&order_for(&typed)).unwrap();
    let json_request = prepare_json_frontrun(&json).unwrap();
    assert_eq!(typed_request.data, json_request.data);
    assert_eq!(typed_request.data, with_new_selector(&calldata()));
    assert_eq!(typed_request.to, json_request.to);
    assert_eq!(typed_request.value.words, json_request.value.words);
    assert_eq!(typed_request.gas_price.words, [11, 0, 0, 0]);
    assert_eq!(json_request.gas_price.words, [22, 0, 0, 0]);
}

#[test]
fn other_sender_is_no_target_for_either() {
    let mut other = TARGET_FROM;
    other[19] ^= 0xff;
    assert!(!names_target_text(&prefixed_hex(&other), &prefixed_hex(&TARGET_TO), &prefixed_hex(&calldata())));
}

#[test]
fn replacing_twice_is_replacing_once() {
    let once = with_new_selector(&calldata());
    assert_eq!(with_new_selector(&once), once);
    assert_eq!(&once[4..], &calldata()[4..]);
}
