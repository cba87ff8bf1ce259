use mev_bot::config::{GAS_LIMIT, TARGET_TO};
use mev_bot::processed::ProcessedTxs;
use mev_bot::request::PrepareError;
use mev_bot::ultra_fast::{names_target_text, prepare_json_frontrun, select_json_target, RawTx, ScanError};

const FROM: &str = "0xc2Db89B2Bd434ceAc6C74FBc0B2ad3a280e66DB0";
const TO: &str = "0x26759dbB201aFbA361Bec78E097Aa3942B0b4AB8";

fn hash_text(n: u8) -> String {
    format!("0x{}{:02x}", "00".repeat(31), n)
}

fn raw(n: u8, input: &str) -> RawTx {
    RawTx {
        hash: Some(hash_text(n)),
        from: Some(FROM.to_lowercase()),
        to: Some(TO.to_lowercase()),
        input: Some(input.to_string()),
        value: Some("0x1bc16d674ec80000".to_string()),
        gas_price: Some("0x3b9aca00".to_string()),
    }
}

#[test]
fn text_match_ignores_ascii_case() {
    assert!(names_target_text(FROM, TO, "0x380f9c38"));
    assert!(names_target_text(&FROM.to_lowercase(), &TO.to_uppercase(), "0x380F9C38aa"));
    assert!(!names_target_text(FROM, TO, "0x380f9c3"));
    assert!(!names_target_text(FROM, TO, "0x380f9c39"));
    assert!(!names_target_text(TO, TO, "0x380f9c38"));
    assert!(!names_target_text(FROM, FROM, "0x380f9c38"));
}

#[test]
fn scan_picks_first_new_target() {
    let mut other = raw(5, "0x380f9c38");
    other.from = Some(TO.to_string());
    let mut no_to = raw(6, "0x380f9c38");
    no_to.to = None;
    let txs = vec![other, no_to, raw(1, "0x380f9c3800"), raw(2, "0x380f9c38")];
    let mut processed = ProcessedTxs::new();
    assert_eq!(select_json_target(&mut processed, &txs), Ok(Some(2)));
    let mut h = [0u8; 32];
    h[31] = 1;
    assert!(processed.contains(&h));
    assert_eq!(select_json_target(&mut processed, &txs), Ok(Some(3)));
    assert_eq!(select_json_target(&mut processed, &txs), Ok(None));
}

#[test]
fn scan_stops_on_unparsable_hash() {
    let mut bad = raw(1, "0x380f9c38");
    bad.hash = Some("0x1234".to_string());
    let txs = vec![bad, raw(2, "0x380f9c38")];
    let mut processed = ProcessedTxs::new();
    assert_eq!(select_json_target(&mut processed, &txs), Err(ScanError::InvalidHash));
    let mut h = [0u8; 32];
    h[31] = 2;
    assert!(!processed.contains(&h));
}

#[test]
fn scan_ignores_non_targets() {
    let txs = vec![raw(1, "0xa9059cbb00"), raw(2, "0x")];
    let mut processed = ProcessedTxs::new();
    assert_eq!(select_json_target(&mut processed, &txs), Ok(None));
}

#[test]
fn prepared_request_from_text_fields() {
    let q = prepare_json_frontrun(&raw(1, "0x380f9c380000000000000000000000000000000000000000000000000000000000000001")).unwrap();
    let mut expected = vec![0xb4, 0x20, 0x6d, 0xd2];
    expected.extend_from_slice(&[0u8; 31]);
    expected.push(1);
    assert_eq!(q.data, expected);
    assert_eq!(q.to, TARGET_TO);
    assert_eq!(q.value.words, [0x1bc16d674ec80000, 0, 0, 0]);
    assert_eq!(q.gas_price.words, [2_000_000_000, 0, 0, 0]);
    assert_eq!(q.gas.words, [GAS_LIMIT, 0, 0, 0]);
}

#[test]
fn prepared_request_defaults_missing_numbers_to_zero() {
    let mut tx = raw(1, "0x380f9c38");
    tx.value = None;
    tx.gas_price = None;
    let q = prepare_json_frontrun(&tx).unwrap();
    assert_eq!(q.value.words, [0, 0, 0, 0]);
    assert_eq!(q.gas_price.words, [0, 0, 0, 0]);
    assert_eq!(q.data, vec![0xb4, 0x20, 0x6d, 0xd2]);
}

#[test]
fn prepared_request_boosts_large_gas_price() {
    let mut tx = raw(1, "0x380f9c38");
    tx.gas_price = Some("0x10000000000000000".to_string());
    let q = prepare_json_frontrun(&tx).unwrap();
    assert_eq!(q.gas_price.words, [0, 2, 0, 0]);
}

#[test]
fn prepare_reports_each_error() {
    assert_eq!(prepare_json_frontrun(&raw(1, "0x380f9c3")).err(), Some(PrepareError::InputTooShort));
    let mut no_input = raw(1, "");
    no_input.input = None;
    assert_eq!(prepare_json_frontrun(&no_input).err(), Some(PrepareError::InputTooShort));

    let mut bad_value = raw(1, "0x380f9c38");
    bad_value.value = Some("0xzz".to_string());
    assert_eq!(prepare_json_frontrun(&bad_value).err(), Some(PrepareError::InvalidValue));

    let mut bad_gas = raw(1, "0x380f9c38");
    bad_gas.gas_price = Some("1".repeat(65));
    assert_eq!(prepare_json_frontrun(&bad_gas).err(), Some(PrepareError::InvalidGasPrice));

    assert_eq!(prepare_json_frontrun(&raw(1, "0x380f9c38a")).err(), Some(PrepareError::InvalidCalldata));
    assert_eq!(prepare_json_frontrun(&raw(1, "0x380f9c38zz")).err(), Some(PrepareError::InvalidCalldata));
}
