use mev_bot::ascii::{bytes_eq, bytes_eq_ignore_ascii_case, region_eq_ignore_ascii_case};
use mev_bot::calldata::{calls_old_method, with_new_selector};
use mev_bot::processed::ProcessedTxs;
use mev_bot::stats::{next_count, report_due};
use mev_bot::uint256::Uint256;

#[test]
fn case_insensitive_comparison() {
    assert!(bytes_eq_ignore_ascii_case(b"0xAbC", b"0XaBc"));
    assert!(!bytes_eq_ignore_ascii_case(b"0xAbC", b"0xAbD"));
    assert!(!bytes_eq_ignore_ascii_case(b"abc", b"abcd"));
    assert!(!bytes_eq_ignore_ascii_case(b"[", b"{"));
    assert!(region_eq_ignore_ascii_case(b"0x380F9C38ff", 2, b"380f9c38"));
    assert!(bytes_eq(b"abc", b"abc"));
    assert!(!bytes_eq(b"abc", b"abC"));
}

#[test]
fn selector_check_and_replacement() {
    assert!(calls_old_method(&[0x38, 0x0f, 0x9c, 0x38, 1]));
    assert!(!calls_old_method(&[0x38, 0x0f, 0x9c]));
    assert_eq!(with_new_selector(&[0x38, 0x0f, 0x9c, 0x38, 1, 2]), vec![0xb4, 0x20, 0x6d, 0xd2, 1, 2]);
    assert_eq!(with_new_selector(&[9, 9, 9, 9]), vec![0xb4, 0x20, 0x6d, 0xd2]);
}

#[test]
fn processed_set_remembers_hashes() {
    let mut set = ProcessedTxs::new();
    let a = [1u8; 32];
    let b = [2u8; 32];
    assert!(!set.contains(&a));
    assert!(set.insert(a));
    assert!(set.contains(&a));
    assert!(!set.contains(&b));
    assert!(!set.insert(a));
    assert!(set.insert(b));
    assert!(set.contains(&b));
}

#[test]
fn counters_and_reports() {
    assert_eq!(next_count(0), 1);
    assert_eq!(next_count(999), 1000);
    assert!(report_due(1000));
    assert!(report_due(2000));
    assert!(!report_due(999));
    assert!(!report_due(1));
}

#[test]
fn small_numbers() {
    assert_eq!(Uint256::zero().words, [0; 4]);
    assert_eq!(Uint256::from_u64(200_000).words, [200_000, 0, 0, 0]);
}
