//! The watched sender and contract, the method selectors, and the gas and
//! polling settings of the two watchers.
use vstd::prelude::*;

verus! {

/// The sender whose pending transactions are watched.
pub const TARGET_FROM: [u8; 20] = [
    0xc2u8, 0xdbu8, 0x89u8, 0xb2u8, 0xbdu8, 0x43u8, 0x4cu8, 0xeau8, 0xc6u8, 0xc7u8,
    0x4fu8, 0xbcu8, 0x0bu8, 0x2au8, 0xd3u8, 0xa2u8, 0x80u8, 0xe6u8, 0x6du8, 0xb0u8,
];

/// The contract those transactions call.
pub const TARGET_TO: [u8; 20] = [
    0x26u8, 0x75u8, 0x9du8, 0xbbu8, 0x20u8, 0x1au8, 0xfbu8, 0xa3u8, 0x61u8, 0xbeu8,
    0xc7u8, 0x8eu8, 0x09u8, 0x7au8, 0xa3u8, 0x94u8, 0x2bu8, 0x0bu8, 0x4au8, 0xb8u8,
];

/// The method selector of the watched calls.
pub const OLD_METHOD_ID: [u8; 4] = [
    0x38u8, 0x0fu8, 0x9cu8, 0x38u8,
];

/// The method selector put in its place.
pub const NEW_METHOD_ID: [u8; 4] = [
    0xb4u8, 0x20u8, 0x6du8, 0xd2u8,
];

/// The gas limit of every replacement transaction.
pub const GAS_LIMIT: u64 = 200_000;

/// Every this many checked blocks, the watchers report their counters.
pub const REPORT_EVERY: u64 = 1000;

/// Polling interval of the typed-block watcher, in milliseconds.
pub const OPTIMIZED_POLL_INTERVAL_MS: u64 = 10;

/// Gas price factor of the typed-block watcher.
pub const OPTIMIZED_GAS_MULTIPLIER: u64 = 1;

/// Polling interval of the raw-JSON watcher, in milliseconds.
pub const ULTRA_FAST_POLL_INTERVAL_MS: u64 = 5;

/// Gas price factor of the raw-JSON watcher.
pub const ULTRA_FAST_GAS_MULTIPLIER: u64 = 2;

/// `TARGET_FROM` as the node writes it in JSON: `0xc2Db89B2Bd434ceAc6C74FBc0B2ad3a280e66DB0`.
pub const TARGET_FROM_TEXT: [u8; 42] = [
    0x30u8, 0x78u8, 0x63u8, 0x32u8, 0x44u8, 0x62u8, 0x38u8, 0x39u8, 0x42u8, 0x32u8,
    0x42u8, 0x64u8, 0x34u8, 0x33u8, 0x34u8, 0x63u8, 0x65u8, 0x41u8, 0x63u8, 0x36u8,
    0x43u8, 0x37u8, 0x34u8, 0x46u8, 0x42u8, 0x63u8, 0x30u8, 0x42u8, 0x32u8, 0x61u8,
    0x64u8, 0x33u8, 0x61u8, 0x32u8, 0x38u8, 0x30u8, 0x65u8, 0x36u8, 0x36u8, 0x44u8,
    0x42u8, 0x30u8,
];

/// `TARGET_TO` as the node writes it in JSON: `0x26759dbB201aFbA361Bec78E097Aa3942B0b4AB8`.
pub const TARGET_TO_TEXT: [u8; 42] = [
    0x30u8, 0x78u8, 0x32u8, 0x36u8, 0x37u8, 0x35u8, 0x39u8, 0x64u8, 0x62u8, 0x42u8,
    0x32u8, 0x30u8, 0x31u8, 0x61u8, 0x46u8, 0x62u8, 0x41u8, 0x33u8, 0x36u8, 0x31u8,
    0x42u8, 0x65u8, 0x63u8, 0x37u8, 0x38u8, 0x45u8, 0x30u8, 0x39u8, 0x37u8, 0x41u8,
    0x61u8, 0x33u8, 0x39u8, 0x34u8, 0x32u8, 0x42u8, 0x30u8, 0x62u8, 0x34u8, 0x41u8,
    0x42u8, 0x38u8,
];

/// `OLD_METHOD_ID` in hex: `380f9c38`.
pub const OLD_METHOD_TEXT: [u8; 8] = [
    0x33u8, 0x38u8, 0x30u8, 0x66u8, 0x39u8, 0x63u8, 0x33u8, 0x38u8,
];

/// `NEW_METHOD_ID` in hex: `b4206dd2`.
pub const NEW_METHOD_TEXT: [u8; 8] = [
    0x62u8, 0x34u8, 0x32u8, 0x30u8, 0x36u8, 0x64u8, 0x64u8, 0x32u8,
];

} // verus!
