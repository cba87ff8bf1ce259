//! Transaction selection and rewriting for a pending-block watcher.
//!
//! The library decides which pending transactions are targets, remembers
//! which ones were already handled, and builds the replacement transaction
//! (new method selector, boosted gas price) that the binary signs and sends.
pub mod ascii;
pub mod calldata;
pub mod config;
pub mod hex;
pub mod optimized;
pub mod processed;
pub mod request;
pub mod stats;
pub mod uint256;
pub mod ultra_fast;
