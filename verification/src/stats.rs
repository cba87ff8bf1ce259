//! The running counters of a watcher.
use vstd::prelude::*;
use crate::config::REPORT_EVERY;

verus! {

/// The counter after one more event (a checked block, a sent transaction),
/// given the value it held before.
pub fn next_count(prev: u64) -> (count: u64)
    requires
        prev < u64::MAX,
    ensures
        count == prev + 1,
{
    prev + 1
}

/// Whether the counters are reported after `blocks_checked` blocks: at
/// every multiple of `REPORT_EVERY`.
pub fn report_due(blocks_checked: u64) -> (r: bool)
    ensures
        r == (blocks_checked % REPORT_EVERY == 0),
{
    blocks_checked % REPORT_EVERY == 0
}

} // verus!
