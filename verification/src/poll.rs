//! Decisions of the polling loop: retry backoff, the daily re-sync
//! boundary, and the fixed poll cadence.

use vstd::prelude::*;

use crate::render::MAX_TIMESTAMP;

verus! {

/// Seconds between poll iterations.
pub const POLL_INTERVAL_SECS: i64 = 61;

/// The backoff floor after a successful iteration.
pub const MIN_BACKOFF_SECS: u64 = 1;

/// The backoff cap.
pub const MAX_BACKOFF_SECS: u64 = 120;

/// The backoff after one more failed iteration: doubled, capped.
pub fn next_backoff(cur: u64) -> (r: u64)
    requires
        MIN_BACKOFF_SECS <= cur <= MAX_BACKOFF_SECS,
    ensures
        r == if 2 * cur <= MAX_BACKOFF_SECS {
            2 * cur
        } else {
            MAX_BACKOFF_SECS as int
        },
        MIN_BACKOFF_SECS <= r <= MAX_BACKOFF_SECS,
{
    let doubled = cur * 2;
    if doubled > MAX_BACKOFF_SECS {
        MAX_BACKOFF_SECS
    } else {
        doubled
    }
}

/// The UTC calendar day a timestamp falls on, counted from the epoch.
pub open spec fn utc_day_of(t: int) -> int {
    t / 86400
}

/// Whether two timestamps fall on the same UTC calendar day: the daily
/// catalog re-sync fires when this turns false against the last sync.
pub fn same_utc_day(a: i64, b: i64) -> (r: bool)
    requires
        0 <= a,
        0 <= b,
    ensures
        r == (utc_day_of(a as int) == utc_day_of(b as int)),
{
    (a as u64) / 86400 == (b as u64) / 86400
}

/// When the next iteration is due: a fixed interval after the start of
/// the current one, not after its end, so cadence does not drift with
/// fetch latency.
pub fn next_poll_deadline(iteration_start: i64) -> (r: i64)
    requires
        0 <= iteration_start <= MAX_TIMESTAMP,
    ensures
        r == iteration_start + POLL_INTERVAL_SECS,
{
    iteration_start + POLL_INTERVAL_SECS
}

} // verus!
