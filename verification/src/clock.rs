//! The wall clock, read at the edges and passed into the logic as a plain
//! number of seconds.
use vstd::prelude::*;

verus! {

/// Relies on std's `SystemTime::now`: the current time, reported as whole
/// seconds since the Unix epoch (0 for a clock set before the epoch).
/// Nothing further is promised of the clock.
#[verifier::external_body]
fn system_epoch_secs() -> u64 {
    std::time::SystemTime::now().duration_since(std::time::UNIX_EPOCH).map(
        |d| d.as_secs(),
    ).unwrap_or(0)
}

/// The current time in whole seconds since the Unix epoch. Two reads may
/// return anything: the logic takes the time as an argument instead of
/// trusting any relation between reads.
pub fn now_secs() -> u64 {
    system_epoch_secs()
}

} // verus!
