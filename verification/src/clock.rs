//! The wall clock that timestamps locally built blocks.

use vstd::prelude::*;

verus! {

/// Relies on std::time::SystemTime::now, read against the Unix epoch with
/// SystemTime::duration_since, for the wall clock in nanoseconds. The value
/// depends on when the call runs, so nothing is assumed of it. No path
/// panics: a clock set before the epoch (duration_since errs) or past the
/// range of the representation (the conversion errs) comes back as 0.
#[verifier::external_body]
pub fn current_time_nanos() -> u64 {
    match std::time::SystemTime::now().duration_since(std::time::UNIX_EPOCH) {
        Ok(elapsed) => u64::try_from(elapsed.as_nanos()).unwrap_or(0),
        Err(_) => 0,
    }
}

} // verus!
