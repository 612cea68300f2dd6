//! The wall clock.

use vstd::prelude::*;

verus! {

/// Relies on std::time::SystemTime::now, read as nanoseconds since the Unix epoch;
/// nothing is promised of the value.
#[verifier::external_body]
pub(crate) fn current_time_ns() -> (r: u64) {
    std::time::SystemTime::now()
        .duration_since(std::time::UNIX_EPOCH)
        .map(|d| d.as_nanos() as u64)
        .unwrap_or(0)
}

} // verus!
