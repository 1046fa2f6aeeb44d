//! The wall clock. Its readings depend on the machine and the moment, so
//! nothing is promised of them: the components take them as arguments.
use vstd::prelude::*;

verus! {

/// Relies on `SystemTime::elapsed` of the Unix epoch: seconds since then (0
/// for a clock set before it).
#[verifier::external_body]
pub(crate) fn unix_time_secs() -> (r: u64) {
    std::time::UNIX_EPOCH.elapsed().map(|d| d.as_secs()).unwrap_or(0)
}

/// Relies on `SystemTime::elapsed` of the Unix epoch: nanoseconds since then,
/// cut to 64 bits (0 for a clock set before it).
#[verifier::external_body]
pub(crate) fn unix_time_nanos() -> (r: u64) {
    std::time::UNIX_EPOCH.elapsed().map(|d| d.as_nanos() as u64).unwrap_or(0)
}

} // verus!
