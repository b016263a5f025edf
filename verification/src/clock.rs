//! Trusted bindings for wall-clock time.

use vstd::prelude::*;

verus! {

/// Relies on `std::time::SystemTime::now` and
/// `duration_since(UNIX_EPOCH)`: seconds since the Unix epoch, zero if
/// the clock reads before it. Nothing can be promised about the value.
#[verifier::external_body]
pub fn now_secs() -> u64 {
    std::time::SystemTime::now()
        .duration_since(std::time::UNIX_EPOCH)
        .unwrap_or_default()
        .as_secs()
}

/// Relies on the same pair of `std::time` calls: milliseconds since
/// the Unix epoch, zero if the clock reads before it.
#[verifier::external_body]
pub fn unix_ms() -> u128 {
    std::time::SystemTime::now()
        .duration_since(std::time::UNIX_EPOCH)
        .unwrap_or_default()
        .as_millis()
}

} // verus!
