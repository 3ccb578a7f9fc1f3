//! Readings of the system clock relative to the Unix epoch.
//!
//! A clock reading is not a function of the program's state, so nothing
//! is promised of the returned values; callers state what holds of every
//! outcome. A clock that reports a time before the Unix epoch is treated
//! as an unrecoverable environment fault.

use vstd::prelude::*;

verus! {

/// Relies on `std::time::SystemTime::now` and `duration_since`: the whole
/// seconds elapsed since the Unix epoch. Panics only when the system
/// clock reports a time before the epoch, an environment fault with no
/// defined recovery.
#[verifier::external_body]
pub fn seconds() -> u64 {
    std::time::SystemTime::now().duration_since(std::time::UNIX_EPOCH).expect(
        "system clock reports a time before the Unix epoch",
    ).as_secs()
}

/// Relies on `std::time::SystemTime::now` and `duration_since`: the
/// milliseconds elapsed since the Unix epoch, truncated to 64 bits.
/// Panics only when the system clock reports a time before the epoch.
#[verifier::external_body]
pub fn milli_seconds() -> u64 {
    std::time::SystemTime::now().duration_since(std::time::UNIX_EPOCH).expect(
        "system clock reports a time before the Unix epoch",
    ).as_millis() as u64
}

/// Relies on `std::time::SystemTime::now` and `duration_since`: the
/// nanoseconds elapsed since the Unix epoch, truncated to 64 bits.
/// Panics only when the system clock reports a time before the epoch.
#[verifier::external_body]
pub fn nano_seconds() -> u64 {
    std::time::SystemTime::now().duration_since(std::time::UNIX_EPOCH).expect(
        "system clock reports a time before the Unix epoch",
    ).as_nanos() as u64
}

} // verus!
