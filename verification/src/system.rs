//! Fresh identifiers and wall-clock readings.
//!
//! Both values are nondeterministic, so nothing is stated about them; every
//! caller's contract holds whatever comes back.

use vstd::prelude::*;

verus! {

/// Relies on uuid::Uuid::new_v4 for a fresh random version-4 UUID, carried
/// as its 128-bit value. Nothing can be promised of a random value; the
/// call aborts if the operating system cannot supply randomness.
#[verifier::external_body]
pub(crate) fn fresh_id128() -> u128 {
    uuid::Uuid::new_v4().as_u128()
}

/// Relies on chrono::Utc::now for the current wall-clock time, carried as
/// milliseconds since the Unix epoch. Nothing can be promised of the clock.
#[verifier::external_body]
pub(crate) fn now_millis() -> i64 {
    chrono::Utc::now().timestamp_millis()
}

} // verus!
