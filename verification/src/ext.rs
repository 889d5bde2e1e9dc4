//! Trusted boundary: fresh identifiers and the current time.
//!
//! Both calls are nondeterministic, so neither contract promises anything
//! about the value; callers state what holds of every outcome.

use vstd::prelude::*;

verus! {

/// Relies on uuid::Uuid::new_v4: a freshly drawn random identifier,
/// carried as its 128-bit value. Nothing is promised of a random draw.
#[verifier::external_body]
pub fn fresh_id() -> u128 {
    uuid::Uuid::new_v4().as_u128()
}

/// Relies on chrono::Utc::now (read through timestamp_micros): the wall
/// clock in microseconds since the Unix epoch. Nothing is promised of a
/// clock reading.
#[verifier::external_body]
pub fn now_micros() -> i64 {
    chrono::Utc::now().timestamp_micros()
}

} // verus!
