//! Sources of fresh identifiers and timestamps.
//!
//! Both calls reach outside the verified world — one draws randomness, the
//! other reads the clock — so nothing can be promised of the values they
//! return; every function that uses them takes the drawn value as a plain
//! argument or states what holds whatever came back.

use vstd::prelude::*;

verus! {

/// Relies on `uuid::Uuid::new_v4`, whose result is random: a freshly drawn
/// version-4 identifier, returned as its 128-bit value. Nothing is promised
/// of the value.
#[verifier::external_body]
pub(crate) fn fresh_id() -> u128 {
    uuid::Uuid::new_v4().as_u128()
}

/// Relies on `chrono::Utc::now` and `DateTime::timestamp_millis`: the
/// current wall-clock time in milliseconds since the Unix epoch. Nothing is
/// promised of the value.
#[verifier::external_body]
pub(crate) fn now_millis() -> i64 {
    chrono::Utc::now().timestamp_millis()
}

} // verus!
