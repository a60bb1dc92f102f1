//! The wall clock.
use vstd::prelude::*;

verus! {

/// The current time, from `chrono::Utc::now`, in nanoseconds since the
/// epoch (`timestamp_nanos_opt`), when it fits in an `i64`. Nothing is
/// promised of the value: it is whatever the clock reads.
#[verifier::external_body]
fn clock_nanos() -> Option<i64> {
    chrono::Utc::now().timestamp_nanos_opt()
}

/// The current time in nanoseconds since the epoch; a time past what an
/// `i64` holds (after the year 2262) is kept at the largest value.
pub(crate) fn now_nanos() -> i64 {
    match clock_nanos() {
        Some(t) => t,
        None => i64::MAX,
    }
}

/// A fresh random id (`uuid::Uuid::new_v4`), as its 128-bit value. Nothing is
/// promised of the value.
#[verifier::external_body]
pub(crate) fn new_uuid() -> u128 {
    uuid::Uuid::new_v4().as_u128()
}

} // verus!
