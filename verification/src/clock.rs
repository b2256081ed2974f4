//! Readings of the system clock. Nothing is claimed of their values: the chat uses them only
//! as timestamps, and every decision on them takes the reading as an argument.
use vstd::prelude::*;

verus! {

/// The current time as Unix seconds (`time::OffsetDateTime::now_utc().unix_timestamp()`).
#[verifier::external_body]
pub(crate) fn unix_timestamp_now() -> (res: i64) {
    time::OffsetDateTime::now_utc().unix_timestamp()
}

/// Whole seconds since the Unix epoch by the system clock (`SystemTime::now()`, as seconds).
/// A clock set before the epoch, where `duration_since` fails, reads as 0: the chat's
/// verified functions do not panic, so a reading is always given.
#[verifier::external_body]
pub(crate) fn system_secs_now() -> (res: i64) {
    std::time::SystemTime::now().duration_since(std::time::UNIX_EPOCH).map(|d| d.as_secs() as i64).unwrap_or(0)
}

} // verus!
