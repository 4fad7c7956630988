//! What the ledger takes from its surroundings: the wall clock and fresh
//! random identifiers. Nothing here is proved; each function states only
//! what holds of every value it can return.

use crate::models::is_v4_id;
use chrono::Utc;
use std::time::SystemTime;
use uuid::Uuid;
use vstd::prelude::*;

verus! {

/// Measures the time from the Unix epoch to now with
/// `std::time::SystemTime::elapsed`, in whole seconds. Trusted, with nothing
/// claimed of the value. A clock set before the epoch is not survivable:
/// the reading then panics instead of returning a made-up time.
#[verifier::external_body]
pub(crate) fn unix_seconds() -> (seconds: u64) {
    SystemTime::UNIX_EPOCH.elapsed().unwrap().as_secs()
}

/// Reads the current time with `chrono::Utc::now` and takes its `timestamp`,
/// the whole seconds since the Unix epoch. Trusted, with nothing claimed of
/// the value; `Utc::now` itself panics on a clock set before the epoch.
#[verifier::external_body]
pub(crate) fn utc_timestamp() -> (seconds: i64) {
    Utc::now().timestamp()
}

/// Draws a version-4 identifier with `uuid::Uuid::new_v4` and renders it with
/// `to_string`. Trusted: whatever was drawn, the rendering is the hyphenated
/// lowercase form of a version-4 identifier, 36 characters long. `new_v4`
/// panics if the operating system cannot supply random bytes.
#[verifier::external_body]
pub(crate) fn random_id() -> (id: String)
    ensures
        is_v4_id(id@),
{
    Uuid::new_v4().to_string()
}

} // verus!
