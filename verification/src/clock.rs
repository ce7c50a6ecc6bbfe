//! Fresh identifiers and the current time: the two inputs that differ from
//! call to call.

use vstd::prelude::*;
use crate::calendar::Timestamp;

verus! {

/// Calls `uuid::Uuid::new_v4` and hands back its 128-bit value. The value is
/// random, so nothing is claimed of it.
#[verifier::external_body]
pub(crate) fn new_id() -> (r: u128) {
    uuid::Uuid::new_v4().as_u128()
}

/// Calls `chrono::Utc::now` and hands back the instant as seconds and
/// nanoseconds since the Unix epoch. The value is the machine's clock, so
/// nothing is claimed of it.
#[verifier::external_body]
pub(crate) fn utc_now() -> (r: Timestamp) {
    let t = chrono::Utc::now();
    Timestamp { secs: t.timestamp(), nanos: t.timestamp_subsec_nanos() }
}

} // verus!
