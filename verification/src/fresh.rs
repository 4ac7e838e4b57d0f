//! Fresh identifiers and current timestamps, drawn from outside providers.

use vstd::prelude::*;

verus! {

/// Relies on uuid's `Uuid::new_v4` and its `to_string`: a randomly generated
/// identifier. The result is random, so nothing is assumed of it.
#[verifier::external_body]
pub fn fresh_id() -> (r: String) {
    uuid::Uuid::new_v4().to_string()
}

/// Relies on chrono's `Utc::now` and `timestamp_millis`: the current time in
/// milliseconds since the Unix epoch. The result depends on the clock, so
/// nothing is assumed of it.
#[verifier::external_body]
pub fn now_timestamp() -> (r: i64) {
    chrono::Utc::now().timestamp_millis()
}

} // verus!
