//! The wall clock. Operations that depend on time take an explicit
//! `now` argument, so that their behaviour is fully specified and tests
//! are deterministic; this module supplies the real reading.

use vstd::prelude::*;

verus! {

/// Relies on chrono::Utc::now (via DateTime::timestamp_millis): reads the
/// wall clock as milliseconds since the Unix epoch. Nothing can be
/// promised of the clock's reading.
#[verifier::external_body]
pub fn now_millis() -> i64 {
    chrono::Utc::now().timestamp_millis()
}

} // verus!
