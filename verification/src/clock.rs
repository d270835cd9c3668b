//! Wall-clock access.

use vstd::prelude::*;

verus! {

/// Relies on chrono::Utc::now: reads the wall clock as milliseconds since the
/// Unix epoch. Nothing is promised of the value; callers that need monotonic
/// timestamps must enforce that themselves.
#[verifier::external_body]
pub(crate) fn now_millis() -> i64 {
    chrono::Utc::now().timestamp_millis()
}

} // verus!
