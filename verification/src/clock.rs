//! The wall-clock timestamp that stamps each metric row.

use vstd::prelude::*;

verus! {

/// Relies on chrono's `Utc::now` and `DateTime::to_rfc3339`: the current
/// wall-clock time as an RFC 3339 / ISO 8601 date-and-time string, such as
/// `1996-12-19T16:39:57+00:00`.  The result depends on the clock, so
/// nothing is claimed of its value beyond being non-empty; every function
/// that consumes a timestamp takes it as a plain argument and is verified
/// for all values of it.
#[verifier::external_body]
pub(crate) fn now_rfc3339() -> (r: String)
    ensures
        r@.len() > 0,
{
    chrono::Utc::now().to_rfc3339()
}

} // verus!
