//! The one clock read the resolver makes: the lock file's generation
//! timestamp.

use vstd::prelude::*;

verus! {

/// Relies on chrono's `Utc::now` and `DateTime::to_rfc3339`: the current
/// time as an RFC 3339 string. The result depends on the clock, so nothing
/// is promised of it; everything written into the lock is a function of
/// this string, not of the clock.
#[verifier::external_body]
pub fn now_rfc3339() -> String {
    chrono::Utc::now().to_rfc3339()
}

} // verus!
