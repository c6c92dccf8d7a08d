//! The system clock.

use vstd::prelude::*;

verus! {

/// The current time in whole seconds since the Unix epoch.
///
/// Trusted: the body asks chrono for `Utc::now()` and reads its
/// `timestamp()`. The value depends on the machine's clock, so nothing is
/// claimed of it. chrono gives up with a panic where the clock stands before
/// the epoch.
#[verifier::external_body]
pub(crate) fn unix_now() -> (now: i64) {
    chrono::Utc::now().timestamp()
}

} // verus!
