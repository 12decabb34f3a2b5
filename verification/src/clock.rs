//! The wall clock.

use vstd::prelude::*;

verus! {

/// Reads the wall clock with `chrono::Utc::now` and gives it as milliseconds
/// since the UNIX epoch. Trusted, and nothing is claimed of the value: two
/// readings may differ in any way. `Utc::now` does not return on a machine
/// whose clock stands before the epoch.
#[verifier::external_body]
pub(crate) fn now_millis() -> (out: i64) {
    chrono::Utc::now().timestamp_millis()
}

} // verus!
