//! The clock of the machine.

use vstd::prelude::*;

verus! {

/// The time now, in milliseconds since the Unix epoch, as
/// `chrono::Utc::now().timestamp_millis()` gives it. Nothing is claimed of
/// the number: the clock of the machine decides it. The call does not
/// return where that clock stands before 1970.
#[verifier::external_body]
pub(crate) fn now_millis() -> (now: i64) {
    chrono::Utc::now().timestamp_millis()
}

} // verus!
