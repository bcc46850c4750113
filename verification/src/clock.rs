//! The crate's one reading of the clock.

use vstd::prelude::*;

verus! {

/// Reads the current time as seconds since the Unix epoch:
/// `time::OffsetDateTime::now_utc`, read with `unix_timestamp`. Nothing is
/// promised of the value: the system clock may stand anywhere and may go back.
#[verifier::external_body]
pub(crate) fn unix_now() -> i64 {
    time::OffsetDateTime::now_utc().unix_timestamp()
}

} // verus!
