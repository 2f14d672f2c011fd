//! The current time.

use vstd::prelude::*;

verus! {

/// Calls `time::OffsetDateTime::now_utc` and takes the `unix_timestamp` of
/// what it returns: the system clock in whole seconds since the Unix epoch.
/// Nothing is claimed of the value.
#[verifier::external_body]
pub(crate) fn unix_now() -> i64 {
    time::OffsetDateTime::now_utc().unix_timestamp()
}

} // verus!
