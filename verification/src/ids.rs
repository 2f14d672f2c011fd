//! Fresh identifiers.

use vstd::prelude::*;

verus! {

/// Calls `uuid::Uuid::new_v4` and takes the 128-bit value of the UUID with
/// `as_u128`. The value depends on chance; nothing is claimed of it.
#[verifier::external_body]
pub(crate) fn random_id() -> u128 {
    uuid::Uuid::new_v4().as_u128()
}

/// Calls `uuid::Uuid::now_v7` and takes the 128-bit value of the UUID with
/// `as_u128`. The value depends on the system clock and on chance; nothing is
/// claimed of it.
#[verifier::external_body]
pub(crate) fn time_ordered_id() -> u128 {
    uuid::Uuid::now_v7().as_u128()
}

} // verus!
