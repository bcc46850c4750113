//! The crate's one source of randomness.

use vstd::prelude::*;

verus! {

/// Draws the 128 bits of a fresh version-4 UUID: `uuid::Uuid::new_v4`, read
/// with `as_u128`. The bits come from the operating system's generator, so
/// nothing is promised of the value.
#[verifier::external_body]
pub(crate) fn random_bits() -> u128 {
    uuid::Uuid::new_v4().as_u128()
}

} // verus!
