use vstd::prelude::*;

verus! {

/// Draws a fresh identifier: `uuid::Uuid::new_v4`, taken as its 128-bit value.
///
/// The value is random, so nothing is claimed of it.
#[verifier::external_body]
pub(crate) fn new_id() -> (id: u128) {
    uuid::Uuid::new_v4().as_u128()
}

} // verus!
