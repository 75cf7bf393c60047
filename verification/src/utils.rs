//! Utility definitions

use vstd::prelude::*;

verus! {

/// An entity that has a UUID
pub trait WithUuid {
    /// Fetch the UUID without any hassle
    fn uuid(&self) -> u128;
}

/// A fresh random UUID (version 4), as its 128-bit value, drawn by `uuid::Uuid::new_v4`.
/// Nothing is stated of the value returned: it is random.
#[verifier::external_body]
pub(crate) fn new_uuid() -> (r: u128) {
    uuid::Uuid::new_v4().as_u128()
}

} // verus!
