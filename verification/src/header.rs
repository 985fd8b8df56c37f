//! Primary keys: 128-bit opaque identifiers for data objects.

use vstd::prelude::*;

verus! {

/// Relies on fastrand::u128: draws a pseudo-random 128-bit value, used for
/// fresh primary keys and initialization vectors. Nothing can be promised of
/// a random draw.
#[verifier::external_body]
pub(crate) fn random_u128() -> u128 {
    fastrand::u128(..)
}

/// A 128-bit opaque identifier for a data object. The zero key is reserved
/// and never addresses an object.
#[derive(Clone, Copy, Debug, Hash, PartialEq, Eq, Structural)]
pub struct PrimaryKey {
    pub val: u128,
}

impl PrimaryKey {
    /// Whether this key may address an object.
    pub open spec fn is_valid(self) -> bool {
        self.val != 0
    }

    /// Build a key from its raw 128-bit value.
    pub fn from_u128(val: u128) -> (r: PrimaryKey)
        ensures
            r.val == val,
    {
        PrimaryKey { val }
    }

    /// Draw a fresh pseudo-random key; never the reserved zero key.
    pub fn generate() -> (r: PrimaryKey)
        ensures
            r.is_valid(),
    {
        let v = random_u128();
        if v == 0 {
            PrimaryKey { val: 1 }
        } else {
            PrimaryKey { val: v }
        }
    }
}

} // verus!
