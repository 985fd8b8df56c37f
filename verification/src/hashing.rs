//! Content hashes. Every event is identified across all chains by the digest
//! of its serialized header.

use vstd::prelude::*;

verus! {

/// The digest that `digest_bytes` returns for a given byte sequence.
pub uninterp spec fn hash_of(bytes: Seq<u8>) -> u64;

/// Relies on fxhash::hash64: the digest is a function of the hashed bytes
/// alone (the hasher is unseeded and deterministic).
#[verifier::external_body]
fn digest_bytes(bytes: &[u8]) -> (r: u64)
    ensures
        r == hash_of(bytes@),
{
    fxhash::hash64(bytes)
}

/// A content hash. Uniquely identifies an event across all chains.
#[derive(Clone, Copy, Debug, Hash, PartialEq, Eq, Structural)]
pub struct AteHash {
    pub val: u64,
}

impl AteHash {
    /// The hash of a byte sequence, as a spec-level value.
    pub open spec fn spec_from_bytes(bytes: Seq<u8>) -> AteHash {
        AteHash { val: hash_of(bytes) }
    }

    /// Digest a byte slice into a hash.
    pub fn from_bytes(bytes: &[u8]) -> (r: AteHash)
        ensures
            r == AteHash::spec_from_bytes(bytes@),
    {
        AteHash { val: digest_bytes(bytes) }
    }
}

} // verus!
