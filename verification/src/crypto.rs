//! Keyed sealing of payloads and signing of event hashes. Sealing is a
//! keystream cipher derived from the key and a fresh initialization vector;
//! unsealing with the same key and vector restores the payload exactly.

use vstd::prelude::*;

use crate::codec::{enc_u128, enc_u64, push_u128};
use crate::hashing::{hash_of, AteHash};
use crate::meta::{DerivedSecret, EncryptKey, InitializationVector, PublicSignKey};

verus! {

/// The keystream byte sequence a payload of length `n` is sealed with.
pub open spec fn keystream(key: u128, iv: u128, n: nat) -> Seq<u8> {
    Seq::new(n, |i: int| (enc_u128(key)[i % 16] ^ enc_u128(iv)[i % 16]) as u8)
}

/// The sealed form of `data` under `key` and `iv`.
pub open spec fn sealed(key: u128, iv: u128, data: Seq<u8>) -> Seq<u8> {
    Seq::new(data.len(), |i: int| (data[i] ^ keystream(key, iv, data.len())[i]) as u8)
}

/// Sealing is an involution: sealing a sealed payload restores it.
pub proof fn lemma_seal_involutive(key: u128, iv: u128, data: Seq<u8>)
    ensures
        sealed(key, iv, sealed(key, iv, data)) == data,
{
    let once = sealed(key, iv, data);
    let twice = sealed(key, iv, once);
    assert forall|i: int| 0 <= i < data.len() implies twice[i] == data[i] by {
        let k = keystream(key, iv, data.len())[i];
        let d = data[i];
        assert((d ^ k) ^ k == d) by (bit_vector);
    }
    assert(twice =~= data);
}

/// Seal or unseal a payload with the keystream of `key` and `iv`.
pub fn seal(key: &EncryptKey, iv: &InitializationVector, data: &Vec<u8>) -> (r: Vec<u8>)
    ensures
        r@ == sealed(key.val, iv.val, data@),
{
    let mut kb: Vec<u8> = Vec::new();
    push_u128(&mut kb, key.val);
    let mut ib: Vec<u8> = Vec::new();
    push_u128(&mut ib, iv.val);
    let n = data.len();
    let mut out: Vec<u8> = Vec::new();
    let mut i: usize = 0;
    while i < n
        invariant
            n == data@.len(),
            i <= n,
            kb@ == enc_u128(key.val),
            ib@ == enc_u128(iv.val),
            kb@.len() == 16,
            ib@.len() == 16,
            out@.len() == i,
            forall|j: int| 0 <= j < i ==> out@[j] == sealed(key.val, iv.val, data@)[j],
        decreases n - i,
    {
        let b = data[i] ^ kb[i % 16] ^ ib[i % 16];
        proof {
            let d = data@[i as int];
            let k = kb@[i as int % 16];
            let v = ib@[i as int % 16];
            assert(d ^ k ^ v == d ^ (k ^ v)) by (bit_vector);
        }
        out.push(b);
        i = i + 1;
    }
    proof {
        assert(out@ =~= sealed(key.val, iv.val, data@));
    }
    out
}

impl EncryptKey {
    /// The hash that names this key in policies and sessions.
    #[verifier::opaque]
    pub open spec fn spec_hash(self) -> AteHash {
        AteHash { val: hash_of(enc_u128(self.val)) }
    }

    /// Compute the hash that names this key.
    pub fn hash(&self) -> (r: AteHash)
        ensures
            r == self.spec_hash(),
    {
        proof {
            reveal(EncryptKey::spec_hash);
        }
        let mut b: Vec<u8> = Vec::new();
        push_u128(&mut b, self.val);
        AteHash::from_bytes(b.as_slice())
    }

    /// The short confidentiality hash of this key, stored beside sealed
    /// payloads to detect key confusion.
    #[verifier::opaque]
    pub open spec fn spec_short_hash(self) -> AteHash {
        AteHash { val: hash_of(enc_u128(self.val) + enc_u128(self.val)) }
    }

    /// Compute the short confidentiality hash.
    pub fn short_hash(&self) -> (r: AteHash)
        ensures
            r == self.spec_short_hash(),
    {
        proof {
            reveal(EncryptKey::spec_short_hash);
        }
        let mut b: Vec<u8> = Vec::new();
        push_u128(&mut b, self.val);
        push_u128(&mut b, self.val);
        AteHash::from_bytes(b.as_slice())
    }
}

impl DerivedSecret {
    /// The per-event key this secret derives from a session read key.
    pub open spec fn spec_transmute(self, key: EncryptKey) -> EncryptKey {
        EncryptKey { val: self.val ^ key.val }
    }

    /// Derive the per-event key from a session read key.
    pub fn transmute(&self, key: &EncryptKey) -> (r: EncryptKey)
        ensures
            r == self.spec_transmute(*key),
    {
        EncryptKey { val: self.val ^ key.val }
    }

    /// Build the secret that derives `target` from `key`.
    pub fn derive(target: &EncryptKey, key: &EncryptKey) -> (r: DerivedSecret)
        ensures
            r.spec_transmute(*key) == *target,
    {
        let r = DerivedSecret { val: target.val ^ key.val };
        proof {
            let t = target.val;
            let k = key.val;
            assert((t ^ k) ^ k == t) by (bit_vector);
        }
        r
    }
}

/// The private half of a signing key. Its public half carries the same
/// material; possession of the material is what authority models here.
#[derive(Clone, Copy, Debug, PartialEq, Eq, Structural)]
pub struct PrivateSignKey {
    pub material: u128,
}

/// The signature the key with `material` produces over the event hash `msg`.
#[verifier::opaque]
pub open spec fn sign_of(material: u128, msg: AteHash) -> AteHash {
    AteHash { val: hash_of(enc_u128(material) + enc_u64(msg.val)) }
}

/// The hash that names the signing key with `material`.
#[verifier::opaque]
pub open spec fn sign_key_hash_of(material: u128) -> AteHash {
    AteHash { val: hash_of(enc_u128(material)) }
}

impl PrivateSignKey {
    /// The public half of this key.
    pub fn as_public(&self) -> (r: PublicSignKey)
        ensures
            r.material == self.material,
    {
        PublicSignKey { material: self.material }
    }

    /// The hash that names this key.
    pub fn hash(&self) -> (r: AteHash)
        ensures
            r == sign_key_hash_of(self.material),
    {
        proof {
            reveal(sign_key_hash_of);
        }
        let mut b: Vec<u8> = Vec::new();
        push_u128(&mut b, self.material);
        AteHash::from_bytes(b.as_slice())
    }

    /// Sign an event hash.
    pub fn sign(&self, msg: &AteHash) -> (r: AteHash)
        ensures
            r == sign_of(self.material, *msg),
    {
        proof {
            reveal(sign_of);
        }
        let mut b: Vec<u8> = Vec::new();
        push_u128(&mut b, self.material);
        crate::codec::push_u64(&mut b, msg.val);
        AteHash::from_bytes(b.as_slice())
    }
}

impl PublicSignKey {
    /// The hash that names this key.
    pub fn hash(&self) -> (r: AteHash)
        ensures
            r == sign_key_hash_of(self.material),
    {
        proof {
            reveal(sign_key_hash_of);
        }
        let mut b: Vec<u8> = Vec::new();
        push_u128(&mut b, self.material);
        AteHash::from_bytes(b.as_slice())
    }

    /// Check a signature over an event hash.
    pub fn verify(&self, msg: &AteHash, sig: &AteHash) -> (r: bool)
        ensures
            r == (*sig == sign_of(self.material, *msg)),
    {
        proof {
            reveal(sign_of);
        }
        let mut b: Vec<u8> = Vec::new();
        push_u128(&mut b, self.material);
        crate::codec::push_u64(&mut b, msg.val);
        let expect = AteHash::from_bytes(b.as_slice());
        sig.val == expect.val
    }
}

} // verus!
