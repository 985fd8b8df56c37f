//! Sessions: the read and write keys a caller brings to a chain.

use vstd::prelude::*;

use crate::crypto::PrivateSignKey;
use crate::hashing::AteHash;
use crate::meta::EncryptKey;

verus! {

/// Which of a session's keys an operation may use.
#[derive(Clone, Copy, Debug, PartialEq, Eq, Structural)]
pub enum AteSessionKeyCategory {
    AllKeys,
}

/// The keys available to one caller.
pub struct AteSession {
    pub read_keys: Vec<EncryptKey>,
    pub write_keys: Vec<PrivateSignKey>,
}

/// Whether some key in `keys` hashes to `h`.
pub open spec fn spec_has_read_key(keys: Seq<EncryptKey>, h: AteHash) -> bool {
    exists|i: int| 0 <= i < keys.len() && (#[trigger] keys[i]).spec_hash() == h
}

impl AteSession {
    /// A session with no keys at all.
    pub fn new() -> (r: AteSession)
        ensures
            r.read_keys@ == Seq::<EncryptKey>::empty(),
            r.write_keys@ == Seq::<PrivateSignKey>::empty(),
    {
        AteSession { read_keys: Vec::new(), write_keys: Vec::new() }
    }

    /// The session's read keys.
    pub fn read_keys(&self, _category: AteSessionKeyCategory) -> (r: &Vec<EncryptKey>)
        ensures
            r@ == self.read_keys@,
    {
        &self.read_keys
    }

    /// The read key that hashes to `h`, if the session holds one.
    pub fn find_read_key(&self, h: &AteHash) -> (r: Option<EncryptKey>)
        ensures
            match r {
                Some(k) => self.read_keys@.contains(k) && k.spec_hash() == *h,
                None => !spec_has_read_key(self.read_keys@, *h),
            },
    {
        let n = self.read_keys.len();
        let mut i: usize = 0;
        while i < n
            invariant
                n == self.read_keys@.len(),
                i <= n,
                forall|j: int| 0 <= j < i ==> (#[trigger] self.read_keys@[j]).spec_hash() != *h,
            decreases n - i,
        {
            let k = self.read_keys[i];
            let kh = k.hash();
            if kh.val == h.val {
                return Some(k);
            }
            i = i + 1;
        }
        None
    }

    /// The write key that hashes to `h`, if the session holds one.
    pub fn find_write_key(&self, h: &AteHash) -> (r: Option<PrivateSignKey>)
        ensures
            match r {
                Some(k) => self.write_keys@.contains(k) && crate::crypto::sign_key_hash_of(
                    k.material,
                ) == *h,
                None => forall|i: int|
                    0 <= i < self.write_keys@.len() ==> crate::crypto::sign_key_hash_of(
                        (#[trigger] self.write_keys@[i]).material,
                    ) != *h,
            },
    {
        let n = self.write_keys.len();
        let mut i: usize = 0;
        while i < n
            invariant
                n == self.write_keys@.len(),
                i <= n,
                forall|j: int|
                    0 <= j < i ==> crate::crypto::sign_key_hash_of(
                        (#[trigger] self.write_keys@[j]).material,
                    ) != *h,
            decreases n - i,
        {
            let k = self.write_keys[i];
            let kh = k.hash();
            if kh.val == h.val {
                return Some(k);
            }
            i = i + 1;
        }
        None
    }
}

} // verus!
