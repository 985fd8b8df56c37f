//! Anti-replay: remembers every accepted event hash, denies duplicates, and
//! reports duplicates seen while a log is loaded from disk.

use vstd::prelude::*;

use crate::hashing::AteHash;
use crate::kmap::KeyMap;
use crate::redo::hash_key;

verus! {

/// A validator's verdict on one event.
#[derive(Clone, Copy, Debug, PartialEq, Eq, Structural)]
pub enum ValidationResult {
    Allow,
    Abstain,
    Deny,
}

/// The set of event hashes this chain has already accepted.
pub struct AntiReplayPlugin {
    pub seen: KeyMap<()>,
}

impl AntiReplayPlugin {
    /// Whether the maps behind the set are well formed.
    pub open spec fn wf(self) -> bool {
        self.seen.wf()
    }

    /// The hashes seen so far.
    pub open spec fn seen_set(self) -> Set<(u128, u64)> {
        self.seen.contents().dom()
    }

    /// An empty set: nothing seen yet.
    pub fn new() -> (r: AntiReplayPlugin)
        ensures
            r.wf(),
            r.seen_set() == Set::<(u128, u64)>::empty(),
    {
        let r = AntiReplayPlugin { seen: KeyMap::new() };
        proof {
            assert(r.seen_set() =~= Set::<(u128, u64)>::empty());
        }
        r
    }

    /// Record a hash as seen.
    pub fn push(&mut self, hash: &AteHash)
        requires
            old(self).wf(),
        ensures
            final(self).wf(),
            final(self).seen_set() == old(self).seen_set().insert(hash_key(*hash)),
    {
        self.seen.insert((hash.val as u128, 0), ());
        proof {
            assert(self.seen_set() =~= old(self).seen_set().insert(hash_key(*hash)));
        }
    }

    /// Record an accepted event, by its hash.
    pub fn feed(&mut self, hash: &AteHash)
        requires
            old(self).wf(),
        ensures
            final(self).wf(),
            final(self).seen_set() == old(self).seen_set().insert(hash_key(*hash)),
    {
        self.push(hash);
    }

    /// Forget everything, as a fresh load does.
    pub fn reset(&mut self)
        ensures
            final(self).wf(),
            final(self).seen_set() == Set::<(u128, u64)>::empty(),
    {
        self.seen = KeyMap::new();
        proof {
            assert(self.seen_set() =~= Set::<(u128, u64)>::empty());
        }
    }

    /// Deny an event whose hash was already accepted; abstain otherwise.
    pub fn validate(&self, hash: &AteHash) -> (r: ValidationResult)
        requires
            self.wf(),
        ensures
            r == (if self.seen_set().contains(hash_key(*hash)) {
                ValidationResult::Deny
            } else {
                ValidationResult::Abstain
            }),
    {
        if self.seen.contains_key((hash.val as u128, 0)) {
            ValidationResult::Deny
        } else {
            ValidationResult::Abstain
        }
    }

    /// During an initial load: report whether the hash was already seen, and
    /// remember it either way.
    pub fn relevance_check(&mut self, hash: &AteHash) -> (r: bool)
        requires
            old(self).wf(),
        ensures
            final(self).wf(),
            r == old(self).seen_set().contains(hash_key(*hash)),
            final(self).seen_set() == old(self).seen_set().insert(hash_key(*hash)),
    {
        let ret = self.seen.contains_key((hash.val as u128, 0));
        self.push(hash);
        ret
    }
}

} // verus!
