//! Compactors: the per-event verdicts that drive a log flip. The strongest
//! verdict wins; an event no compactor claims is dropped.

use vstd::prelude::*;

use crate::event::EventHeader;
use crate::hashing::AteHash;
use crate::header::PrimaryKey;
use crate::kmap::KeyMap;
use crate::meta::{spec_get_public_key, spec_get_sign_with, spec_get_tombstone, spec_signatures,
    MetaSignature};
use crate::redo::hash_key;

verus! {

/// A compactor's verdict on one event.
#[derive(Clone, Copy, Debug, PartialEq, Eq, Structural)]
pub enum EventRelevance {
    ForceKeep,
    Keep,
    Drop,
    Abstain,
}

/// How much weight a verdict carries in the tie-break.
pub open spec fn rank(r: EventRelevance) -> int {
    match r {
        EventRelevance::ForceKeep => 3,
        EventRelevance::Keep => 2,
        EventRelevance::Drop => 1,
        EventRelevance::Abstain => 0,
    }
}

/// The stronger of two verdicts.
pub fn combine(a: EventRelevance, b: EventRelevance) -> (r: EventRelevance)
    ensures
        rank(r) == if rank(a) >= rank(b) {
            rank(a)
        } else {
            rank(b)
        },
        r == a || r == b,
{
    let ra: u8 = match a {
        EventRelevance::ForceKeep => 3,
        EventRelevance::Keep => 2,
        EventRelevance::Drop => 1,
        EventRelevance::Abstain => 0,
    };
    let rb: u8 = match b {
        EventRelevance::ForceKeep => 3,
        EventRelevance::Keep => 2,
        EventRelevance::Drop => 1,
        EventRelevance::Abstain => 0,
    };
    if ra >= rb {
        a
    } else {
        b
    }
}

/// Whether a verdict keeps the event.
pub open spec fn keeps(r: EventRelevance) -> bool {
    rank(r) >= 2
}

/// The key an event speaks about: the one its tombstone retires, else the one
/// it addresses.
pub open spec fn spec_subject_key(h: crate::event::EventHeaderV) -> Option<PrimaryKey> {
    match spec_get_tombstone(h.meta) {
        Some(k) => Some(k),
        None => h.key,
    }
}

/// The key an event speaks about.
pub fn subject_key(h: &EventHeader) -> (r: Option<PrimaryKey>)
    ensures
        r == spec_subject_key(h@),
{
    match h.meta.get_tombstone() {
        Some(k) => Some(k),
        None => h.key,
    }
}

/// Latest-per-key retention: walking from the newest event backward, the
/// first event of each key is kept, every older one dropped; a tombstone
/// leaves the decision to the tombstone compactor but still shadows older
/// events of its key.
pub struct RemoveDuplicatesCompactor {
    pub seen: KeyMap<()>,
}

impl RemoveDuplicatesCompactor {
    pub open spec fn wf(self) -> bool {
        self.seen.wf()
    }

    pub open spec fn seen_set(self) -> Set<(u128, u64)> {
        self.seen.contents().dom()
    }

    pub fn new() -> (r: RemoveDuplicatesCompactor)
        ensures
            r.wf(),
            r.seen_set() == Set::<(u128, u64)>::empty(),
    {
        let r = RemoveDuplicatesCompactor { seen: KeyMap::new() };
        proof {
            assert(r.seen_set() =~= Set::<(u128, u64)>::empty());
        }
        r
    }

    /// The verdict this compactor gives `h` with `seen` keys already passed.
    pub open spec fn spec_relevance(
        seen: Set<(u128, u64)>,
        h: crate::event::EventHeaderV,
    ) -> EventRelevance {
        match spec_subject_key(h) {
            None => EventRelevance::Abstain,
            Some(k) => if seen.contains(crate::index::pk_key(k)) {
                EventRelevance::Drop
            } else if spec_get_tombstone(h.meta) is Some {
                EventRelevance::Abstain
            } else {
                EventRelevance::Keep
            },
        }
    }

    pub fn relevance(&self, h: &EventHeader) -> (r: EventRelevance)
        requires
            self.wf(),
        ensures
            r == Self::spec_relevance(self.seen_set(), h@),
    {
        match subject_key(h) {
            None => EventRelevance::Abstain,
            Some(k) => {
                if self.seen.contains_key((k.val, 0)) {
                    EventRelevance::Drop
                } else if h.meta.get_tombstone().is_some() {
                    EventRelevance::Abstain
                } else {
                    EventRelevance::Keep
                }
            },
        }
    }

    /// Remember the event's key, whatever was decided.
    pub fn feed(&mut self, h: &EventHeader)
        requires
            old(self).wf(),
        ensures
            final(self).wf(),
            final(self).seen_set() == match spec_subject_key(h@) {
                Some(k) => old(self).seen_set().insert(crate::index::pk_key(k)),
                None => old(self).seen_set(),
            },
    {
        match subject_key(h) {
            Some(k) => {
                self.seen.insert((k.val, 0), ());
                proof {
                    assert(self.seen_set() =~= old(self).seen_set().insert(
                        crate::index::pk_key(k),
                    ));
                }
            },
            None => {},
        }
    }
}

/// Tombstone-terminates retention: a tombstone event is itself dropped, and
/// latest-per-key retention shadows the events it retired.
pub struct TombstoneCompactor {}

impl TombstoneCompactor {
    pub fn new() -> TombstoneCompactor {
        TombstoneCompactor {  }
    }

    /// The verdict this compactor gives `h`.
    pub open spec fn spec_relevance(h: crate::event::EventHeaderV) -> EventRelevance {
        if spec_get_tombstone(h.meta) is Some {
            EventRelevance::Drop
        } else {
            EventRelevance::Abstain
        }
    }

    pub fn relevance(&self, h: &EventHeader) -> (r: EventRelevance)
        ensures
            r == Self::spec_relevance(h@),
    {
        if h.meta.get_tombstone().is_some() {
            EventRelevance::Drop
        } else {
            EventRelevance::Abstain
        }
    }
}

/// The index keys referenced by a list of signatures.
pub open spec fn sig_refs(sigs: Seq<MetaSignature>) -> Set<(u128, u64)>
    decreases sigs.len(),
{
    if sigs.len() == 0 {
        Set::empty()
    } else {
        sig_refs(sigs.drop_last()).insert(hash_key(sigs.last().public_key_hash))
    }
}

/// The index keys referenced by a sign-with list.
pub open spec fn sw_refs(ks: Seq<AteHash>) -> Set<(u128, u64)>
    decreases ks.len(),
{
    if ks.len() == 0 {
        Set::empty()
    } else {
        sw_refs(ks.drop_last()).insert(hash_key(ks.last()))
    }
}

/// Every key hash an event header references: its signatures' signers and its
/// sign-with list.
pub open spec fn refs_of(m: Seq<crate::meta::CoreMetadataV>) -> Set<(u128, u64)> {
    sig_refs(spec_signatures(m)).union(
        match spec_get_sign_with(m) {
            Some(ks) => sw_refs(ks),
            None => Set::empty(),
        },
    )
}

/// Public-key retention: keep any public-key event whose hash is still
/// referenced by a surviving signature.
pub struct PublicKeyCompactor {
    pub sign_with: KeyMap<()>,
}

impl PublicKeyCompactor {
    pub open spec fn wf(self) -> bool {
        self.sign_with.wf()
    }

    pub open spec fn referenced(self) -> Set<(u128, u64)> {
        self.sign_with.contents().dom()
    }

    pub fn new() -> (r: PublicKeyCompactor)
        ensures
            r.wf(),
            r.referenced() == Set::<(u128, u64)>::empty(),
    {
        let r = PublicKeyCompactor { sign_with: KeyMap::new() };
        proof {
            assert(r.referenced() =~= Set::<(u128, u64)>::empty());
        }
        r
    }

    /// The verdict this compactor gives `h` with `refs` key hashes referenced
    /// by already-kept events.
    pub open spec fn spec_relevance(
        refs: Set<(u128, u64)>,
        h: crate::event::EventHeaderV,
    ) -> EventRelevance {
        match spec_get_public_key(h.meta) {
            Some(pk) => if refs.contains(hash_key(crate::crypto::sign_key_hash_of(pk.material))) {
                EventRelevance::ForceKeep
            } else {
                EventRelevance::Abstain
            },
            None => EventRelevance::Abstain,
        }
    }

    pub fn relevance(&self, h: &EventHeader) -> (r: EventRelevance)
        requires
            self.wf(),
        ensures
            r == Self::spec_relevance(self.referenced(), h@),
    {
        match h.meta.get_public_key() {
            Some(pk) => {
                let kh = crate::meta::PublicSignKey { material: pk.material }.hash();
                if self.sign_with.contains_key((kh.val as u128, 0)) {
                    EventRelevance::ForceKeep
                } else {
                    EventRelevance::Abstain
                }
            },
            None => EventRelevance::Abstain,
        }
    }

    /// Collect the key hashes a kept event references through its signatures
    /// and sign-with list; a dropped event contributes nothing.
    pub fn feed(&mut self, h: &EventHeader, keep: bool)
        requires
            old(self).wf(),
        ensures
            final(self).wf(),
            !keep ==> final(self).referenced() == old(self).referenced(),
            keep ==> final(self).referenced() == old(self).referenced().union(refs_of(h@.meta)),
    {
        if !keep {
            return ;
        }
        let ghost refs0 = self.referenced();
        match h.meta.get_sign_with() {
            Some(sw) => {
                let n = sw.keys.len();
                let mut i: usize = 0;
                proof {
                    assert(sw.keys@.take(0) =~= Seq::<AteHash>::empty());
                    assert(self.referenced() =~= refs0.union(sw_refs(sw.keys@.take(0))));
                }
                while i < n
                    invariant
                        self.wf(),
                        n == sw.keys@.len(),
                        i <= n,
                        spec_get_sign_with(h@.meta) == Some(sw.keys@),
                        self.referenced() == refs0.union(sw_refs(sw.keys@.take(i as int))),
                    decreases n - i,
                {
                    self.sign_with.insert((sw.keys[i].val as u128, 0), ());
                    proof {
                        assert(sw.keys@.take(i as int + 1).drop_last() =~= sw.keys@.take(i as int));
                        assert(sw.keys@.take(i as int + 1).last() == sw.keys@[i as int]);
                        assert(self.referenced() =~= refs0.union(
                            sw_refs(sw.keys@.take(i as int + 1)),
                        ));
                    }
                    i = i + 1;
                }
                proof {
                    assert(sw.keys@.take(n as int) =~= sw.keys@);
                }
            },
            None => {},
        }
        let ghost refs1 = self.referenced();
        let sigs = h.meta.signatures();
        let n = sigs.len();
        let mut i: usize = 0;
        proof {
            assert(sigs@.take(0) =~= Seq::<MetaSignature>::empty());
            assert(self.referenced() =~= refs1.union(sig_refs(sigs@.take(0))));
        }
        while i < n
            invariant
                self.wf(),
                n == sigs@.len(),
                sigs@ == spec_signatures(h@.meta),
                i <= n,
                self.referenced() == refs1.union(sig_refs(sigs@.take(i as int))),
                refs1 == refs0.union(
                    match spec_get_sign_with(h@.meta) {
                        Some(ks) => sw_refs(ks),
                        None => Set::<(u128, u64)>::empty(),
                    },
                ),
            decreases n - i,
        {
            self.sign_with.insert((sigs[i].public_key_hash.val as u128, 0), ());
            proof {
                assert(sigs@.take(i as int + 1).drop_last() =~= sigs@.take(i as int));
                assert(sigs@.take(i as int + 1).last() == sigs@[i as int]);
                assert(self.referenced() =~= refs1.union(sig_refs(sigs@.take(i as int + 1))));
            }
            i = i + 1;
        }
        proof {
            assert(sigs@.take(n as int) =~= sigs@);
            assert(self.referenced() =~= refs0.union(refs_of(h@.meta)));
        }
    }
}

} // verus!
