//! The chain core: the pipeline every event traverses on ingress. A fed
//! transaction is validated event by event — anti-replay, payload hash,
//! write authority — and only a fully valid transaction reaches the log and
//! the indices. The local lock table serializes same-process mutations.

use vstd::prelude::*;

use crate::anti_replay::{AntiReplayPlugin, ValidationResult};
use crate::crypto::{sign_key_hash_of, sign_of};
use crate::errors::CommitError;
use crate::event::{data_hash_ok, header_encodable, header_hash, sig_base, EventData, EventDataV};
use crate::hashing::AteHash;
use crate::header::PrimaryKey;
use crate::index::{pk_key, BinaryTreeIndexer, EventLeaf};
use crate::kmap::KeyMap;
use crate::meta::{spec_get_authorization, spec_get_parent, spec_get_public_key, MetaAuthorization,
    spec_get_timestamp, spec_get_tombstone, spec_signatures, MetaAuthorizationV, MetaParent,
    MetaSignature, PublicSignKey, WriteOption, WriteOptionV};
use crate::redo::{hash_key, RedoLog};

verus! {

/// Who signs events on this chain: a trusted central server, or every writer
/// for itself.
#[derive(Clone, Copy, Debug, PartialEq, Eq, Structural)]
pub enum TrustMode {
    Centralized,
    Distributed,
}

/// How far an inherit walk may climb before it is abandoned.
pub const EFF_FUEL: u64 = 64;

/// The timestamp an event carries, or zero.
pub open spec fn ts_of(e: EventDataV) -> u64 {
    match spec_get_timestamp(e.header.meta) {
        Some(t) => t.time_since_epoch_ms,
        None => 0,
    }
}

/// The primary-index leaf an accepted event leaves behind.
pub open spec fn leaf_of(e: EventDataV) -> EventLeaf {
    EventLeaf { record: header_hash(e.header), created: ts_of(e), updated: ts_of(e) }
}

/// One event's effect on the primary index and the tombstone markers.
pub open spec fn apply_event_primary(
    p: Map<(u128, u64), EventLeaf>,
    t: Set<(u128, u64)>,
    e: EventDataV,
) -> (Map<(u128, u64), EventLeaf>, Set<(u128, u64)>) {
    match spec_get_tombstone(e.header.meta) {
        Some(k) => (p.remove(pk_key(k)), t.insert(pk_key(k))),
        None => match e.header.key {
            Some(k) => (p.insert(pk_key(k), leaf_of(e)), t.remove(pk_key(k))),
            None => (p, t),
        },
    }
}

/// A transaction's effect on the primary index and the tombstone markers.
pub open spec fn apply_batch_primary(
    p: Map<(u128, u64), EventLeaf>,
    t: Set<(u128, u64)>,
    evts: Seq<EventDataV>,
) -> (Map<(u128, u64), EventLeaf>, Set<(u128, u64)>)
    decreases evts.len(),
{
    if evts.len() == 0 {
        (p, t)
    } else {
        let (p1, t1) = apply_event_primary(p, t, evts[0]);
        apply_batch_primary(p1, t1, evts.drop_first())
    }
}

/// Extending a transaction extends its effect.
#[verifier::rlimit(100)]
pub proof fn lemma_apply_batch_snoc(
    p: Map<(u128, u64), EventLeaf>,
    t: Set<(u128, u64)>,
    evts: Seq<EventDataV>,
    e: EventDataV,
)
    ensures
        apply_batch_primary(p, t, evts.push(e)) == apply_event_primary(
            apply_batch_primary(p, t, evts).0,
            apply_batch_primary(p, t, evts).1,
            e,
        ),
    decreases evts.len(),
{
    if evts.len() == 0 {
        assert(evts.push(e)[0] == e);
        assert(evts.push(e).drop_first() =~= Seq::<EventDataV>::empty());
        let (p1, t1) = apply_event_primary(p, t, e);
        assert(apply_batch_primary(p, t, evts.push(e)) == apply_batch_primary(
            p1,
            t1,
            Seq::<EventDataV>::empty(),
        ));
        assert(apply_batch_primary(p, t, evts) == (p, t));
    } else {
        assert(evts.push(e)[0] == evts[0]);
        assert(evts.push(e).drop_first() =~= evts.drop_first().push(e));
        let (p1, t1) = apply_event_primary(p, t, evts[0]);
        lemma_apply_batch_snoc(p1, t1, evts.drop_first(), e);
        assert(apply_batch_primary(p, t, evts.push(e)) == apply_batch_primary(
            p1,
            t1,
            evts.drop_first().push(e),
        ));
        assert(apply_batch_primary(p, t, evts) == apply_batch_primary(p1, t1, evts.drop_first()));
    }
}

/// The anti-replay set after a transaction.
pub open spec fn seen_after(seen: Set<(u128, u64)>, evts: Seq<EventDataV>) -> Set<(u128, u64)>
    decreases evts.len(),
{
    if evts.len() == 0 {
        seen
    } else {
        seen_after(seen.insert(hash_key(header_hash(evts[0].header))), evts.drop_first())
    }
}

#[verifier::rlimit(100)]
pub proof fn lemma_seen_after_snoc(seen: Set<(u128, u64)>, evts: Seq<EventDataV>, e: EventDataV)
    ensures
        seen_after(seen, evts.push(e)) == seen_after(seen, evts).insert(
            hash_key(header_hash(e.header)),
        ),
    decreases evts.len(),
{
    let h_e = hash_key(header_hash(e.header));
    if evts.len() == 0 {
        assert(evts.push(e)[0] == e);
        assert(evts.push(e).drop_first() =~= Seq::<EventDataV>::empty());
        assert(seen_after(seen, evts.push(e)) == seen_after(seen.insert(h_e), Seq::<EventDataV>::empty()));
        assert(seen_after(seen, evts) == seen);
    } else {
        let h0 = hash_key(header_hash(evts[0].header));
        assert(evts.push(e)[0] == evts[0]);
        assert(evts.push(e).drop_first() =~= evts.drop_first().push(e));
        lemma_seen_after_snoc(seen.insert(h0), evts.drop_first(), e);
        assert(seen_after(seen, evts.push(e)) == seen_after(
            seen.insert(h0),
            evts.drop_first().push(e),
        ));
        assert(seen_after(seen, evts) == seen_after(seen.insert(h0), evts.drop_first()));
    }
}

/// One event's contribution to the public-key cache.
pub open spec fn add_key(
    m: Map<(u128, u64), PublicSignKey>,
    e: EventDataV,
) -> Map<(u128, u64), PublicSignKey> {
    match spec_get_public_key(e.header.meta) {
        Some(pk) => m.insert(hash_key(sign_key_hash_of(pk.material)), pk),
        None => m,
    }
}

/// The public-key cache after a transaction.
pub open spec fn keys_after(
    m: Map<(u128, u64), PublicSignKey>,
    evts: Seq<EventDataV>,
) -> Map<(u128, u64), PublicSignKey>
    decreases evts.len(),
{
    if evts.len() == 0 {
        m
    } else {
        keys_after(add_key(m, evts[0]), evts.drop_first())
    }
}

#[verifier::rlimit(100)]
pub proof fn lemma_keys_after_snoc(
    m: Map<(u128, u64), PublicSignKey>,
    evts: Seq<EventDataV>,
    e: EventDataV,
)
    ensures
        keys_after(m, evts.push(e)) == add_key(keys_after(m, evts), e),
    decreases evts.len(),
{
    if evts.len() == 0 {
        assert(evts.push(e)[0] == e);
        assert(evts.push(e).drop_first() =~= Seq::<EventDataV>::empty());
        assert(keys_after(m, evts.push(e)) == keys_after(
            add_key(m, e),
            Seq::<EventDataV>::empty(),
        ));
        assert(keys_after(m, evts) == m);
    } else {
        assert(evts.push(e)[0] == evts[0]);
        assert(evts.push(e).drop_first() =~= evts.drop_first().push(e));
        lemma_keys_after_snoc(add_key(m, evts[0]), evts.drop_first(), e);
        assert(keys_after(m, evts.push(e)) == keys_after(
            add_key(m, evts[0]),
            evts.drop_first().push(e),
        ));
        assert(keys_after(m, evts) == keys_after(add_key(m, evts[0]), evts.drop_first()));
    }
}

/// The write policy an event carries, taken as inherited when absent.
pub open spec fn carried_write(e: EventDataV) -> WriteOptionV {
    match spec_get_authorization(e.header.meta) {
        Some(a) => a.write,
        None => WriteOptionV::Inherit,
    }
}

/// The read policy an event carries, taken as inherited when absent.
pub open spec fn carried_read(e: EventDataV) -> crate::meta::ReadOption {
    match spec_get_authorization(e.header.meta) {
        Some(a) => a.read,
        None => crate::meta::ReadOption::Inherit,
    }
}

/// Resolve an inherited write policy by walking parent links upward. A root
/// with no explicit policy bootstraps from the chain's root keys; a broken or
/// too-deep walk resolves to nothing.
pub open spec fn eff_write_spec(
    auths: Map<(u128, u64), MetaAuthorizationV>,
    parents: Map<(u128, u64), MetaParent>,
    roots: Seq<AteHash>,
    w: WriteOptionV,
    parent: Option<MetaParent>,
    fuel: nat,
) -> Option<WriteOptionV>
    decreases fuel,
{
    if !(w is Inherit) {
        Some(w)
    } else {
        match parent {
            None => Some(WriteOptionV::AnyOf(roots)),
            Some(p) => {
                if fuel == 0 {
                    None
                } else {
                    let pk = pk_key(p.vec.parent_id);
                    if auths.dom().contains(pk) {
                        eff_write_spec(
                            auths,
                            parents,
                            roots,
                            auths[pk].write,
                            if parents.dom().contains(pk) {
                                Some(parents[pk])
                            } else {
                                None
                            },
                            (fuel - 1) as nat,
                        )
                    } else {
                        None
                    }
                }
            },
        }
    }
}

/// Whether some carried signature satisfies the effective write policy: the
/// named key must be cached — in the chain or earlier in the same
/// transaction — and the signature must verify over the event hash.
pub open spec fn sig_ok(
    keys: Map<(u128, u64), PublicSignKey>,
    eff: WriteOptionV,
    sigs: Seq<MetaSignature>,
    ehash: AteHash,
) -> bool {
    exists|i: int|
        0 <= i < sigs.len() && eff.admits((#[trigger] sigs[i]).public_key_hash)
            && keys.dom().contains(hash_key(sigs[i].public_key_hash)) && sigs[i].signature
            == sign_of(keys[hash_key(sigs[i].public_key_hash)].material, ehash)
}

/// Whether an event is accepted against the given state: its hash is fresh,
/// its payload matches its declared hash, and — under distributed trust —
/// its effective write policy admits a verified signature it carries. Under
/// centralized trust the chain's single server signs on behalf of clients, so
/// ingress demands no per-event signature; a disconnect switches a session's
/// chain to distributed trust and per-event signatures become mandatory.
#[verifier::opaque]
pub open spec fn event_valid(
    seen: Set<(u128, u64)>,
    keys: Map<(u128, u64), PublicSignKey>,
    auths: Map<(u128, u64), MetaAuthorizationV>,
    parents: Map<(u128, u64), MetaParent>,
    roots: Seq<AteHash>,
    integrity: TrustMode,
    e: EventDataV,
) -> bool {
    &&& !seen.contains(hash_key(header_hash(e.header)))
    &&& data_hash_ok(e)
    &&& (integrity is Centralized || {
        match eff_write_spec(
            auths,
            parents,
            roots,
            carried_write(e),
            spec_get_parent(e.header.meta),
            EFF_FUEL as nat,
        ) {
            Some(w) => sig_ok(keys, w, spec_signatures(e.header.meta), sig_base(e.header)),
            None => false,
        }
    })
}

/// Whether a whole transaction is accepted: each event in order, against the
/// anti-replay set grown by its predecessors, with the transaction's public
/// keys visible to all of it.
#[verifier::opaque]
pub open spec fn batch_valid(
    seen: Set<(u128, u64)>,
    keys: Map<(u128, u64), PublicSignKey>,
    auths: Map<(u128, u64), MetaAuthorizationV>,
    parents: Map<(u128, u64), MetaParent>,
    roots: Seq<AteHash>,
    integrity: TrustMode,
    evts: Seq<EventDataV>,
) -> bool
    decreases evts.len(),
{
    if evts.len() == 0 {
        true
    } else {
        &&& event_valid(seen, keys, auths, parents, roots, integrity, evts[0])
        &&& batch_valid(
            seen.insert(hash_key(header_hash(evts[0].header))),
            keys,
            auths,
            parents,
            roots,
            integrity,
            evts.drop_first(),
        )
    }
}

/// A chain: the redo log, the derived indices, the pipeline state and the
/// local lock table.
pub struct Chain {
    pub redo: RedoLog,
    pub indexer: BinaryTreeIndexer,
    pub timeline: crate::timeline::ChainTimeline,
    pub anti_replay: AntiReplayPlugin,
    pub pubkeys: KeyMap<PublicSignKey>,
    pub locks: KeyMap<()>,
    pub integrity: TrustMode,
    pub roots: Vec<AteHash>,
}

impl Chain {
    /// Every structure is well formed, the anti-replay set covers the log,
    /// every live leaf's event is reachable in the log, and cached public
    /// keys are filed under their own hash.
    pub open spec fn wf(self) -> bool {
        &&& self.redo.wf()
        &&& self.indexer.wf()
        &&& self.anti_replay.wf()
        &&& self.pubkeys.wf()
        &&& self.locks.wf()
        &&& forall|i: int|
            0 <= i < self.redo.events().len() ==> self.anti_replay.seen_set().contains(
                #[trigger] hash_key(header_hash(self.redo.events()[i].header)),
            )
        &&& forall|i: int, j: int|
            0 <= i < j < self.redo.events().len() ==> hash_key(
                header_hash(#[trigger] self.redo.events()[i].header),
            ) != hash_key(header_hash(#[trigger] self.redo.events()[j].header))
        &&& forall|k: (u128, u64)| #[trigger]
            self.indexer.primary.contents().dom().contains(k)
                ==> self.redo.index.contents().dom().contains(
                hash_key(self.indexer.primary.contents()[k].record),
            )
        &&& forall|k: (u128, u64)| #[trigger]
            self.pubkeys.contents().dom().contains(k) ==> hash_key(
                sign_key_hash_of(self.pubkeys.contents()[k].material),
            ) == k
    }

    /// An empty chain in the given trust mode, with the given root keys.
    pub fn new(integrity: TrustMode, roots: Vec<AteHash>) -> (r: Chain)
        ensures
            r.wf(),
            r.redo.events() == Seq::<EventDataV>::empty(),
            r.indexer.primary.contents() == Map::<(u128, u64), EventLeaf>::empty(),
            r.indexer.tombstoned.contents() == Map::<(u128, u64), ()>::empty(),
            r.timeline.entries() == Map::<u64, Seq<u64>>::empty(),
            r.indexer.auths.contents() == Map::<(u128, u64), MetaAuthorization>::empty(),
            r.indexer.parents.contents() == Map::<(u128, u64), MetaParent>::empty(),
            r.indexer.children.contents() == Map::<(u128, u64), Vec<PrimaryKey>>::empty(),
            r.anti_replay.seen_set() == Set::<(u128, u64)>::empty(),
            r.pubkeys.contents() == Map::<(u128, u64), PublicSignKey>::empty(),
            r.locks.contents() == Map::<(u128, u64), ()>::empty(),
            r.integrity == integrity,
            r.roots@ == roots@,
    {
        Chain {
            redo: RedoLog::new(),
            indexer: BinaryTreeIndexer::new(),
            timeline: crate::timeline::ChainTimeline::new(),
            anti_replay: AntiReplayPlugin::new(),
            pubkeys: KeyMap::new(),
            locks: KeyMap::new(),
            integrity,
            roots,
        }
    }

    /// Resolve the effective write policy for an event with carried policy
    /// `w` and parent link `parent`.
    pub fn compute_effective_write(&self, w: &WriteOption, parent: Option<MetaParent>) -> (r:
        Option<WriteOption>)
        requires
            self.wf(),
        ensures
            match r {
                Some(ww) => eff_write_spec(
                    self.indexer.auths_view(),
                    self.indexer.parents.contents(),
                    self.roots@,
                    w@,
                    parent,
                    EFF_FUEL as nat,
                ) == Some(ww@),
                None => eff_write_spec(
                    self.indexer.auths_view(),
                    self.indexer.parents.contents(),
                    self.roots@,
                    w@,
                    parent,
                    EFF_FUEL as nat,
                ) is None,
            },
    {
        let mut cur: WriteOption = crate::redo::clone_write(w);
        let mut par: Option<MetaParent> = parent;
        let mut fuel: u64 = EFF_FUEL;
        loop
            invariant
                self.wf(),
                fuel <= EFF_FUEL,
                eff_write_spec(
                    self.indexer.auths_view(),
                    self.indexer.parents.contents(),
                    self.roots@,
                    w@,
                    parent,
                    EFF_FUEL as nat,
                ) == eff_write_spec(
                    self.indexer.auths_view(),
                    self.indexer.parents.contents(),
                    self.roots@,
                    cur@,
                    par,
                    fuel as nat,
                ),
            decreases fuel,
        {
            match &cur {
                WriteOption::Inherit => {},
                _ => {
                    return Some(cur);
                },
            }
            match par {
                None => {
                    return Some(WriteOption::AnyOf(crate::redo::clone_hashes(&self.roots)));
                },
                Some(p) => {
                    if fuel == 0 {
                        return None;
                    }
                    match self.indexer.lookup_auth(&p.vec.parent_id) {
                        Some(a) => {
                            let next_w = crate::redo::clone_write(&a.write);
                            let next_p = self.indexer.lookup_parent(&p.vec.parent_id);
                            proof {
                                assert(self.indexer.auths_view().dom() =~= self.indexer.auths.contents().dom());
                                assert(self.indexer.auths_view()[pk_key(p.vec.parent_id)]
                                    == self.indexer.auths.contents()[pk_key(p.vec.parent_id)]@);
                            }
                            cur = next_w;
                            par = next_p;
                            fuel = fuel - 1;
                        },
                        None => {
                            proof {
                                assert(self.indexer.auths_view().dom() =~= self.indexer.auths.contents().dom());
                            }
                            return None;
                        },
                    }
                },
            }
        }
    }

    /// Check the carried signatures of an event against an effective policy,
    /// looking keys up in the transaction's cache first, then the chain's.
    fn check_signatures(
        &self,
        batch_keys: &KeyMap<PublicSignKey>,
        eff: &WriteOption,
        sigs: &Vec<MetaSignature>,
        ehash: &AteHash,
    ) -> (r: bool)
        requires
            self.wf(),
            batch_keys.wf(),
        ensures
            r == sig_ok(
                self.pubkeys.contents().union_prefer_right(batch_keys.contents()),
                eff@,
                sigs@,
                *ehash,
            ),
    {
        let ghost keys = self.pubkeys.contents().union_prefer_right(batch_keys.contents());
        let n = sigs.len();
        let mut i: usize = 0;
        while i < n
            invariant
                self.wf(),
                batch_keys.wf(),
                n == sigs@.len(),
                i <= n,
                keys == self.pubkeys.contents().union_prefer_right(batch_keys.contents()),
                forall|j: int|
                    0 <= j < i ==> !(eff@.admits((#[trigger] sigs@[j]).public_key_hash)
                        && keys.dom().contains(hash_key(sigs@[j].public_key_hash))
                        && sigs@[j].signature == sign_of(
                        keys[hash_key(sigs@[j].public_key_hash)].material,
                        *ehash,
                    )),
            decreases n - i,
        {
            let s = sigs[i];
            if eff.admits(s.public_key_hash) {
                let kk = (s.public_key_hash.val as u128, 0u64);
                let found: Option<&PublicSignKey> = match batch_keys.get(kk) {
                    Some(pk) => Some(pk),
                    None => self.pubkeys.get(kk),
                };
                match found {
                    Some(pk) => {
                        if pk.verify(ehash, &s.signature) {
                            proof {
                                assert(keys.dom().contains(hash_key(s.public_key_hash)));
                                assert(keys[hash_key(s.public_key_hash)] == *pk);
                            }
                            return true;
                        }
                    },
                    None => {
                        proof {
                            assert(!keys.dom().contains(hash_key(s.public_key_hash)));
                        }
                    },
                }
            }
            i = i + 1;
        }
        false
    }

    /// Try to take the local lock on a key: fails exactly when it is held.
    pub fn try_lock_local(&mut self, key: &PrimaryKey) -> (r: bool)
        requires
            old(self).wf(),
        ensures
            final(self).wf(),
            r == !old(self).locks.contents().dom().contains(pk_key(*key)),
            r ==> final(self).locks.contents() == old(self).locks.contents().insert(
                pk_key(*key),
                (),
            ),
            !r ==> final(self).locks.contents() == old(self).locks.contents(),
            final(self).redo == old(self).redo,
            final(self).indexer == old(self).indexer,
            final(self).timeline == old(self).timeline,
            final(self).anti_replay == old(self).anti_replay,
            final(self).pubkeys == old(self).pubkeys,
            final(self).integrity == old(self).integrity,
            final(self).roots == old(self).roots,
    {
        if self.locks.contains_key((key.val, 0)) {
            return false;
        }
        self.locks.insert((key.val, 0), ());
        true
    }

    /// Release the local lock on a key.
    pub fn unlock_local(&mut self, key: &PrimaryKey)
        requires
            old(self).wf(),
        ensures
            final(self).wf(),
            final(self).locks.contents() == old(self).locks.contents().remove(pk_key(*key)),
            final(self).redo == old(self).redo,
            final(self).indexer == old(self).indexer,
            final(self).timeline == old(self).timeline,
            final(self).anti_replay == old(self).anti_replay,
            final(self).pubkeys == old(self).pubkeys,
            final(self).integrity == old(self).integrity,
            final(self).roots == old(self).roots,
    {
        self.locks.remove((key.val, 0));
    }

    /// Whether the local lock on a key is held.
    pub fn is_locked_local(&self, key: &PrimaryKey) -> (r: bool)
        requires
            self.wf(),
        ensures
            r == self.locks.contents().dom().contains(pk_key(*key)),
    {
        self.locks.contains_key((key.val, 0))
    }
}

/// A held local lock blocks another local take of the same key, and releasing
/// it re-enables the take: straight from the lock table's contracts.
pub proof fn lemma_local_lock_excludes(locks: Map<(u128, u64), ()>, k: PrimaryKey)
    ensures
        locks.dom().contains(pk_key(k)) ==> !(!locks.dom().contains(pk_key(k))),
        !locks.remove(pk_key(k)).dom().contains(pk_key(k)),
{
}


/// How an accepted event is filed on the timeline: under its own timestamp
/// when it carries one, else under the timeline's current latest instant, or
/// instant zero on an empty timeline.
pub open spec fn timeline_filed(
    pre: Map<u64, Seq<u64>>,
    post: Map<u64, Seq<u64>>,
    e: EventDataV,
) -> bool {
    exists|slot: u64|
        {
            &&& (match spec_get_timestamp(e.header.meta) {
                Some(t) => slot == t.time_since_epoch_ms,
                None => (forall|k2: u64| pre.dom().contains(k2) ==> k2 <= slot) && (
                pre.dom().contains(slot) || slot == 0),
            })
            &&& post == pre.insert(
                slot,
                if pre.dom().contains(slot) {
                    pre[slot].push(header_hash(e.header).val)
                } else {
                    seq![header_hash(e.header).val]
                },
            )
        }
}

/// The keys a transaction touches, for cache invalidation.
pub open spec fn decache_of(evts: Seq<EventDataV>) -> Seq<PrimaryKey>
    decreases evts.len(),
{
    if evts.len() == 0 {
        Seq::empty()
    } else {
        decache_of(evts.drop_last()) + (match crate::compact::spec_subject_key(
            evts.last().header,
        ) {
            Some(k) => seq![k],
            None => Seq::<PrimaryKey>::empty(),
        })
    }
}

pub proof fn lemma_decache_snoc(evts: Seq<EventDataV>, e: EventDataV)
    ensures
        decache_of(evts.push(e)) == decache_of(evts) + (match crate::compact::spec_subject_key(
            e.header,
        ) {
            Some(k) => seq![k],
            None => Seq::<PrimaryKey>::empty(),
        }),
{
    assert(evts.push(e).drop_last() =~= evts);
    assert(evts.push(e).last() == e);
}

/// One valid event advances the batch-validity frontier.
#[verifier::rlimit(100)]
pub proof fn lemma_batch_valid_step(
    seen0: Set<(u128, u64)>,
    keys: Map<(u128, u64), PublicSignKey>,
    auths: Map<(u128, u64), MetaAuthorizationV>,
    parents: Map<(u128, u64), MetaParent>,
    roots: Seq<AteHash>,
    integrity: TrustMode,
    dv: Seq<EventDataV>,
    i: int,
)
    requires
        0 <= i < dv.len(),
        event_valid(seen_after(seen0, dv.take(i)), keys, auths, parents, roots, integrity, dv[i]),
    ensures
        batch_valid(seen_after(seen0, dv.take(i)), keys, auths, parents, roots, integrity, dv.skip(i))
            == batch_valid(
            seen_after(seen0, dv.take(i + 1)),
            keys,
            auths,
            parents,
            roots,
            integrity,
            dv.skip(i + 1),
        ),
{
    reveal(batch_valid);
    assert(dv.skip(i)[0] == dv[i]);
    assert(dv.skip(i).drop_first() =~= dv.skip(i + 1));
    assert(dv.take(i + 1) =~= dv.take(i).push(dv[i]));
    lemma_seen_after_snoc(seen0, dv.take(i), dv[i]);
}

/// One invalid event sinks the whole transaction.
#[verifier::rlimit(100)]
pub proof fn lemma_batch_invalid_step(
    seen0: Set<(u128, u64)>,
    keys: Map<(u128, u64), PublicSignKey>,
    auths: Map<(u128, u64), MetaAuthorizationV>,
    parents: Map<(u128, u64), MetaParent>,
    roots: Seq<AteHash>,
    integrity: TrustMode,
    dv: Seq<EventDataV>,
    i: int,
)
    requires
        0 <= i < dv.len(),
        !event_valid(seen_after(seen0, dv.take(i)), keys, auths, parents, roots, integrity, dv[i]),
    ensures
        !batch_valid(
            seen_after(seen0, dv.take(i)),
            keys,
            auths,
            parents,
            roots,
            integrity,
            dv.skip(i),
        ),
{
    reveal(batch_valid);
    assert(dv.skip(i)[0] == dv[i]);
}

/// Each event of a valid transaction is fresh against the set grown by its
/// predecessors.
pub proof fn lemma_batch_valid_fresh(
    seen0: Set<(u128, u64)>,
    keys: Map<(u128, u64), PublicSignKey>,
    auths: Map<(u128, u64), MetaAuthorizationV>,
    parents: Map<(u128, u64), MetaParent>,
    roots: Seq<AteHash>,
    integrity: TrustMode,
    dv: Seq<EventDataV>,
    i: int,
)
    requires
        0 <= i < dv.len(),
        batch_valid(seen0, keys, auths, parents, roots, integrity, dv),
    ensures
        !seen_after(seen0, dv.take(i)).contains(hash_key(header_hash(dv[i].header))),
    decreases i,
{
    reveal(batch_valid);
    reveal(event_valid);
    if i == 0 {
        assert(dv.take(0) =~= Seq::<EventDataV>::empty());
    } else {
        let seen1 = seen0.insert(hash_key(header_hash(dv[0].header)));
        assert(dv.drop_first()[i - 1] == dv[i]);
        lemma_batch_valid_fresh(
            seen1,
            keys,
            auths,
            parents,
            roots,
            integrity,
            dv.drop_first(),
            i - 1,
        );
        assert(dv.drop_first().take(i - 1) =~= dv.take(i).drop_first());
        assert(seen_after(seen1, dv.drop_first().take(i - 1)) == seen_after(
            seen0,
            dv.take(i),
        )) by {
            assert(dv.take(i)[0] == dv[0]);
            assert(dv.take(i).drop_first() =~= dv.drop_first().take(i - 1));
        }
    }
}

/// What the anti-replay set holds after a transaction: the old set plus the
/// transaction's hashes.
pub proof fn lemma_seen_after_members(
    seen: Set<(u128, u64)>,
    evts: Seq<EventDataV>,
    x: (u128, u64),
)
    ensures
        seen_after(seen, evts).contains(x) <==> (seen.contains(x) || exists|k: int|
            0 <= k < evts.len() && hash_key(header_hash((#[trigger] evts[k]).header)) == x),
    decreases evts.len(),
{
    if evts.len() > 0 {
        lemma_seen_after_members(
            seen.insert(hash_key(header_hash(evts[0].header))),
            evts.drop_first(),
            x,
        );
        if seen_after(seen, evts).contains(x) {
            if !seen.contains(x) {
                if hash_key(header_hash(evts[0].header)) == x {
                    assert(hash_key(header_hash(evts[0].header)) == x);
                } else {
                    let k = choose|k: int|
                        0 <= k < evts.drop_first().len() && hash_key(
                            header_hash((#[trigger] evts.drop_first()[k]).header),
                        ) == x;
                    assert(evts[k + 1] == evts.drop_first()[k]);
                }
            }
        }
        if exists|k: int|
            0 <= k < evts.len() && hash_key(header_hash((#[trigger] evts[k]).header)) == x {
            let k = choose|k: int|
                0 <= k < evts.len() && hash_key(header_hash((#[trigger] evts[k]).header)) == x;
            if k > 0 {
                assert(evts.drop_first()[k - 1] == evts[k]);
            }
        }
    }
}

/// Applying a concatenation applies the parts in order.
pub proof fn lemma_apply_batch_concat(
    p: Map<(u128, u64), EventLeaf>,
    t: Set<(u128, u64)>,
    a: Seq<EventDataV>,
    b: Seq<EventDataV>,
)
    ensures
        apply_batch_primary(p, t, a + b) == apply_batch_primary(
            apply_batch_primary(p, t, a).0,
            apply_batch_primary(p, t, a).1,
            b,
        ),
    decreases a.len(),
{
    if a.len() == 0 {
        assert(a + b =~= b);
        assert(apply_batch_primary(p, t, a) == (p, t));
    } else {
        assert((a + b)[0] == a[0]);
        assert((a + b).drop_first() =~= a.drop_first() + b);
        let (p1, t1) = apply_event_primary(p, t, a[0]);
        lemma_apply_batch_concat(p1, t1, a.drop_first(), b);
        assert(apply_batch_primary(p, t, a + b) == apply_batch_primary(p1, t1, a.drop_first() + b));
        assert(apply_batch_primary(p, t, a) == apply_batch_primary(p1, t1, a.drop_first()));
    }
}

/// An empty transaction is always valid.
pub proof fn reveal_batch_valid_empty(evts: Seq<EventDataV>)
    requires
        evts.len() == 0,
    ensures
        forall|seen: Set<(u128, u64)>, keys: Map<(u128, u64), PublicSignKey>, auths: Map<
            (u128, u64),
            MetaAuthorizationV,
        >, parents: Map<(u128, u64), MetaParent>, roots: Seq<AteHash>, integrity: TrustMode|
            #[trigger] batch_valid(seen, keys, auths, parents, roots, integrity, evts),
{
    reveal(batch_valid);
}

impl Chain {
    /// The indices equal a replay of the log from empty.
    pub open spec fn indices_replay_log(self) -> bool {
        (self.indexer.primary.contents(), self.indexer.tombstoned.contents().dom())
            == apply_batch_primary(
            Map::<(u128, u64), EventLeaf>::empty(),
            Set::<(u128, u64)>::empty(),
            self.redo.events(),
        )
    }

    /// Every stored event fits the wire limits.
    pub open spec fn log_encodable(self) -> bool {
        forall|i: int| #![trigger self.redo.events()[i]]
            0 <= i < self.redo.events().len() ==> header_encodable(self.redo.events()[i].header)
    }

    /// Whether one event is accepted against the chain grown by the given
    /// transaction prefix.
    #[verifier::rlimit(100)]
    #[verifier::spinoff_prover]
    fn validate_one(
        &self,
        batch_keys: &KeyMap<PublicSignKey>,
        batch_seen: &KeyMap<()>,
        e: &EventData,
        h: &AteHash,
    ) -> (r: bool)
        requires
            self.wf(),
            batch_keys.wf(),
            batch_seen.wf(),
            *h == header_hash(e@.header),
            header_encodable(e@.header),
        ensures
            r == event_valid(
                self.anti_replay.seen_set().union(batch_seen.contents().dom()),
                self.pubkeys.contents().union_prefer_right(batch_keys.contents()),
                self.indexer.auths_view(),
                self.indexer.parents.contents(),
                self.roots@,
                self.integrity,
                e@,
            ),
    {
        proof {
            reveal(event_valid);
        }
        let fresh = match self.anti_replay.validate(h) {
            ValidationResult::Deny => false,
            _ => !batch_seen.contains_key((h.val as u128, 0)),
        };
        let data_ok = crate::event::check_data_hash(e);
        let policy_ok = match self.integrity {
            TrustMode::Centralized => true,
            TrustMode::Distributed => {
                let cw = match e.header.meta.get_authorization() {
                    Some(a) => crate::redo::clone_write(&a.write),
                    None => WriteOption::Inherit,
                };
                let par = e.header.meta.get_parent();
                match self.compute_effective_write(&cw, par) {
                    Some(eff) => {
                        let sigs = e.header.meta.signatures();
                        let base = crate::event::compute_sig_base(&e.header);
                        self.check_signatures(batch_keys, &eff, &sigs, &base)
                    },
                    None => false,
                }
            },
        };
        fresh && data_ok && policy_ok
    }

    /// Apply one already-validated event: log, indices, anti-replay and key
    /// cache advance together.
    #[verifier::rlimit(100)]
    #[verifier::spinoff_prover]
    fn apply_one(&mut self, e: EventData) -> (dk: Option<PrimaryKey>)
        requires
            old(self).wf(),
            header_encodable(e@.header),
            !old(self).anti_replay.seen_set().contains(hash_key(header_hash(e@.header))),
        ensures
            final(self).wf(),
            final(self).redo.events() == old(self).redo.events().push(e@),
            final(self).indexer.primary.contents() == apply_event_primary(
                old(self).indexer.primary.contents(),
                old(self).indexer.tombstoned.contents().dom(),
                e@,
            ).0,
            final(self).indexer.tombstoned.contents().dom() == apply_event_primary(
                old(self).indexer.primary.contents(),
                old(self).indexer.tombstoned.contents().dom(),
                e@,
            ).1,
            final(self).anti_replay.seen_set() == old(self).anti_replay.seen_set().insert(
                hash_key(header_hash(e@.header)),
            ),
            final(self).pubkeys.contents() == add_key(old(self).pubkeys.contents(), e@),
            dk == crate::compact::spec_subject_key(e@.header),
            timeline_filed(old(self).timeline.entries(), final(self).timeline.entries(), e@),
            final(self).locks == old(self).locks,
            final(self).integrity == old(self).integrity,
            final(self).roots == old(self).roots,
    {
        let h = crate::event::compute_event_hash(&e.header);
        let slot = match e.header.meta.get_timestamp() {
            Some(t) => t,
            None => self.timeline.end(),
        };
        let ghost pre_entries = self.timeline.entries();
        self.timeline.add_history(slot, h);
        proof {
            assert(timeline_filed(pre_entries, self.timeline.entries(), e@)) by {
                let s = slot.time_since_epoch_ms;
                assert((match spec_get_timestamp(e@.header.meta) {
                    Some(t) => s == t.time_since_epoch_ms,
                    None => (forall|k2: u64| pre_entries.dom().contains(k2) ==> k2 <= s) && (
                    pre_entries.dom().contains(s) || s == 0),
                }));
            }
        }
        self.anti_replay.feed(&h);
        let mut dk: Option<PrimaryKey> = None;
        match e.header.meta.get_tombstone() {
            Some(k) => {
                self.indexer.feed_tombstone(&k);
                dk = Some(k);
            },
            None => {
                match e.header.key {
                    Some(k) => {
                        let ts = match e.header.meta.get_timestamp() {
                            Some(t) => t.time_since_epoch_ms,
                            None => 0,
                        };
                        let leaf = EventLeaf { record: h, created: ts, updated: ts };
                        let auth = e.header.meta.get_authorization();
                        let par = e.header.meta.get_parent();
                        self.indexer.feed_data(&k, leaf, auth, par);
                        dk = Some(k);
                    },
                    None => {},
                }
            },
        }
        match e.header.meta.get_public_key() {
            Some(pk) => {
                let kh = crate::meta::PublicSignKey { material: pk.material }.hash();
                self.pubkeys.insert((kh.val as u128, 0), pk);
            },
            None => {},
        }
        let ghost oldlog = self.redo;
        let _ = self.redo.append(e);
        proof {
            assert(self.redo.events().len() == self.redo.records@.len());
            assert(self.redo.records@.len() == oldlog.records@.len() + 1);
            let lastpos = self.redo.records@.len() - 1;
            assert(self.redo.records@[lastpos] == e);
            assert(self.redo.events()[lastpos] == self.redo.records@[lastpos]@);
            assert forall|j: int| 0 <= j < oldlog.records@.len() implies self.redo.records@[j]
                == oldlog.records@[j] by {
                assert(self.redo.records@ == oldlog.records@.push(e));
            }
            assert forall|k: (u128, u64)| #[trigger]
                self.indexer.primary.contents().dom().contains(k) implies self.redo.index.contents(
            ).dom().contains(hash_key(self.indexer.primary.contents()[k].record)) by {
                let rec = self.indexer.primary.contents()[k].record;
                if old(self).indexer.primary.contents().dom().contains(k) && old(
                    self,
                ).indexer.primary.contents()[k] == self.indexer.primary.contents()[k] {
                    let kk = hash_key(rec);
                    assert(oldlog.index.contents().dom().contains(kk));
                    let pos = oldlog.index.contents()[kk];
                    assert(oldlog.records@[pos as int] == self.redo.records@[pos as int]);
                    assert(self.redo.index.contents().dom().contains(
                        hash_key(header_hash(self.redo.records@[pos as int]@.header)),
                    ));
                } else {
                    assert(rec == header_hash(e@.header));
                    assert(self.redo.index.contents().dom().contains(
                        hash_key(header_hash(self.redo.records@[lastpos]@.header)),
                    ));
                }
            }
            assert forall|i: int| 0 <= i < self.redo.events().len() implies self.anti_replay
                .seen_set().contains(
                #[trigger] hash_key(header_hash(self.redo.events()[i].header)),
            ) by {
                if i < lastpos {
                    assert(self.redo.events()[i] == oldlog.events()[i]);
                } else {
                    assert(self.redo.events()[i] == e@);
                }
            }
            assert forall|i: int, j: int| 0 <= i < j < self.redo.events().len() implies hash_key(
                header_hash(#[trigger] self.redo.events()[i].header),
            ) != hash_key(header_hash(#[trigger] self.redo.events()[j].header)) by {
                if j < lastpos {
                    assert(self.redo.events()[i] == oldlog.events()[i]);
                    assert(self.redo.events()[j] == oldlog.events()[j]);
                } else {
                    assert(self.redo.events()[j] == e@);
                    assert(self.redo.events()[i] == oldlog.events()[i]);
                    assert(old(self).anti_replay.seen_set().contains(
                        hash_key(header_hash(oldlog.events()[i].header)),
                    ));
                }
            }
        }
        dk
    }

    /// Validate a whole transaction, then apply it: events are accepted
    /// together or not at all, and a rejected transaction changes nothing.
    /// On acceptance the log grows by the transaction, the indices advance by
    /// its replay, the anti-replay set gains its hashes, the key cache gains
    /// its public keys, and the keys it touched come back for cache
    /// invalidation.
    #[verifier::rlimit(100)]
    pub fn feed(&mut self, evts: Vec<EventData>) -> (r: Result<Vec<PrimaryKey>, CommitError>)
        requires
            old(self).wf(),
            old(self).indices_replay_log(),
            old(self).log_encodable(),
            forall|i: int| #![trigger evts.deep_view()[i]]
                0 <= i < evts.deep_view().len() ==> header_encodable(evts.deep_view()[i].header),
        ensures
            final(self).wf(),
            final(self).indices_replay_log(),
            final(self).log_encodable(),
            final(self).locks == old(self).locks,
            final(self).integrity == old(self).integrity,
            final(self).roots == old(self).roots,
            match r {
                Ok(decache) => {
                    &&& batch_valid(
                        old(self).anti_replay.seen_set(),
                        keys_after(old(self).pubkeys.contents(), evts.deep_view()),
                        old(self).indexer.auths_view(),
                        old(self).indexer.parents.contents(),
                        old(self).roots@,
                        old(self).integrity,
                        evts.deep_view(),
                    )
                    &&& final(self).redo.events() == old(self).redo.events() + evts.deep_view()
                    &&& final(self).indexer.primary.contents() == apply_batch_primary(
                        old(self).indexer.primary.contents(),
                        old(self).indexer.tombstoned.contents().dom(),
                        evts.deep_view(),
                    ).0
                    &&& final(self).indexer.tombstoned.contents().dom() == apply_batch_primary(
                        old(self).indexer.primary.contents(),
                        old(self).indexer.tombstoned.contents().dom(),
                        evts.deep_view(),
                    ).1
                    &&& final(self).anti_replay.seen_set() == seen_after(
                        old(self).anti_replay.seen_set(),
                        evts.deep_view(),
                    )
                    &&& final(self).pubkeys.contents() == keys_after(
                        old(self).pubkeys.contents(),
                        evts.deep_view(),
                    )
                    &&& decache@ == decache_of(evts.deep_view())
                },
                Err(e) => {
                    &&& e == CommitError::ValidationError
                    &&& !batch_valid(
                        old(self).anti_replay.seen_set(),
                        keys_after(old(self).pubkeys.contents(), evts.deep_view()),
                        old(self).indexer.auths_view(),
                        old(self).indexer.parents.contents(),
                        old(self).roots@,
                        old(self).integrity,
                        evts.deep_view(),
                    )
                    &&& *final(self) == *old(self)
                },
            },
    {
        let ghost dv = evts.deep_view();
        let ghost seen0 = self.anti_replay.seen_set();
        let ghost keys0 = self.pubkeys.contents();
        let ghost keys_all = keys_after(keys0, dv);
        let n = evts.len();
        proof {
            assert(dv.len() == n);
        }
        // First pass: collect the transaction's public keys, so a signature
        // may name a key carried earlier in the same transaction.
        let mut batch_keys: KeyMap<PublicSignKey> = KeyMap::new();
        let mut i: usize = 0;
        proof {
            assert(dv.take(0) =~= Seq::<EventDataV>::empty());
            assert(keys0.union_prefer_right(batch_keys.contents()) =~= keys_after(
                keys0,
                dv.take(0),
            ));
        }
        while i < n
            invariant
                n == evts@.len(),
                dv == evts.deep_view(),
                i <= n,
                batch_keys.wf(),
                self == old(self),
                keys0 == self.pubkeys.contents(),
                keys0.union_prefer_right(batch_keys.contents()) == keys_after(keys0, dv.take(i as int)),
            decreases n - i,
        {
            proof {
                assert(dv[i as int] == evts@[i as int]@);
                assert(dv.take(i as int + 1) =~= dv.take(i as int).push(dv[i as int]));
                lemma_keys_after_snoc(keys0, dv.take(i as int), dv[i as int]);
            }
            match evts[i].header.meta.get_public_key() {
                Some(pk) => {
                    let kh = crate::meta::PublicSignKey { material: pk.material }.hash();
                    let ghost prevover = batch_keys.contents();
                    batch_keys.insert((kh.val as u128, 0), pk);
                    proof {
                        assert(keys0.union_prefer_right(batch_keys.contents()) =~= keys0
                            .union_prefer_right(prevover).insert(hash_key(sign_key_hash_of(pk.material)), pk));
                    }
                },
                None => {},
            }
            i = i + 1;
        }
        proof {
            assert(dv.take(n as int) =~= dv);
        }
        // Second pass: validate each event against the anti-replay set grown
        // by its predecessors. Nothing is applied yet.
        let mut batch_seen: KeyMap<()> = KeyMap::new();
        let mut i: usize = 0;
        proof {
            assert(dv.take(0) =~= Seq::<EventDataV>::empty());
            assert(dv.skip(0) =~= dv);
            assert(seen0.union(batch_seen.contents().dom()) =~= seen_after(seen0, dv.take(0)));
        }
        while i < n
            invariant
                n == evts@.len(),
                dv == evts.deep_view(),
                i <= n,
                self == old(self),
                self.wf(),
                old(self).indices_replay_log(),
                old(self).log_encodable(),
                forall|j: int| #![trigger dv[j]] 0 <= j < dv.len() ==> header_encodable(dv[j].header),
                batch_keys.wf(),
                batch_seen.wf(),
                keys0 == self.pubkeys.contents(),
                seen0 == self.anti_replay.seen_set(),
                keys_all == keys_after(keys0, dv),
                keys0.union_prefer_right(batch_keys.contents()) == keys_all,
                seen0.union(batch_seen.contents().dom()) == seen_after(seen0, dv.take(i as int)),
                batch_valid(
                    seen0,
                    keys_all,
                    self.indexer.auths_view(),
                    self.indexer.parents.contents(),
                    self.roots@,
                    self.integrity,
                    dv,
                ) == batch_valid(
                    seen_after(seen0, dv.take(i as int)),
                    keys_all,
                    self.indexer.auths_view(),
                    self.indexer.parents.contents(),
                    self.roots@,
                    self.integrity,
                    dv.skip(i as int),
                ),
            decreases n - i,
        {
            let e = &evts[i];
            proof {
                assert(evts.deep_view()[i as int] == evts@[i as int]@);
                assert(dv[i as int] == evts@[i as int]@);
                assert(header_encodable(e@.header));
            }
            let h = crate::event::compute_event_hash(&e.header);
            let ok = self.validate_one(&batch_keys, &batch_seen, e, &h);
            if !ok {
                proof {
                    lemma_batch_invalid_step(
                        seen0,
                        keys_all,
                        self.indexer.auths_view(),
                        self.indexer.parents.contents(),
                        self.roots@,
                        self.integrity,
                        dv,
                        i as int,
                    );
                }
                return Err(CommitError::ValidationError);
            }
            proof {
                lemma_batch_valid_step(
                    seen0,
                    keys_all,
                    self.indexer.auths_view(),
                    self.indexer.parents.contents(),
                    self.roots@,
                    self.integrity,
                    dv,
                    i as int,
                );
                assert(dv.take(i as int + 1) =~= dv.take(i as int).push(dv[i as int]));
                lemma_seen_after_snoc(seen0, dv.take(i as int), dv[i as int]);
            }
            batch_seen.insert((h.val as u128, 0), ());
            proof {
                assert(seen0.union(batch_seen.contents().dom()) =~= seen_after(
                    seen0,
                    dv.take(i as int + 1),
                ));
            }
            i = i + 1;
        }
        proof {
            reveal(batch_valid);
            assert(dv.take(n as int) =~= dv);
            assert(dv.skip(n as int) =~= Seq::<EventDataV>::empty());
        }
        // Third pass: apply. Nothing can fail from here on.
        let ghost p0 = self.indexer.primary.contents();
        let ghost t0 = self.indexer.tombstoned.contents().dom();
        let ghost events0 = self.redo.events();
        let mut decache: Vec<PrimaryKey> = Vec::new();
        let mut work = evts;
        let mut i: usize = 0;
        proof {
            assert(dv.take(0) =~= Seq::<EventDataV>::empty());
            assert(events0 + dv.take(0) =~= events0);
            assert(decache@ =~= decache_of(dv.take(0)));
        }
        while i < n
            invariant
                n == dv.len(),
                i <= n,
                work.deep_view() == dv.skip(i as int),
                batch_valid(
                    seen0,
                    keys_all,
                    old(self).indexer.auths_view(),
                    old(self).indexer.parents.contents(),
                    old(self).roots@,
                    old(self).integrity,
                    dv,
                ),
                seen0 == old(self).anti_replay.seen_set(),
                keys_all == keys_after(keys0, dv),
                forall|j: int| #![trigger dv[j]] 0 <= j < dv.len() ==> header_encodable(dv[j].header),
                self.wf(),
                self.redo.events() == events0 + dv.take(i as int),
                self.indexer.primary.contents() == apply_batch_primary(p0, t0, dv.take(i as int)).0,
                self.indexer.tombstoned.contents().dom() == apply_batch_primary(
                    p0,
                    t0,
                    dv.take(i as int),
                ).1,
                self.anti_replay.seen_set() == seen_after(seen0, dv.take(i as int)),
                self.pubkeys.contents() == keys_after(keys0, dv.take(i as int)),
                decache@ == decache_of(dv.take(i as int)),
                self.locks == old(self).locks,
                self.integrity == old(self).integrity,
                self.roots == old(self).roots,
                forall|j: int| #![trigger self.redo.events()[j]]
                    0 <= j < self.redo.events().len() ==> header_encodable(
                        self.redo.events()[j].header,
                    ),
            decreases n - i,
        {
            proof {
                assert(dv.skip(i as int)[0] == dv[i as int]);
                assert(work.deep_view().len() == work@.len());
                assert(work.deep_view().len() == dv.skip(i as int).len());
                assert(work.deep_view()[0] == work@[0]@);
                assert(dv.take(i as int + 1) =~= dv.take(i as int).push(dv[i as int]));
                lemma_apply_batch_snoc(p0, t0, dv.take(i as int), dv[i as int]);
                lemma_seen_after_snoc(seen0, dv.take(i as int), dv[i as int]);
                lemma_keys_after_snoc(keys0, dv.take(i as int), dv[i as int]);
                lemma_decache_snoc(dv.take(i as int), dv[i as int]);
            }
            let ghost prework = work.deep_view();
            let e = work.remove(0);
            proof {
                assert(prework[0] == dv[i as int]);
                assert(e@ == prework[0]);
                assert forall|j: int| 0 <= j < work.deep_view().len() implies work.deep_view()[j]
                    == dv.skip(i as int + 1)[j] by {
                    assert(work.deep_view()[j] == prework[j + 1]);
                }
                assert(work.deep_view() =~= dv.skip(i as int + 1));
            }
            proof {
                lemma_batch_valid_fresh(
                    seen0,
                    keys_all,
                    old(self).indexer.auths_view(),
                    old(self).indexer.parents.contents(),
                    old(self).roots@,
                    old(self).integrity,
                    dv,
                    i as int,
                );
            }
            match self.apply_one(e) {
                Some(k) => {
                    decache.push(k);
                },
                None => {},
            }
            proof {
                assert(self.redo.events() =~= events0 + dv.take(i as int + 1));
                assert(decache@ =~= decache_of(dv.take(i as int + 1)));
            }
            i = i + 1;
        }
        proof {
            assert(dv.take(n as int) =~= dv);
            lemma_apply_batch_concat(
                Map::<(u128, u64), EventLeaf>::empty(),
                Set::<(u128, u64)>::empty(),
                events0,
                dv,
            );
            assert(apply_batch_primary(
                Map::<(u128, u64), EventLeaf>::empty(),
                Set::<(u128, u64)>::empty(),
                events0,
            ) == (p0, t0));
            assert(self.redo.events() =~= events0 + dv);
            assert(apply_batch_primary(
                Map::<(u128, u64), EventLeaf>::empty(),
                Set::<(u128, u64)>::empty(),
                self.redo.events(),
            ) == apply_batch_primary(p0, t0, dv));
            assert((self.indexer.primary.contents(), self.indexer.tombstoned.contents().dom())
                == apply_batch_primary(p0, t0, dv));
        }
        Ok(decache)
    }
}


/// The verdict the three standard compactors give one event, with `seen` the
/// subject keys already passed on the backward walk and `refs` the key hashes
/// referenced by events already kept: the strongest vote decides.
pub open spec fn flip_keeps(
    seen: Set<(u128, u64)>,
    refs: Set<(u128, u64)>,
    h: crate::event::EventHeaderV,
) -> bool {
    ||| crate::compact::rank(
        crate::compact::RemoveDuplicatesCompactor::spec_relevance(seen, h),
    ) >= 2
    ||| crate::compact::rank(crate::compact::TombstoneCompactor::spec_relevance(h)) >= 2
    ||| crate::compact::rank(crate::compact::PublicKeyCompactor::spec_relevance(refs, h)) >= 2
}

/// The backward compaction walk over a log, newest event first: for each
/// event its keep decision, and the walk's final seen and referenced sets.
pub open spec fn flip_walk(evts: Seq<EventDataV>) -> (Seq<bool>, Set<(u128, u64)>, Set<
    (u128, u64),
>)
    decreases evts.len(),
{
    if evts.len() == 0 {
        (Seq::empty(), Set::empty(), Set::empty())
    } else {
        let rest = flip_walk(evts.drop_first());
        let e = evts[0];
        let keep = flip_keeps(rest.1, rest.2, e.header);
        let seen2 = match crate::compact::spec_subject_key(e.header) {
            Some(k) => rest.1.insert(pk_key(k)),
            None => rest.1,
        };
        let refs2 = if keep {
            rest.2.union(crate::compact::refs_of(e.header.meta))
        } else {
            rest.2
        };
        (seq![keep] + rest.0, seen2, refs2)
    }
}

/// The events a keep mask lets through, in order.
pub open spec fn filter_by(evts: Seq<EventDataV>, keeps: Seq<bool>) -> Seq<EventDataV>
    recommends
        evts.len() == keeps.len(),
    decreases evts.len(),
{
    if evts.len() == 0 {
        Seq::empty()
    } else {
        filter_by(evts.drop_last(), keeps.drop_last()) + (if keeps[evts.len() - 1] {
            seq![evts.last()]
        } else {
            Seq::<EventDataV>::empty()
        })
    }
}

impl Chain {
    /// Compact the chain: walk the log newest to oldest, let the compactors
    /// vote on each event — latest-per-key, tombstone-terminates and
    /// public-key retention, strongest verdict wins — copy the survivors
    /// into a flipped log, and rebuild the indices by replaying it. The local
    /// lock table, trust mode and root keys survive the flip. Returns the
    /// header digests of the surviving events, in log order.
    #[verifier::rlimit(100)]
    pub fn flip(&mut self) -> (r: Vec<crate::redo::EventHeaderRaw>)
        requires
            old(self).wf(),
            old(self).indices_replay_log(),
            old(self).log_encodable(),
        ensures
            final(self).wf(),
            final(self).indices_replay_log(),
            final(self).log_encodable(),
            final(self).locks == old(self).locks,
            final(self).integrity == old(self).integrity,
            final(self).roots@ == old(self).roots@,
            final(self).redo.events() == filter_by(
                old(self).redo.events(),
                flip_walk(old(self).redo.events()).0,
            ),
            final(self).redo.events().len() <= old(self).redo.events().len(),
            forall|i: int|
                0 <= i < final(self).redo.events().len() ==> old(self).redo.events().contains(
                    #[trigger] final(self).redo.events()[i],
                ),
            r@.len() == final(self).redo.events().len(),
    {
        let n = self.redo.records.len();
        proof {
            assert(self.redo.events().len() == self.redo.records@.len());
        }
        // Backward pass: verdicts, newest first.
        let mut rd = crate::compact::RemoveDuplicatesCompactor::new();
        let tc = crate::compact::TombstoneCompactor::new();
        let mut pkc = crate::compact::PublicKeyCompactor::new();
        let mut keep: Vec<bool> = Vec::new();
        let mut j: usize = 0;
        while j < n
            invariant
                j <= n,
                keep@.len() == j,
            decreases n - j,
        {
            keep.push(false);
            j = j + 1;
        }
        let mut i: usize = n;
        proof {
            assert(self.redo.events().skip(n as int) =~= Seq::<EventDataV>::empty());
            assert(keep@.skip(n as int) =~= Seq::<bool>::empty());
            assert(rd.seen_set() =~= flip_walk(self.redo.events().skip(n as int)).1);
            assert(pkc.referenced() =~= flip_walk(self.redo.events().skip(n as int)).2);
        }
        while i > 0
            invariant
                i <= n,
                n == self.redo.records@.len(),
                self.wf(),
                keep@.len() == n,
                rd.wf(),
                pkc.wf(),
                keep@.skip(i as int) == flip_walk(self.redo.events().skip(i as int)).0,
                rd.seen_set() == flip_walk(self.redo.events().skip(i as int)).1,
                pkc.referenced() == flip_walk(self.redo.events().skip(i as int)).2,
            decreases i,
        {
            i = i - 1;
            let ghost dv = self.redo.events();
            proof {
                assert(dv.skip(i as int).drop_first() =~= dv.skip(i as int + 1));
                assert(dv.skip(i as int)[0] == dv[i as int]);
                assert(dv[i as int] == self.redo.records@[i as int]@);
            }
            let header = &self.redo.records[i].header;
            let v1 = rd.relevance(header);
            let v2 = tc.relevance(header);
            let v3 = pkc.relevance(header);
            let verdict = crate::compact::combine(crate::compact::combine(v1, v2), v3);
            let keep_it = match verdict {
                crate::compact::EventRelevance::ForceKeep => true,
                crate::compact::EventRelevance::Keep => true,
                _ => false,
            };
            proof {
                assert(keep_it == flip_keeps(rd.seen_set(), pkc.referenced(), dv[i as int].header));
            }
            let ghost prevkeep = keep@;
            keep.set(i, keep_it);
            proof {
                assert(keep@.skip(i as int) =~= seq![keep_it] + prevkeep.skip(i as int + 1));
                assert(keep@.skip(i as int) =~= flip_walk(dv.skip(i as int)).0);
            }
            rd.feed(header);
            pkc.feed(header, keep_it);
            proof {
                assert(rd.seen_set() == flip_walk(dv.skip(i as int)).1);
                assert(pkc.referenced() == flip_walk(dv.skip(i as int)).2);
            }
        }
        proof {
            assert(self.redo.events().skip(0) =~= self.redo.events());
            assert(keep@.skip(0) =~= keep@);
            assert(keep@ == flip_walk(self.redo.events()).0);
        }
        // Forward pass: copy survivors into the staging file and replay them
        // into fresh indices.
        let mut flipped = crate::redo::FlippedLogFile::new(
            if self.redo.file_index < 0xffffffff {
                self.redo.file_index + 1
            } else {
                0
            },
        );
        let mut fresh = Chain::new(self.integrity, crate::redo::clone_hashes(&self.roots));
        proof {
            assert(fresh.redo.events() =~= Seq::<EventDataV>::empty());
            assert(fresh.indices_replay_log());
        }
        let mut i: usize = 0;
        let ghost mut kept_idx: Seq<int> = Seq::empty();
        proof {
            assert(fresh.anti_replay.seen_set() =~= seen_after(
                Set::<(u128, u64)>::empty(),
                fresh.redo.events(),
            ));
        }
        while i < n
            invariant
                i <= n,
                n == self.redo.records@.len(),
                self.wf(),
                self.log_encodable(),
                keep@.len() == n,
                flipped.log_file.wf(),
                fresh.wf(),
                fresh.indices_replay_log(),
                fresh.log_encodable(),
                fresh.integrity == self.integrity,
                fresh.locks.contents() == Map::<(u128, u64), ()>::empty(),
                fresh.roots@ == self.roots@,
                flipped.event_summary@.len() == fresh.redo.events().len(),
                fresh.redo.events().len() <= i,
                keep@ == flip_walk(self.redo.events()).0,
                keep@.len() == flip_walk(self.redo.events()).0.len(),
                fresh.redo.events() == filter_by(
                    self.redo.events().take(i as int),
                    keep@.take(i as int),
                ),
                kept_idx.len() == fresh.redo.events().len(),
                forall|k: int|
                    0 <= k < kept_idx.len() ==> 0 <= #[trigger] kept_idx[k] < i
                        && fresh.redo.events()[k] == self.redo.events()[kept_idx[k]],
                fresh.anti_replay.seen_set() == seen_after(
                    Set::<(u128, u64)>::empty(),
                    fresh.redo.events(),
                ),
            decreases n - i,
        {
            if keep[i] {
                let copy = crate::redo::clone_event(&self.redo.records[i]);
                let copy2 = crate::redo::clone_event(&self.redo.records[i]);
                proof {
                    assert(self.redo.events()[i as int] == self.redo.records@[i as int]@);
                    assert(header_encodable(copy@.header));
                    lemma_apply_batch_snoc(
                        Map::<(u128, u64), EventLeaf>::empty(),
                        Set::<(u128, u64)>::empty(),
                        fresh.redo.events(),
                        copy@,
                    );
                    lemma_seen_after_members(
                        Set::<(u128, u64)>::empty(),
                        fresh.redo.events(),
                        hash_key(header_hash(copy@.header)),
                    );
                    assert(!fresh.anti_replay.seen_set().contains(
                        hash_key(header_hash(copy@.header)),
                    )) by {
                        if fresh.anti_replay.seen_set().contains(
                            hash_key(header_hash(copy@.header)),
                        ) {
                            let k = choose|k: int|
                                0 <= k < fresh.redo.events().len() && hash_key(
                                    header_hash((#[trigger] fresh.redo.events()[k]).header),
                                ) == hash_key(header_hash(copy@.header));
                            assert(fresh.redo.events()[k] == self.redo.events()[kept_idx[k]]);
                            assert(kept_idx[k] < i as int);
                        }
                    }
                    lemma_seen_after_snoc(
                        Set::<(u128, u64)>::empty(),
                        fresh.redo.events(),
                        copy@,
                    );
                }
                let _ = flipped.write(copy2);
                let ghost prevevents = fresh.redo.events();
                let _ = fresh.apply_one(copy);
                proof {
                    kept_idx = kept_idx.push(i as int);
                    assert forall|k: int| 0 <= k < kept_idx.len() implies 0 <= #[trigger]
                        kept_idx[k] < i + 1 && fresh.redo.events()[k] == self.redo.events()[
                        kept_idx[k]] by {
                        if k < prevevents.len() {
                            assert(fresh.redo.events()[k] == prevevents[k]);
                        } else {
                            assert(fresh.redo.events()[k] == self.redo.events()[i as int]);
                        }
                    }
                    assert(self.redo.events().take(i as int + 1).drop_last()
                        =~= self.redo.events().take(i as int));
                    assert(keep@.take(i as int + 1).drop_last() =~= keep@.take(i as int));
                    assert(self.redo.events().take(i as int + 1).last()
                        == self.redo.events()[i as int]);
                    assert(fresh.redo.events() =~= prevevents.push(copy@));
                    assert(fresh.redo.events() =~= filter_by(
                        self.redo.events().take(i as int + 1),
                        keep@.take(i as int + 1),
                    ));
                }
            } else {
                proof {
                    assert(self.redo.events().take(i as int + 1).drop_last()
                        =~= self.redo.events().take(i as int));
                    assert(keep@.take(i as int + 1).drop_last() =~= keep@.take(i as int));
                    assert(fresh.redo.events() =~= filter_by(
                        self.redo.events().take(i as int + 1),
                        keep@.take(i as int + 1),
                    ));
                }
            }
            i = i + 1;
        }
        proof {
            assert forall|k: int| 0 <= k < fresh.redo.events().len() implies self.redo.events(
            ).contains(#[trigger] fresh.redo.events()[k]) by {
                assert(fresh.redo.events()[k] == self.redo.events()[kept_idx[k]]);
            }
        }
        let summary = flipped.drain_events();
        std::mem::swap(&mut fresh.locks, &mut self.locks);
        std::mem::swap(self, &mut fresh);
        summary
    }
}


/// The shape of a freshly opened chain: nothing accepted yet.
pub open spec fn empty_chain_shape(c: Chain, integrity: TrustMode, roots: Seq<AteHash>) -> bool {
    &&& c.redo.events() == Seq::<EventDataV>::empty()
    &&& c.indexer.primary.contents() == Map::<(u128, u64), EventLeaf>::empty()
    &&& c.indexer.tombstoned.contents().dom() == Set::<(u128, u64)>::empty()
    &&& c.indexer.auths_view() == Map::<(u128, u64), MetaAuthorizationV>::empty()
    &&& c.indexer.parents.contents() == Map::<(u128, u64), MetaParent>::empty()
    &&& c.anti_replay.seen_set() == Set::<(u128, u64)>::empty()
    &&& c.pubkeys.contents() == Map::<(u128, u64), PublicSignKey>::empty()
    &&& c.integrity == integrity
    &&& c.roots@ == roots
}

/// One accepted replay step: the event passed the full ingress pipeline
/// against the chain so far, and every index advanced by it.
pub open spec fn feed_step(pre: Chain, e: EventDataV, post: Chain) -> bool {
    &&& header_encodable(e.header)
    &&& batch_valid(
        pre.anti_replay.seen_set(),
        keys_after(pre.pubkeys.contents(), seq![e]),
        pre.indexer.auths_view(),
        pre.indexer.parents.contents(),
        pre.roots@,
        pre.integrity,
        seq![e],
    )
    &&& post.redo.events() == pre.redo.events().push(e)
    &&& post.indexer.primary.contents() == apply_batch_primary(
        pre.indexer.primary.contents(),
        pre.indexer.tombstoned.contents().dom(),
        seq![e],
    ).0
    &&& post.indexer.tombstoned.contents().dom() == apply_batch_primary(
        pre.indexer.primary.contents(),
        pre.indexer.tombstoned.contents().dom(),
        seq![e],
    ).1
    &&& post.anti_replay.seen_set() == seen_after(pre.anti_replay.seen_set(), seq![e])
    &&& post.pubkeys.contents() == keys_after(pre.pubkeys.contents(), seq![e])
    &&& post.integrity == pre.integrity
    &&& post.roots == pre.roots
}

/// A rejected replay step: the event is past the wire limits or the pipeline
/// refuses it against the chain so far.
pub open spec fn feed_step_rejected(pre: Chain, e: EventDataV) -> bool {
    ||| !header_encodable(e.header)
    ||| !batch_valid(
        pre.anti_replay.seen_set(),
        keys_after(pre.pubkeys.contents(), seq![e]),
        pre.indexer.auths_view(),
        pre.indexer.parents.contents(),
        pre.roots@,
        pre.integrity,
        seq![e],
    )
}

/// One step of a replay: the event was accepted, or rejected in place with
/// the chain untouched.
pub open spec fn replay_step(pre: Chain, e: EventDataV, post: Chain) -> bool {
    feed_step(pre, e, post) || (feed_step_rejected(pre, e) && post == pre)
}

/// A whole replay from an empty chain: each input event in order was accepted
/// or rejected in place, ending at the reopened chain.
pub open spec fn replay_trace(
    cs: Seq<Chain>,
    evts: Seq<EventDataV>,
    integrity: TrustMode,
    roots: Seq<AteHash>,
    last: Chain,
) -> bool {
    &&& cs.len() == evts.len() + 1
    &&& empty_chain_shape(cs[0], integrity, roots)
    &&& cs.last() == last
    &&& forall|i: int| 0 <= i < evts.len() ==> replay_step(#[trigger] cs[i], evts[i], cs[i + 1])
}

impl Chain {
    /// Re-open a chain from a redo log's events, with no other state: each
    /// record runs the full ingress pipeline again; a record the pipeline
    /// rejects — a duplicate, a bad payload hash, an unauthorized write — is
    /// skipped in place, as is one past the wire limits.
    pub fn open_from_log(
        events: Vec<EventData>,
        integrity: TrustMode,
        roots: Vec<AteHash>,
    ) -> (r: Chain)
        ensures
            r.wf(),
            r.indices_replay_log(),
            r.log_encodable(),
            r.integrity == integrity,
            exists|cs: Seq<Chain>|
                #[trigger] replay_trace(cs, events.deep_view(), integrity, roots@, r),
    {
        let ghost dv0 = events.deep_view();
        let ghost rootsv = roots@;
        let mut chain = Chain::new(integrity, roots);
        let mut work = events;
        let ghost mut trace: Seq<Chain> = seq![chain];
        proof {
            assert(chain.redo.events() =~= Seq::<EventDataV>::empty());
            assert(chain.indices_replay_log());
            assert(chain.indexer.auths_view() =~= Map::<(u128, u64), MetaAuthorizationV>::empty());
            assert(empty_chain_shape(chain, integrity, rootsv));
            assert(work.deep_view() =~= dv0.skip(0));
        }
        while work.len() > 0
            invariant
                chain.wf(),
                chain.indices_replay_log(),
                chain.log_encodable(),
                chain.integrity == integrity,
                1 <= trace.len() <= dv0.len() + 1,
                work.deep_view() == dv0.skip(trace.len() - 1),
                trace.last() == chain,
                empty_chain_shape(trace[0], integrity, rootsv),
                forall|j: int|
                    0 <= j < trace.len() - 1 ==> replay_step(
                        #[trigger] trace[j],
                        dv0[j],
                        trace[j + 1],
                    ),
            decreases work@.len(),
        {
            let ghost pre = chain;
            let ghost pos = trace.len() - 1;
            let ghost prework = work.deep_view();
            proof {
                assert(prework.len() == work@.len());
                assert(prework.len() > 0);
                assert(pos < dv0.len());
            }
            let ev = work.remove(0);
            proof {
                assert(dv0.skip(pos)[0] == dv0[pos]);
                assert(prework[0] == dv0[pos]);
                assert(ev@ == prework[0]);
                assert forall|j: int| 0 <= j < work.deep_view().len() implies work.deep_view()[j]
                    == dv0.skip(pos + 1)[j] by {
                    assert(work.deep_view()[j] == prework[j + 1]);
                }
                assert(work.deep_view() =~= dv0.skip(pos + 1));
            }
            if crate::event::check_header_encodable(&ev.header) {
                let mut batch: Vec<EventData> = Vec::new();
                batch.push(ev);
                proof {
                    assert(batch.deep_view() =~= seq![dv0[pos]]);
                    assert(forall|i: int| #![trigger batch.deep_view()[i]]
                        0 <= i < batch.deep_view().len() ==> header_encodable(
                            batch.deep_view()[i].header,
                        ));
                }
                match chain.feed(batch) {
                    Ok(_) => {
                        proof {
                            assert(chain.redo.events() =~= pre.redo.events().push(dv0[pos]));
                            assert(feed_step(pre, dv0[pos], chain));
                        }
                    },
                    Err(_) => {
                        proof {
                            assert(feed_step_rejected(pre, dv0[pos]));
                        }
                    },
                }
            } else {
                proof {
                    assert(feed_step_rejected(pre, dv0[pos]));
                }
            }
            proof {
                assert(replay_step(pre, dv0[pos], chain));
                trace = trace.push(chain);
                assert(trace.last() == chain);
                assert forall|j: int| 0 <= j < trace.len() - 1 implies replay_step(
                    #[trigger] trace[j],
                    dv0[j],
                    trace[j + 1],
                ) by {
                    if j < trace.len() - 2 {
                        assert(trace[j] == trace.drop_last()[j]);
                        assert(trace[j + 1] == trace.drop_last()[j + 1]);
                    } else {
                        assert(trace[j] == pre && trace[j + 1] == chain);
                    }
                }
            }
        }
        proof {
            assert(work.deep_view().len() == work@.len());
            assert(dv0.skip(trace.len() - 1).len() == 0);
            assert(trace.len() == dv0.len() + 1);
            assert(replay_trace(trace, dv0, integrity, rootsv, chain));
        }
        chain
    }
}


/// The position of the newest event that speaks about a key, if any does.
pub open spec fn last_subject(evts: Seq<EventDataV>, k: PrimaryKey) -> Option<int>
    decreases evts.len(),
{
    if evts.len() == 0 {
        None
    } else if crate::compact::spec_subject_key(evts.last().header) == Some(k) {
        Some(evts.len() - 1)
    } else {
        last_subject(evts.drop_last(), k)
    }
}

/// One latest event per key: replaying a log holds a key in the primary
/// index exactly when the newest event speaking about it is a store, and the
/// index then reaches that one event through its header hash; a newest
/// tombstone leaves the marker instead.
pub proof fn lemma_replay_latest(evts: Seq<EventDataV>, k: PrimaryKey)
    ensures
        ({
            let p = apply_batch_primary(
                Map::<(u128, u64), EventLeaf>::empty(),
                Set::<(u128, u64)>::empty(),
                evts,
            ).0;
            let t = apply_batch_primary(
                Map::<(u128, u64), EventLeaf>::empty(),
                Set::<(u128, u64)>::empty(),
                evts,
            ).1;
            match last_subject(evts, k) {
                None => !p.dom().contains(pk_key(k)) && !t.contains(pk_key(k)),
                Some(i) => {
                    &&& 0 <= i < evts.len()
                    &&& crate::compact::spec_subject_key(evts[i].header) == Some(k)
                    &&& (spec_get_tombstone(evts[i].header.meta) is Some ==> !p.dom().contains(
                        pk_key(k),
                    ) && t.contains(pk_key(k)))
                    &&& (spec_get_tombstone(evts[i].header.meta) is None ==> p.dom().contains(
                        pk_key(k),
                    ) && p[pk_key(k)] == leaf_of(evts[i]) && !t.contains(pk_key(k)))
                },
            }
        }),
    decreases evts.len(),
{
    let e0 = Map::<(u128, u64), EventLeaf>::empty();
    let t0 = Set::<(u128, u64)>::empty();
    if evts.len() == 0 {
    } else {
        let pre = evts.drop_last();
        let last = evts.last();
        assert(evts =~= pre.push(last));
        lemma_apply_batch_snoc(e0, t0, pre, last);
        lemma_replay_latest(pre, k);
        let (pp, pt) = apply_batch_primary(e0, t0, pre);
        if crate::compact::spec_subject_key(last.header) == Some(k) {
            match spec_get_tombstone(last.header.meta) {
                Some(tk) => {
                    assert(tk == k);
                },
                None => {
                    assert(last.header.key == Some(k));
                },
            }
        } else {
            match spec_get_tombstone(last.header.meta) {
                Some(tk) => {
                    assert(tk != k);
                    assert(pk_key(tk) != pk_key(k));
                },
                None => {
                    match last.header.key {
                        Some(k2) => {
                            assert(k2 != k);
                            assert(pk_key(k2) != pk_key(k));
                        },
                        None => {},
                    }
                },
            }
            assert(last_subject(evts, k) == last_subject(pre, k));
            match last_subject(pre, k) {
                None => {},
                Some(i) => {
                    assert(pre[i] == evts[i]);
                },
            }
        }
    }
}


/// The subject keys of a batch of events, as index keys.
pub open spec fn subjects_set(s: Seq<EventDataV>) -> Set<(u128, u64)>
    decreases s.len(),
{
    if s.len() == 0 {
        Set::empty()
    } else {
        match crate::compact::spec_subject_key(s[0].header) {
            Some(k) => subjects_set(s.drop_first()).insert(pk_key(k)),
            None => subjects_set(s.drop_first()),
        }
    }
}

/// The backward walk's seen set is exactly the batch's subject keys.
pub proof fn lemma_flip_walk_seen(s: Seq<EventDataV>)
    ensures
        flip_walk(s).1 == subjects_set(s),
    decreases s.len(),
{
    if s.len() > 0 {
        lemma_flip_walk_seen(s.drop_first());
    }
}

/// A key is among the subjects exactly when some event speaks about it.
pub proof fn lemma_subjects_set_members(s: Seq<EventDataV>, k: PrimaryKey)
    ensures
        subjects_set(s).contains(pk_key(k)) <==> exists|j: int|
            0 <= j < s.len() && crate::compact::spec_subject_key((#[trigger] s[j]).header) == Some(
                k,
            ),
    decreases s.len(),
{
    if s.len() > 0 {
        lemma_subjects_set_members(s.drop_first(), k);
        if subjects_set(s).contains(pk_key(k)) {
            if crate::compact::spec_subject_key(s[0].header) == Some(k) {
            } else if subjects_set(s.drop_first()).contains(pk_key(k)) {
                let j = choose|j: int|
                    0 <= j < s.drop_first().len() && crate::compact::spec_subject_key(
                        (#[trigger] s.drop_first()[j]).header,
                    ) == Some(k);
                assert(s[j + 1] == s.drop_first()[j]);
            } else {
                match crate::compact::spec_subject_key(s[0].header) {
                    Some(k2) => {
                        assert(pk_key(k2) == pk_key(k));
                        assert(k2 == k);
                    },
                    None => {},
                }
            }
        }
        if exists|j: int|
            0 <= j < s.len() && crate::compact::spec_subject_key((#[trigger] s[j]).header) == Some(
                k,
            ) {
            let j = choose|j: int|
                0 <= j < s.len() && crate::compact::spec_subject_key((#[trigger] s[j]).header)
                    == Some(k);
            if j > 0 {
                assert(s.drop_first()[j - 1] == s[j]);
            }
        }
    }
}

/// Each keep decision of the walk is the verdict against the walk's state
/// over the strictly newer events.
pub proof fn lemma_flip_walk_index(s: Seq<EventDataV>, j: int)
    requires
        0 <= j < s.len(),
    ensures
        flip_walk(s).0.len() == s.len(),
        flip_walk(s).0[j] == flip_keeps(
            flip_walk(s.skip(j + 1)).1,
            flip_walk(s.skip(j + 1)).2,
            s[j].header,
        ),
    decreases s.len(),
{
    lemma_flip_walk_len(s);
    if j == 0 {
        assert(s.skip(1) =~= s.drop_first());
        assert(flip_walk(s).0[0] == flip_keeps(
            flip_walk(s.drop_first()).1,
            flip_walk(s.drop_first()).2,
            s[0].header,
        ));
    } else {
        lemma_flip_walk_len(s.drop_first());
        assert(flip_walk(s).0[j] == flip_walk(s.drop_first()).0[j - 1]);
        lemma_flip_walk_index(s.drop_first(), j - 1);
        assert(s.drop_first().skip(j) =~= s.skip(j + 1));
        assert(s.drop_first()[j - 1] == s[j]);
    }
}

/// The walk decides once per event.
pub proof fn lemma_flip_walk_len(s: Seq<EventDataV>)
    ensures
        flip_walk(s).0.len() == s.len(),
    decreases s.len(),
{
    if s.len() > 0 {
        lemma_flip_walk_len(s.drop_first());
    }
}

/// The newest event speaking about a key is at the position the walk names,
/// and nothing newer speaks about it.
pub proof fn lemma_last_subject_max(s: Seq<EventDataV>, k: PrimaryKey, i: int)
    requires
        last_subject(s, k) == Some(i),
    ensures
        0 <= i < s.len(),
        crate::compact::spec_subject_key(s[i].header) == Some(k),
        forall|j: int|
            i < j < s.len() ==> crate::compact::spec_subject_key((#[trigger] s[j]).header) != Some(
                k,
            ),
    decreases s.len(),
{
    if s.len() > 0 {
        if crate::compact::spec_subject_key(s.last().header) == Some(k) {
        } else {
            lemma_last_subject_max(s.drop_last(), k, i);
            assert(forall|j: int| 0 <= j < s.len() - 1 ==> (#[trigger] s[j]) == s.drop_last()[j]);
        }
    }
}

/// Compaction retires a tombstoned key for good: when the newest event
/// speaking about a key is its tombstone, and no event in the log carries a
/// public key (public-key retention cannot revive anything), no surviving
/// event speaks about the key — neither the stored records nor the tombstone.
pub proof fn lemma_flip_retires_tombstoned(evts: Seq<EventDataV>, k: PrimaryKey)
    requires
        forall|j: int|
            0 <= j < evts.len() ==> crate::meta::spec_get_public_key(
                (#[trigger] evts[j]).header.meta,
            ) is None,
        match last_subject(evts, k) {
            Some(i) => spec_get_tombstone(evts[i].header.meta) is Some,
            None => false,
        },
    ensures
        ({
            let kept = filter_by(evts, flip_walk(evts).0);
            forall|j: int|
                0 <= j < kept.len() ==> crate::compact::spec_subject_key(
                    (#[trigger] kept[j]).header,
                ) != Some(k)
        }),
{
    let i = last_subject(evts, k)->Some_0;
    lemma_last_subject_max(evts, k, i);
    lemma_flip_walk_len(evts);
    assert forall|j: int|
        0 <= j < evts.len() && crate::compact::spec_subject_key((#[trigger] evts[j]).header)
            == Some(k) implies !flip_walk(evts).0[j] by {
        lemma_flip_walk_index(evts, j);
        let seen = flip_walk(evts.skip(j + 1)).1;
        lemma_flip_walk_seen(evts.skip(j + 1));
        assert(j <= i);
        if j < i {
            assert(evts.skip(j + 1)[i - j - 1] == evts[i]);
            lemma_subjects_set_members(evts.skip(j + 1), k);
            assert(seen.contains(pk_key(k)));
            assert(crate::compact::rank(
                crate::compact::RemoveDuplicatesCompactor::spec_relevance(seen, evts[j].header),
            ) < 2);
        } else {
            assert(spec_get_tombstone(evts[j].header.meta) is Some);
            assert(crate::compact::rank(
                crate::compact::RemoveDuplicatesCompactor::spec_relevance(seen, evts[j].header),
            ) < 2);
        }
        assert(crate::compact::rank(
            crate::compact::TombstoneCompactor::spec_relevance(evts[j].header),
        ) < 2);
        assert(crate::compact::rank(
            crate::compact::PublicKeyCompactor::spec_relevance(
                flip_walk(evts.skip(j + 1)).2,
                evts[j].header,
            ),
        ) < 2);
    }
    lemma_filter_excludes(evts, flip_walk(evts).0, k);
}

/// Filtering with a mask that refuses every event speaking about a key
/// leaves none of them.
pub proof fn lemma_filter_excludes(s: Seq<EventDataV>, keeps: Seq<bool>, k: PrimaryKey)
    requires
        keeps.len() == s.len(),
        forall|j: int|
            0 <= j < s.len() && crate::compact::spec_subject_key((#[trigger] s[j]).header) == Some(
                k,
            ) ==> !keeps[j],
    ensures
        forall|j: int|
            0 <= j < filter_by(s, keeps).len() ==> crate::compact::spec_subject_key(
                (#[trigger] filter_by(s, keeps)[j]).header,
            ) != Some(k),
    decreases s.len(),
{
    if s.len() > 0 {
        assert(forall|j: int| 0 <= j < s.len() - 1 ==> (#[trigger] s.drop_last()[j]) == s[j]);
        assert(forall|j: int|
            0 <= j < keeps.len() - 1 ==> (#[trigger] keeps.drop_last()[j]) == keeps[j]);
        lemma_filter_excludes(s.drop_last(), keeps.drop_last(), k);
        let f = filter_by(s, keeps);
        let fpre = filter_by(s.drop_last(), keeps.drop_last());
        assert forall|j: int| 0 <= j < f.len() implies crate::compact::spec_subject_key(
            (#[trigger] f[j]).header,
        ) != Some(k) by {
            if j < fpre.len() {
                assert(f[j] == fpre[j]);
            } else {
                assert(keeps[s.len() - 1]);
                assert(f[j] == s.last());
            }
        }
    }
}


/// When exactly one event speaking about a key survives a mask, the newest
/// surviving event about the key is that one.
pub proof fn lemma_filter_single(s: Seq<EventDataV>, keeps: Seq<bool>, k: PrimaryKey, i: int)
    requires
        keeps.len() == s.len(),
        0 <= i < s.len(),
        crate::compact::spec_subject_key(s[i].header) == Some(k),
        keeps[i],
        forall|j: int|
            0 <= j < s.len() && j != i && crate::compact::spec_subject_key(
                (#[trigger] s[j]).header,
            ) == Some(k) ==> !keeps[j],
    ensures
        match last_subject(filter_by(s, keeps), k) {
            Some(p) => 0 <= p < filter_by(s, keeps).len() && filter_by(s, keeps)[p] == s[i],
            None => false,
        },
    decreases s.len(),
{
    let f = filter_by(s, keeps);
    let fpre = filter_by(s.drop_last(), keeps.drop_last());
    assert(forall|j: int| 0 <= j < s.len() - 1 ==> (#[trigger] s.drop_last()[j]) == s[j]);
    assert(forall|j: int|
        0 <= j < keeps.len() - 1 ==> (#[trigger] keeps.drop_last()[j]) == keeps[j]);
    if i == s.len() - 1 {
        assert(f =~= fpre + seq![s[i]]);
        assert(f.last() == s[i]);
        assert(last_subject(f, k) == Some(f.len() - 1));
    } else {
        if keeps[s.len() - 1] {
            assert(crate::compact::spec_subject_key(s.last().header) != Some(k));
            assert(f =~= fpre + seq![s.last()]);
            assert(f.last() == s.last());
            lemma_filter_single(s.drop_last(), keeps.drop_last(), k, i);
            assert(f.drop_last() =~= fpre);
            assert(last_subject(f, k) == last_subject(fpre, k));
            let p = last_subject(fpre, k)->Some_0;
            assert(f[p] == fpre[p]);
        } else {
            assert(f =~= fpre);
            lemma_filter_single(s.drop_last(), keeps.drop_last(), k, i);
        }
    }
}

/// Compaction preserves every live key: when the newest event speaking about
/// a key stores it — no tombstone rules it — and no event in the log carries
/// a public key, replaying the surviving events leaves the key in the primary
/// index with the same leaf as before the flip.
pub proof fn lemma_flip_preserves_live(evts: Seq<EventDataV>, k: PrimaryKey)
    requires
        forall|j: int|
            0 <= j < evts.len() ==> crate::meta::spec_get_public_key(
                (#[trigger] evts[j]).header.meta,
            ) is None,
        match last_subject(evts, k) {
            Some(i) => spec_get_tombstone(evts[i].header.meta) is None,
            None => false,
        },
    ensures
        ({
            let kept = filter_by(evts, flip_walk(evts).0);
            let pre = apply_batch_primary(
                Map::<(u128, u64), EventLeaf>::empty(),
                Set::<(u128, u64)>::empty(),
                evts,
            ).0;
            let post = apply_batch_primary(
                Map::<(u128, u64), EventLeaf>::empty(),
                Set::<(u128, u64)>::empty(),
                kept,
            ).0;
            &&& pre.dom().contains(pk_key(k))
            &&& post.dom().contains(pk_key(k))
            &&& post[pk_key(k)] == pre[pk_key(k)]
        }),
{
    let i = last_subject(evts, k)->Some_0;
    lemma_last_subject_max(evts, k, i);
    lemma_flip_walk_len(evts);
    lemma_replay_latest(evts, k);
    let keeps = flip_walk(evts).0;
    // The newest store of the key is kept.
    assert(keeps[i]) by {
        lemma_flip_walk_index(evts, i);
        lemma_flip_walk_seen(evts.skip(i + 1));
        lemma_subjects_set_members(evts.skip(i + 1), k);
        assert(!subjects_set(evts.skip(i + 1)).contains(pk_key(k))) by {
            if subjects_set(evts.skip(i + 1)).contains(pk_key(k)) {
                let j = choose|j: int|
                    0 <= j < evts.skip(i + 1).len() && crate::compact::spec_subject_key(
                        (#[trigger] evts.skip(i + 1)[j]).header,
                    ) == Some(k);
                assert(evts.skip(i + 1)[j] == evts[i + 1 + j]);
            }
        }
        assert(crate::compact::rank(
            crate::compact::RemoveDuplicatesCompactor::spec_relevance(
                flip_walk(evts.skip(i + 1)).1,
                evts[i].header,
            ),
        ) >= 2);
    }
    // Every older event about the key is dropped.
    assert forall|j: int|
        0 <= j < evts.len() && j != i && crate::compact::spec_subject_key(
            (#[trigger] evts[j]).header,
        ) == Some(k) implies !keeps[j] by {
        lemma_flip_walk_index(evts, j);
        lemma_flip_walk_seen(evts.skip(j + 1));
        lemma_subjects_set_members(evts.skip(j + 1), k);
        assert(j < i);
        assert(evts.skip(j + 1)[i - j - 1] == evts[i]);
        assert(subjects_set(evts.skip(j + 1)).contains(pk_key(k)));
        assert(crate::compact::rank(
            crate::compact::RemoveDuplicatesCompactor::spec_relevance(
                flip_walk(evts.skip(j + 1)).1,
                evts[j].header,
            ),
        ) < 2);
        assert(crate::compact::rank(
            crate::compact::TombstoneCompactor::spec_relevance(evts[j].header),
        ) < 2);
        assert(crate::compact::rank(
            crate::compact::PublicKeyCompactor::spec_relevance(
                flip_walk(evts.skip(j + 1)).2,
                evts[j].header,
            ),
        ) < 2);
    }
    lemma_filter_single(evts, keeps, k, i);
    let kept = filter_by(evts, keeps);
    lemma_replay_latest(kept, k);
}

} // verus!
