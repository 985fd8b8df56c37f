//! The chain timeline: a sorted multimap from timestamp to the event hashes
//! accepted at that instant, for history scans and compaction windows.

use vstd::prelude::*;

use btreemultimap::BTreeMultiMap;

use crate::hashing::AteHash;
use crate::time::ChainTimestamp;

verus! {

#[verifier::external_type_specification]
#[verifier::external_body]
#[verifier::reject_recursive_types(K)]
#[verifier::reject_recursive_types(V)]
pub struct ExBTreeMultiMap<K, V>(BTreeMultiMap<K, V>);

/// What a timeline multimap holds: for each timestamp with entries, the
/// event hashes filed under it, in insertion order.
pub uninterp spec fn multimap_entries(m: BTreeMultiMap<u64, u64>) -> Map<u64, Seq<u64>>;

/// Relies on BTreeMultiMap::new: the fresh map holds nothing.
#[verifier::external_body]
fn multimap_new() -> (r: BTreeMultiMap<u64, u64>)
    ensures
        (multimap_entries(r) == Map::<u64, Seq<u64>>::empty()),
{
    BTreeMultiMap::new()
}

/// Relies on BTreeMultiMap::insert: the value is pushed onto the key's
/// vector, or starts it.
#[verifier::external_body]
fn multimap_insert(m: &mut BTreeMultiMap<u64, u64>, k: u64, v: u64)
    ensures
        multimap_entries(*final(m)) == multimap_entries(*old(m)).insert(
            k,
            if multimap_entries(*old(m)).dom().contains(k) {
                multimap_entries(*old(m))[k].push(v)
            } else {
                seq![v]
            },
        ),
{
    m.insert(k, v);
}

/// Relies on BTreeMultiMap::get_vec: the vector of values under a key, in
/// insertion order.
#[verifier::external_body]
fn multimap_get_vec(m: &BTreeMultiMap<u64, u64>, k: u64) -> (r: Option<Vec<u64>>)
    ensures
        match r {
            Some(v) => multimap_entries(*m).dom().contains(k) && v@ == multimap_entries(*m)[k],
            None => !multimap_entries(*m).dom().contains(k),
        },
{
    m.get_vec(&k).map(|v| v.clone())
}

/// Relies on BTreeMultiMap::keys (a sorted BTreeMap iterator): its first
/// element is the smallest key, present exactly when the map is not empty.
#[verifier::external_body]
fn multimap_min_key(m: &BTreeMultiMap<u64, u64>) -> (r: Option<u64>)
    ensures
        match r {
            Some(k) => multimap_entries(*m).dom().contains(k) && forall|k2: u64|
                multimap_entries(*m).dom().contains(k2) ==> k <= k2,
            None => multimap_entries(*m).dom() =~= Set::<u64>::empty(),
        },
{
    m.keys().next().copied()
}

/// Relies on BTreeMultiMap::keys (a sorted BTreeMap iterator): its last
/// element is the largest key, present exactly when the map is not empty.
#[verifier::external_body]
fn multimap_max_key(m: &BTreeMultiMap<u64, u64>) -> (r: Option<u64>)
    ensures
        match r {
            Some(k) => multimap_entries(*m).dom().contains(k) && forall|k2: u64|
                multimap_entries(*m).dom().contains(k2) ==> k2 <= k,
            None => multimap_entries(*m).dom() =~= Set::<u64>::empty(),
        },
{
    m.keys().next_back().copied()
}

/// The chronological index of a chain: every accepted event's hash, filed
/// under its timestamp.
pub struct ChainTimeline {
    pub history: BTreeMultiMap<u64, u64>,
}

impl ChainTimeline {
    /// The timeline's entries.
    pub open spec fn entries(self) -> Map<u64, Seq<u64>> {
        multimap_entries(self.history)
    }

    /// An empty timeline.
    pub fn new() -> (r: ChainTimeline)
        ensures
            r.entries() == Map::<u64, Seq<u64>>::empty(),
    {
        ChainTimeline { history: multimap_new() }
    }

    /// File an accepted event under its timestamp.
    pub fn add_history(&mut self, when: ChainTimestamp, hash: AteHash)
        ensures
            final(self).entries() == old(self).entries().insert(
                when.time_since_epoch_ms,
                if old(self).entries().dom().contains(when.time_since_epoch_ms) {
                    old(self).entries()[when.time_since_epoch_ms].push(hash.val)
                } else {
                    seq![hash.val]
                },
            ),
    {
        multimap_insert(&mut self.history, when.time_since_epoch_ms, hash.val);
    }

    /// The hashes filed under a timestamp, oldest first.
    pub fn lookup(&self, when: ChainTimestamp) -> (r: Option<Vec<u64>>)
        ensures
            match r {
                Some(v) => self.entries().dom().contains(when.time_since_epoch_ms) && v@
                    == self.entries()[when.time_since_epoch_ms],
                None => !self.entries().dom().contains(when.time_since_epoch_ms),
            },
    {
        multimap_get_vec(&self.history, when.time_since_epoch_ms)
    }

    /// The earliest instant with entries; an empty timeline starts at zero.
    pub fn start(&self) -> (r: ChainTimestamp)
        ensures
            self.entries().dom() =~= Set::<u64>::empty() ==> r.time_since_epoch_ms == 0,
            self.entries().dom().contains(r.time_since_epoch_ms) || r.time_since_epoch_ms == 0,
            forall|k2: u64|
                self.entries().dom().contains(k2) ==> r.time_since_epoch_ms <= k2,
    {
        match multimap_min_key(&self.history) {
            Some(k) => ChainTimestamp { time_since_epoch_ms: k },
            None => ChainTimestamp { time_since_epoch_ms: 0 },
        }
    }

    /// The latest instant with entries; an empty timeline ends at zero.
    pub fn end(&self) -> (r: ChainTimestamp)
        ensures
            self.entries().dom() =~= Set::<u64>::empty() ==> r.time_since_epoch_ms == 0,
            self.entries().dom().contains(r.time_since_epoch_ms) || r.time_since_epoch_ms == 0,
            forall|k2: u64|
                self.entries().dom().contains(k2) ==> k2 <= r.time_since_epoch_ms,
    {
        match multimap_max_key(&self.history) {
            Some(k) => ChainTimestamp { time_since_epoch_ms: k },
            None => ChainTimestamp { time_since_epoch_ms: 0 },
        }
    }
}

} // verus!
