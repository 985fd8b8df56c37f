//! The read side of data I/O: load a typed object by key from a chain,
//! unsealing its payload with the session's read keys, and walk parent-child
//! collections.

use vstd::prelude::*;

use crate::chain::{carried_read, Chain};
use crate::errors::{LoadError, TransformError};
use crate::event::{header_hash, EventDataV};
use crate::hashing::AteHash;
use crate::header::PrimaryKey;
use crate::index::pk_key;
use crate::meta::{spec_get_confidentiality, spec_get_iv, spec_get_parent, spec_get_tombstone,
    MetaAuthorization, MetaParent, ReadOption};
use crate::redo::hash_key;
use crate::session::AteSession;
use crate::tree::{spec_overlay, TreeAuthorityPlugin};

verus! {

/// A live view over the latest event of a primary key.
pub struct Dao {
    pub key: PrimaryKey,
    pub parent: Option<MetaParent>,
    pub auth: Option<MetaAuthorization>,
    pub data: Vec<u8>,
    pub when: u64,
}

/// The spec-level value of a `Dao`.
#[verifier::ext_equal]
pub struct DaoV {
    pub key: PrimaryKey,
    pub parent: Option<MetaParent>,
    pub auth: Option<crate::meta::MetaAuthorizationV>,
    pub data: Seq<u8>,
    pub when: u64,
}

impl View for Dao {
    type V = DaoV;

    open spec fn view(&self) -> DaoV {
        DaoV {
            key: self.key,
            parent: self.parent,
            auth: match self.auth {
                Some(ref a) => Some(a@),
                None => None,
            },
            data: self.data@,
            when: self.when,
        }
    }
}

/// The position of the event with the given identity, when the log holds one.
pub open spec fn event_index_of(evts: Seq<EventDataV>, h: AteHash) -> int {
    choose|i: int| 0 <= i < evts.len() && header_hash((#[trigger] evts[i]).header) == h
}

/// What the payload of an event unseals to for a session, mirroring the
/// ingress transform.
pub open spec fn spec_unseal(
    c: Chain,
    e: EventDataV,
    keys: Seq<crate::meta::EncryptKey>,
    d: Seq<u8>,
) -> Result<Seq<u8>, TransformError> {
    spec_overlay(
        c.indexer.auths_view(),
        c.indexer.parents.contents(),
        carried_read(e),
        spec_get_parent(e.header.meta),
        spec_get_confidentiality(e.header.meta),
        spec_get_iv(e.header.meta),
        keys,
        d,
    )
}

/// What `load` returns for a key, as a function of the chain and session.
pub open spec fn spec_load(c: Chain, session: AteSession, key: PrimaryKey) -> Result<
    DaoV,
    LoadError,
> {
    if !key.is_valid() {
        Err(LoadError::NotFound(key))
    } else if !c.indexer.primary.contents().dom().contains(pk_key(key)) {
        if c.indexer.tombstoned.contents().dom().contains(pk_key(key)) {
            Err(LoadError::AlreadyDeleted(key))
        } else {
            Err(LoadError::NotFound(key))
        }
    } else {
        let leaf = c.indexer.primary.contents()[pk_key(key)];
        let e = c.redo.events()[event_index_of(c.redo.events(), leaf.record)];
        match e.data {
            None => Err(LoadError::MissingData),
            Some(d) => match spec_unseal(c, e, session.read_keys@, d) {
                Ok(out) => Ok(
                    DaoV {
                        key,
                        parent: spec_get_parent(e.header.meta),
                        auth: crate::meta::spec_get_authorization(e.header.meta),
                        data: out,
                        when: crate::chain::ts_of(e),
                    },
                ),
                Err(err) => Err(LoadError::Transformation(err)),
            },
        }
    }
}

/// Load the latest object under a key: the reserved key and an unknown key
/// are not found, a retired key is already deleted, and otherwise the latest
/// event's payload is unsealed for this session.
#[verifier::rlimit(100)]
#[verifier::spinoff_prover]
pub fn load(chain: &Chain, session: &AteSession, key: &PrimaryKey) -> (r: Result<Dao, LoadError>)
    requires
        chain.wf(),
    ensures
        match r {
            Ok(dao) => spec_load(*chain, *session, *key) == Ok::<DaoV, LoadError>(dao@),
            Err(e) => spec_load(*chain, *session, *key) == Err::<DaoV, LoadError>(e),
        },
{
    if key.val == 0 {
        return Err(LoadError::NotFound(*key));
    }
    let leaf = match chain.indexer.lookup_primary(key) {
        Some(l) => l,
        None => {
            if chain.indexer.is_tombstoned(key) {
                return Err(LoadError::AlreadyDeleted(*key));
            } else {
                return Err(LoadError::NotFound(*key));
            }
        },
    };
    let evt = match chain.redo.read(&leaf.record) {
        Some(e) => e,
        None => {
            // The chain invariant reaches every live leaf's event.
            proof {
                let kk = hash_key(leaf.record);
                assert(chain.redo.index.contents().dom().contains(kk));
                let pos = chain.redo.index.contents()[kk];
                assert(header_hash(chain.redo.events()[pos as int].header) == leaf.record);
                assert(false);
            }
            return Err(LoadError::NotFoundByHash(leaf.record));
        },
    };
    proof {
        let idx = event_index_of(chain.redo.events(), leaf.record);
        let j = choose|j: int|
            0 <= j < chain.redo.events().len() && chain.redo.events()[j] == evt@;
        assert(header_hash(chain.redo.events()[j].header) == leaf.record);
        assert(0 <= idx < chain.redo.events().len() && header_hash(
            chain.redo.events()[idx].header,
        ) == leaf.record);
        assert(chain.redo.events()[idx] == evt@);
    }
    let data = match &evt.data {
        Some(d) => d,
        None => {
            return Err(LoadError::MissingData);
        },
    };
    let conf = evt.header.meta.get_confidentiality();
    let iv = evt.header.meta.get_iv();
    let parent = evt.header.meta.get_parent();
    let auth: Option<MetaAuthorization> = match evt.header.meta.get_authorization() {
        Some(a) => {
            let copy = MetaAuthorization { read: a.read, write: crate::redo::clone_write(&a.write) };
            proof {
                assert(copy@ =~= a@);
            }
            Some(copy)
        },
        None => None,
    };
    let read: ReadOption = match &auth {
        Some(a) => a.read,
        None => ReadOption::Inherit,
    };
    let tree = TreeAuthorityPlugin::new();
    let raw = crate::redo::clone_opt_bytes(&evt.data);
    let rawv = match raw {
        Some(v) => v,
        None => {
            proof {
                assert(false);
            }
            Vec::new()
        },
    };
    let out = match tree.data_as_overlay(chain, conf, iv, rawv, session, &read, parent) {
        Ok(o) => o,
        Err(e) => {
            return Err(LoadError::Transformation(e));
        },
    };
    let when = match evt.header.meta.get_timestamp() {
        Some(t) => t.time_since_epoch_ms,
        None => 0,
    };
    Ok(Dao { key: *key, parent, auth, data: out, when })
}

/// The children filed under a parent's collection, in insertion order; a
/// collection nothing was filed under is empty.
pub fn children(chain: &Chain, parent: &PrimaryKey, collection_id: u64) -> (r: Vec<PrimaryKey>)
    requires
        chain.wf(),
    ensures
        r@ == (if chain.indexer.children.contents().dom().contains(
            crate::index::col_key(*parent, collection_id),
        ) {
            chain.indexer.children.contents()[crate::index::col_key(*parent, collection_id)]@
        } else {
            Seq::<PrimaryKey>::empty()
        }),
{
    match chain.indexer.lookup_secondary_raw(parent, collection_id) {
        Some(v) => v,
        None => Vec::new(),
    }
}


/// The round-trip law of a store: when a transaction appends an event that
/// stores payload `d` under key `k` — no tombstone, no sealing — loading `k`
/// from the grown chain gives `d` back, whatever session asks.
pub proof fn lemma_store_then_load(
    c0: Chain,
    c1: Chain,
    ev: EventDataV,
    session: AteSession,
    k: PrimaryKey,
    d: Seq<u8>,
)
    requires
        c1.wf(),
        c1.redo.events() == c0.redo.events().push(ev),
        c1.indexer.primary.contents() == crate::chain::apply_event_primary(
            c0.indexer.primary.contents(),
            c0.indexer.tombstoned.contents().dom(),
            ev,
        ).0,
        ev.header.key == Some(k),
        k.is_valid(),
        spec_get_tombstone(ev.header.meta) is None,
        ev.data == Some(d),
        spec_get_confidentiality(ev.header.meta) is None,
        spec_get_iv(ev.header.meta) is None,
    ensures
        spec_load(c1, session, k) == Ok::<DaoV, LoadError>(
            DaoV {
                key: k,
                parent: spec_get_parent(ev.header.meta),
                auth: crate::meta::spec_get_authorization(ev.header.meta),
                data: d,
                when: crate::chain::ts_of(ev),
            },
        ),
{
    let leaf = crate::chain::leaf_of(ev);
    assert(c1.indexer.primary.contents().dom().contains(pk_key(k)));
    assert(c1.indexer.primary.contents()[pk_key(k)] == leaf);
    let events = c1.redo.events();
    let last = events.len() - 1;
    assert(events[last] == ev);
    assert(header_hash(events[last].header) == leaf.record);
    let idx = event_index_of(events, leaf.record);
    assert(0 <= idx < events.len() && header_hash(events[idx].header) == leaf.record) by {
        assert(header_hash(events[last].header) == leaf.record);
    }
    assert(idx == last) by {
        if idx != last {
            assert(crate::redo::hash_key(header_hash(events[idx].header)) == crate::redo::hash_key(
                header_hash(events[last].header),
            ));
        }
    }
    assert(spec_unseal(c1, ev, session.read_keys@, d) == Ok::<Seq<u8>, TransformError>(d));
}


/// A tombstone rules the key: while the newest event speaking about a key is
/// its tombstone — that is, until a compaction drops the key or a newer store
/// revives it — every load of the key reports it already deleted.
pub proof fn lemma_tombstone_load(c: Chain, session: AteSession, k: PrimaryKey)
    requires
        c.wf(),
        c.indices_replay_log(),
        k.is_valid(),
        match crate::chain::last_subject(c.redo.events(), k) {
            Some(i) => crate::meta::spec_get_tombstone(c.redo.events()[i].header.meta) is Some,
            None => false,
        },
    ensures
        spec_load(c, session, k) == Err::<DaoV, LoadError>(LoadError::AlreadyDeleted(k)),
{
    crate::chain::lemma_replay_latest(c.redo.events(), k);
}

/// An untouched key is not found: when no event speaks about a key, loading
/// it fails with not-found.
pub proof fn lemma_unknown_key_load(c: Chain, session: AteSession, k: PrimaryKey)
    requires
        c.wf(),
        c.indices_replay_log(),
        k.is_valid(),
        crate::chain::last_subject(c.redo.events(), k) is None,
    ensures
        spec_load(c, session, k) == Err::<DaoV, LoadError>(LoadError::NotFound(k)),
{
    crate::chain::lemma_replay_latest(c.redo.events(), k);
}

} // verus!
