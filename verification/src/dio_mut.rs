//! The mutable side of data I/O: a transaction accumulates dirty rows,
//! deletions and locks, then commits them as one atomic batch of events.

use vstd::prelude::*;

use crate::chain::{Chain, TrustMode};
use crate::errors::CommitError;
use crate::event::{data_hash_ok, header_encodable, EventData, EventDataV, EventHeader};
use crate::hashing::AteHash;
use crate::header::PrimaryKey;
use crate::kmap::KeyMap;
use crate::meta::{CoreMetadata, CoreMetadataV, Metadata, MetaAuthorization, MetaParent,
    MetaSignature, ReadOption, WriteOption};
use crate::session::AteSession;
use crate::time::ChainTimestamp;
use crate::tree::TreeAuthorityPlugin;

verus! {

/// How far a commit waits: not at all, for local durability, or for every
/// transmit peer's acknowledgment.
#[derive(Clone, Copy, Debug, PartialEq, Eq, Structural)]
pub enum TransactionScope {
    /// Fire and forget: no wait at all.
    NoneScope,
    /// Await local redo-log durability.
    Local,
    /// Await acknowledgment from every transmit peer.
    Full,
}

/// A pending row: the object value a commit will turn into an event.
pub struct Row {
    pub key: PrimaryKey,
    pub parent: Option<MetaParent>,
    pub auth: MetaAuthorization,
    pub data: Vec<u8>,
}

/// Whether a mutable object holds a pessimistic lock, and what should happen
/// to it on commit.
#[derive(Clone, Copy, Debug, PartialEq, Eq, Structural)]
pub enum DaoMutLock {
    /// The object has no lock on it.
    Unlocked,
    /// The object was locked, forcing serial access.
    Locked,
    /// The object holds a lock and is deleted when it goes out of scope.
    LockedThenDelete,
}

/// The mutable-object state a transaction tracks.
#[derive(Clone, Copy, Debug, PartialEq, Eq, Structural)]
pub struct DaoMutState {
    pub lock: DaoMutLock,
}

/// A data object checked out for mutation within one transaction.
pub struct DaoMut {
    pub row: Row,
    pub state: DaoMutState,
}

impl DaoMut {
    /// The object's primary key.
    pub fn key(&self) -> (r: PrimaryKey)
        ensures
            r == self.row.key,
    {
        self.row.key
    }

    /// The object's pending payload.
    pub fn as_bytes(&self) -> (r: &Vec<u8>)
        ensures
            r@ == self.row.data@,
    {
        &self.row.data
    }

    /// Replace the pending payload.
    pub fn set_data(&mut self, data: Vec<u8>)
        ensures
            final(self).row.data@ == data@,
            final(self).row.key == old(self).row.key,
            final(self).row.parent == old(self).row.parent,
            final(self).state == old(self).state,
    {
        self.row.data = data;
    }

    /// The collection this object hangs under, if it has a parent.
    pub fn parent(&self) -> (r: Option<crate::meta::MetaCollection>)
        ensures
            r == (match self.row.parent {
                Some(p) => Some(p.vec),
                None => None::<crate::meta::MetaCollection>,
            }),
    {
        match self.row.parent {
            Some(p) => Some(p.vec),
            None => None,
        }
    }

    /// The parent object's key, if the object has one.
    pub fn parent_id(&self) -> (r: Option<PrimaryKey>)
        ensures
            r == (match self.row.parent {
                Some(p) => Some(p.vec.parent_id),
                None => None::<PrimaryKey>,
            }),
    {
        match self.row.parent {
            Some(p) => Some(p.vec.parent_id),
            None => None,
        }
    }

    /// Hang the object under a parent's collection; the change reaches the
    /// chain when the object is staged and committed.
    pub fn attach_ext(&mut self, parent: PrimaryKey, collection_id: u64)
        ensures
            final(self).row.parent == Some(
                MetaParent {
                    vec: crate::meta::MetaCollection { parent_id: parent, collection_id },
                },
            ),
            final(self).row.key == old(self).row.key,
            final(self).row.data@ == old(self).row.data@,
            final(self).row.auth@ == old(self).row.auth@,
            final(self).state == old(self).state,
    {
        self.row.parent = Some(MetaParent {
            vec: crate::meta::MetaCollection { parent_id: parent, collection_id },
        });
    }

    /// Cut the object loose from its parent; staged and committed like any
    /// other edit.
    pub fn detach(&mut self)
        ensures
            final(self).row.parent is None,
            final(self).row.key == old(self).row.key,
            final(self).row.data@ == old(self).row.data@,
            final(self).row.auth@ == old(self).row.auth@,
            final(self).state == old(self).state,
    {
        self.row.parent = None;
    }

    /// Take the pending payload out of the object.
    pub fn take(self) -> (r: Vec<u8>)
        ensures
            r@ == self.row.data@,
    {
        self.row.data
    }

    /// Check the object's authorization out for editing.
    pub fn auth_mut(&self) -> (r: DaoAuthGuard)
        ensures
            r.auth@ == self.row.auth@,
            !r.dirty,
    {
        DaoAuthGuard::new(self)
    }

    /// Whether the object holds a pessimistic lock.
    pub fn is_locked(&self) -> (r: bool)
        ensures
            r == !(self.state.lock is Unlocked),
    {
        match self.state.lock {
            DaoMutLock::Unlocked => false,
            _ => true,
        }
    }
}

/// A guard over an object's authorization: edits stay local until committed
/// back into the object.
pub struct DaoAuthGuard {
    pub auth: MetaAuthorization,
    pub dirty: bool,
}

impl DaoAuthGuard {
    /// Check an object's authorization out for editing.
    pub fn new(dao: &DaoMut) -> (r: DaoAuthGuard)
        ensures
            r.auth@ == dao.row.auth@,
            !r.dirty,
    {
        DaoAuthGuard {
            auth: MetaAuthorization {
                read: dao.row.auth.read,
                write: crate::redo::clone_write(&dao.row.auth.write),
            },
            dirty: false,
        }
    }

    /// Replace the read policy.
    pub fn set_read(&mut self, read: ReadOption)
        ensures
            final(self).auth.read == read,
            final(self).auth.write == old(self).auth.write,
            final(self).dirty,
    {
        self.auth.read = read;
        self.dirty = true;
    }

    /// Replace the write policy.
    pub fn set_write(&mut self, write: WriteOption)
        ensures
            final(self).auth.write@ == write@,
            final(self).auth.read == old(self).auth.read,
            final(self).dirty,
    {
        self.auth.write = write;
        self.dirty = true;
    }

    /// Write an edited authorization back into the object; an untouched
    /// guard leaves it alone.
    pub fn commit(&mut self, dao: &mut DaoMut) -> (r: Result<(), CommitError>)
        ensures
            r is Ok,
            old(self).dirty ==> final(dao).row.auth@ == old(self).auth@,
            !old(self).dirty ==> final(dao).row.auth@ == old(dao).row.auth@,
            final(dao).row.key == old(dao).row.key,
            final(dao).row.parent == old(dao).row.parent,
            final(dao).row.data@ == old(dao).row.data@,
            final(self).dirty == false,
    {
        if self.dirty {
            self.dirty = false;
            dao.row.auth = MetaAuthorization {
                read: self.auth.read,
                write: crate::redo::clone_write(&self.auth.write),
            };
        }
        Ok(())
    }
}

/// Whether a staged row carries exactly these values.
pub open spec fn row_matches_staged(
    r: Row,
    key: PrimaryKey,
    parent: Option<MetaParent>,
    authv: crate::meta::MetaAuthorizationV,
    data: Seq<u8>,
) -> bool {
    &&& r.key == key
    &&& r.parent == parent
    &&& r.auth@ == authv
    &&& r.data@ == data
}

/// The index keys a transaction will release on the pipe at commit, in
/// staging order.
pub open spec fn pipe_keys(pre: DioMut) -> Seq<(u128, u64)> {
    Seq::new(pre.pipe_unlock.entries@.len(), |i: int| pre.pipe_unlock.entries@[i].0)
}

/// The lock table after a set of keys is released.
pub open spec fn remove_keys(m: Map<(u128, u64), ()>, ks: Seq<(u128, u64)>) -> Map<(u128, u64), ()>
    decreases ks.len(),
{
    if ks.len() == 0 {
        m
    } else {
        remove_keys(m, ks.drop_last()).remove(ks.last())
    }
}

/// A transaction: dirty rows, a delete set, the keys to unlock on the mesh
/// pipe at commit, and the timestamp the next event gets.
pub struct DioMut {
    pub rows: KeyMap<Row>,
    pub deleted: KeyMap<Option<MetaParent>>,
    pub pipe_unlock: KeyMap<()>,
    pub scope: TransactionScope,
    pub time: ChainTimestamp,
}

impl DioMut {
    /// The transaction's structures are well formed, and pipe-unlock keys are
    /// filed as primary keys.
    pub open spec fn wf(self) -> bool {
        &&& self.rows.wf()
        &&& self.deleted.wf()
        &&& self.pipe_unlock.wf()
        &&& forall|k: (u128, u64)| #[trigger]
            self.pipe_unlock.contents().dom().contains(k) ==> k.1 == 0
    }

    /// Whether nothing is staged.
    pub open spec fn is_empty(self) -> bool {
        self.rows.contents().dom() == Set::<(u128, u64)>::empty()
            && self.deleted.contents().dom() == Set::<(u128, u64)>::empty()
    }

    /// An empty transaction with the given commit scope.
    pub fn new(scope: TransactionScope, time: ChainTimestamp) -> (r: DioMut)
        ensures
            r.wf(),
            r.is_empty(),
            r.scope == scope,
            r.time == time,
            r.pipe_unlock.contents() == Map::<(u128, u64), ()>::empty(),
    {
        let r = DioMut {
            rows: KeyMap::new(),
            deleted: KeyMap::new(),
            pipe_unlock: KeyMap::new(),
            scope,
            time,
        };
        proof {
            assert(r.rows.contents().dom() =~= Set::<(u128, u64)>::empty());
            assert(r.deleted.contents().dom() =~= Set::<(u128, u64)>::empty());
        }
        r
    }

    /// Stage a new object under a fresh key.
    pub fn store(&mut self, parent: Option<MetaParent>, auth: MetaAuthorization, data: Vec<u8>)
        -> (r: DaoMut)
        requires
            old(self).wf(),
        ensures
            final(self).wf(),
            r.row.key.is_valid(),
            r.row.parent == parent,
            r.row.auth@ == auth@,
            r.row.data@ == data@,
            r.state.lock is Unlocked,
            final(self).rows.contents().dom() == old(self).rows.contents().dom().insert(
                crate::index::pk_key(r.row.key),
            ),
            row_matches_staged(
                final(self).rows.contents()[crate::index::pk_key(r.row.key)],
                r.row.key,
                parent,
                auth@,
                data@,
            ),
            forall|k2: (u128, u64)|
                k2 != crate::index::pk_key(r.row.key) && old(self).rows.contents().dom().contains(
                    k2,
                ) ==> final(self).rows.contents()[k2] == #[trigger] old(self).rows.contents()[k2],
            final(self).deleted == old(self).deleted,
            final(self).pipe_unlock == old(self).pipe_unlock,
            final(self).scope == old(self).scope,
            final(self).time == old(self).time,
    {
        let key = PrimaryKey::generate();
        self.store_with_key(key, parent, auth, data)
    }

    /// Stage a new object under a caller-chosen key.
    pub fn store_with_key(
        &mut self,
        key: PrimaryKey,
        parent: Option<MetaParent>,
        auth: MetaAuthorization,
        data: Vec<u8>,
    ) -> (r: DaoMut)
        requires
            old(self).wf(),
        ensures
            final(self).wf(),
            r.row.key == key,
            r.row.parent == parent,
            r.row.auth@ == auth@,
            r.row.data@ == data@,
            r.state.lock is Unlocked,
            final(self).rows.contents().dom() == old(self).rows.contents().dom().insert(
                crate::index::pk_key(key),
            ),
            row_matches_staged(
                final(self).rows.contents()[crate::index::pk_key(key)],
                key,
                parent,
                auth@,
                data@,
            ),
            forall|k2: (u128, u64)|
                k2 != crate::index::pk_key(key) && old(self).rows.contents().dom().contains(k2)
                    ==> final(self).rows.contents()[k2] == #[trigger] old(self).rows.contents()[k2],
            final(self).deleted == old(self).deleted,
            final(self).pipe_unlock == old(self).pipe_unlock,
            final(self).scope == old(self).scope,
            final(self).time == old(self).time,
    {
        let row = Row {
            key,
            parent,
            auth: MetaAuthorization {
                read: auth.read,
                write: crate::redo::clone_write(&auth.write),
            },
            data,
        };
        let staged = Row {
            key,
            parent,
            auth: MetaAuthorization {
                read: row.auth.read,
                write: crate::redo::clone_write(&row.auth.write),
            },
            data: {
                let mut d: Vec<u8> = Vec::new();
                let n = row.data.len();
                let mut i: usize = 0;
                while i < n
                    invariant
                        n == row.data@.len(),
                        i <= n,
                        d@ == row.data@.take(i as int),
                    decreases n - i,
                {
                    d.push(row.data[i]);
                    proof {
                        assert(row.data@.take(i as int + 1) =~= row.data@.take(i as int).push(
                            row.data@[i as int],
                        ));
                    }
                    i = i + 1;
                }
                proof {
                    assert(row.data@.take(n as int) =~= row.data@);
                }
                d
            },
        };
        self.rows.insert((key.val, 0), staged);
        proof {
            assert(self.rows.contents().dom() =~= old(self).rows.contents().dom().insert(
                crate::index::pk_key(key),
            ));
        }
        DaoMut { row, state: DaoMutState { lock: DaoMutLock::Unlocked } }
    }

    /// Stage an edited object back into the transaction. A locked object's
    /// key is queued for release on the mesh pipe at commit; an object locked
    /// for deletion is staged as a deletion instead of a row.
    pub fn commit_row(&mut self, dao: &DaoMut)
        requires
            old(self).wf(),
        ensures
            final(self).wf(),
            final(self).scope == old(self).scope,
            final(self).time == old(self).time,
            !(dao.state.lock is LockedThenDelete) ==> {
                &&& final(self).rows.contents().dom() == old(self).rows.contents().dom().insert(
                    crate::index::pk_key(dao.row.key),
                )
                &&& row_matches_staged(
                    final(self).rows.contents()[crate::index::pk_key(dao.row.key)],
                    dao.row.key,
                    dao.row.parent,
                    dao.row.auth@,
                    dao.row.data@,
                )
                &&& (forall|k2: (u128, u64)|
                    k2 != crate::index::pk_key(dao.row.key) && old(
                        self,
                    ).rows.contents().dom().contains(k2) ==> final(self).rows.contents()[k2]
                        == #[trigger] old(self).rows.contents()[k2])
                &&& final(self).deleted == old(self).deleted
            },
            dao.state.lock is LockedThenDelete ==> {
                &&& final(self).rows.contents() == old(self).rows.contents().remove(
                    crate::index::pk_key(dao.row.key),
                )
                &&& final(self).deleted.contents() == old(self).deleted.contents().insert(
                    crate::index::pk_key(dao.row.key),
                    dao.row.parent,
                )
            },
            dao.state.lock is Unlocked ==> final(self).pipe_unlock == old(self).pipe_unlock,
            !(dao.state.lock is Unlocked) ==> final(self).pipe_unlock.contents() == old(
                self,
            ).pipe_unlock.contents().insert(crate::index::pk_key(dao.row.key), ()),
    {
        match dao.state.lock {
            DaoMutLock::Locked => {
                self.pipe_unlock.insert((dao.row.key.val, 0), ());
            },
            DaoMutLock::LockedThenDelete => {
                self.pipe_unlock.insert((dao.row.key.val, 0), ());
                self.deleted.insert((dao.row.key.val, 0), dao.row.parent);
                self.rows.remove((dao.row.key.val, 0));
                return ;
            },
            DaoMutLock::Unlocked => {},
        }
        let staged = Row {
            key: dao.row.key,
            parent: dao.row.parent,
            auth: MetaAuthorization {
                read: dao.row.auth.read,
                write: crate::redo::clone_write(&dao.row.auth.write),
            },
            data: {
                let mut d: Vec<u8> = Vec::new();
                let n = dao.row.data.len();
                let mut i: usize = 0;
                while i < n
                    invariant
                        n == dao.row.data@.len(),
                        i <= n,
                        d@ == dao.row.data@.take(i as int),
                    decreases n - i,
                {
                    d.push(dao.row.data[i]);
                    proof {
                        assert(dao.row.data@.take(i as int + 1) =~= dao.row.data@.take(
                            i as int,
                        ).push(dao.row.data@[i as int]));
                    }
                    i = i + 1;
                }
                proof {
                    assert(dao.row.data@.take(n as int) =~= dao.row.data@);
                }
                d
            },
        };
        self.rows.insert((dao.row.key.val, 0), staged);
        proof {
            assert(self.rows.contents().dom() =~= old(self).rows.contents().dom().insert(
                crate::index::pk_key(dao.row.key),
            ));
        }
    }

    /// The keys a commit will release on the mesh pipe, for the caller to
    /// send the remote unlock messages.
    pub fn pipe_unlocks(&self) -> (r: Vec<PrimaryKey>)
        requires
            self.wf(),
        ensures
            r@.len() == self.pipe_unlock.entries@.len(),
            forall|i: int|
                0 <= i < r@.len() ==> (#[trigger] r@[i]).val == self.pipe_unlock.entries@[i].0.0,
    {
        let n = self.pipe_unlock.entries.len();
        let mut out: Vec<PrimaryKey> = Vec::new();
        let mut i: usize = 0;
        while i < n
            invariant
                n == self.pipe_unlock.entries@.len(),
                i <= n,
                out@.len() == i,
                forall|j: int|
                    0 <= j < i ==> (#[trigger] out@[j]).val == self.pipe_unlock.entries@[j].0.0,
            decreases n - i,
        {
            out.push(PrimaryKey { val: self.pipe_unlock.entries[i].0.0 });
            i = i + 1;
        }
        out
    }

    /// Stage a deletion: commit will emit a tombstone for the key.
    pub fn delete(&mut self, key: PrimaryKey, parent: Option<MetaParent>)
        requires
            old(self).wf(),
        ensures
            final(self).wf(),
            final(self).deleted.contents() == old(self).deleted.contents().insert(
                crate::index::pk_key(key),
                parent,
            ),
            final(self).rows.contents() == old(self).rows.contents().remove(
                crate::index::pk_key(key),
            ),
            final(self).scope == old(self).scope,
    {
        self.deleted.insert((key.val, 0), parent);
        self.rows.remove((key.val, 0));
    }

    /// Take the local lock on an object through the chain's lock table:
    /// fails exactly when another holder has it.
    pub fn try_lock(&mut self, chain: &mut Chain, dao: &mut DaoMut) -> (r: Result<
        bool,
        CommitError,
    >)
        requires
            old(self).wf(),
            old(chain).wf(),
        ensures
            final(self).wf(),
            final(chain).wf(),
            match r {
                Ok(granted) => {
                    &&& !(old(dao).state.lock is Unlocked) ==> (granted
                        && *final(chain) == *old(chain) && final(dao).state == old(dao).state)
                    &&& (old(dao).state.lock is Unlocked) ==> {
                        &&& granted == !old(chain).locks.contents().dom().contains(
                            crate::index::pk_key(old(dao).row.key),
                        )
                        &&& granted ==> (final(chain).locks.contents()
                            == old(chain).locks.contents().insert(
                            crate::index::pk_key(old(dao).row.key),
                            (),
                        ) && final(dao).state.lock is Locked)
                        &&& !granted ==> (final(chain).locks.contents()
                            == old(chain).locks.contents() && final(dao).state.lock is Unlocked)
                    }
                },
                Err(_) => false,
            },
            final(dao).row.key == old(dao).row.key,
            final(dao).row.data@ == old(dao).row.data@,
    {
        match dao.state.lock {
            DaoMutLock::Locked | DaoMutLock::LockedThenDelete => Ok(true),
            DaoMutLock::Unlocked => {
                if chain.try_lock_local(&dao.row.key) {
                    dao.state.lock = DaoMutLock::Locked;
                    Ok(true)
                } else {
                    Ok(false)
                }
            },
        }
    }

    /// Release an object's local lock; an unlocked object stays put.
    pub fn unlock(&mut self, chain: &mut Chain, dao: &mut DaoMut) -> (r: Result<bool, CommitError>)
        requires
            old(self).wf(),
            old(chain).wf(),
        ensures
            final(self).wf(),
            final(chain).wf(),
            match r {
                Ok(released) => {
                    &&& released == (old(dao).state.lock is Locked)
                    &&& released ==> (final(chain).locks.contents()
                        == old(chain).locks.contents().remove(
                        crate::index::pk_key(old(dao).row.key),
                    ) && final(dao).state.lock is Unlocked)
                    &&& !released ==> (*final(chain) == *old(chain)
                        && final(dao).state == old(dao).state)
                },
                Err(_) => false,
            },
            final(dao).row.key == old(dao).row.key,
            final(dao).row.data@ == old(dao).row.data@,
    {
        match dao.state.lock {
            DaoMutLock::Locked => {
                chain.unlock_local(&dao.row.key);
                dao.state.lock = DaoMutLock::Unlocked;
                Ok(true)
            },
            _ => Ok(false),
        }
    }
}


/// A getter skips a prefix free of its variant.
pub proof fn lemma_get_auth_prefix(s1: Seq<CoreMetadataV>, s2: Seq<CoreMetadataV>)
    requires
        forall|i: int| 0 <= i < s1.len() ==> !((#[trigger] s1[i]) is Authorization),
    ensures
        crate::meta::spec_get_authorization(s1 + s2) == crate::meta::spec_get_authorization(s2),
    decreases s1.len(),
{
    if s1.len() == 0 {
        assert(s1 + s2 =~= s2);
    } else {
        assert((s1 + s2)[0] == s1[0]);
        assert((s1 + s2).drop_first() =~= s1.drop_first() + s2);
        assert(forall|i: int|
            0 <= i < s1.drop_first().len() ==> (#[trigger] s1.drop_first()[i]) == s1[i + 1]);
        lemma_get_auth_prefix(s1.drop_first(), s2);
    }
}

/// A list free of the variant yields nothing for its getter.
pub proof fn lemma_no_auth(s: Seq<CoreMetadataV>)
    requires
        forall|i: int| 0 <= i < s.len() ==> !((#[trigger] s[i]) is Authorization),
    ensures
        crate::meta::spec_get_authorization(s) is None,
    decreases s.len(),
{
    if s.len() > 0 {
        assert(forall|i: int|
            0 <= i < s.drop_first().len() ==> (#[trigger] s.drop_first()[i]) == s[i + 1]);
        lemma_no_auth(s.drop_first());
    }
}

/// A getter skips a prefix free of its variant.
pub proof fn lemma_get_parent_prefix(s1: Seq<CoreMetadataV>, s2: Seq<CoreMetadataV>)
    requires
        forall|i: int| 0 <= i < s1.len() ==> !((#[trigger] s1[i]) is Parent),
    ensures
        crate::meta::spec_get_parent(s1 + s2) == crate::meta::spec_get_parent(s2),
    decreases s1.len(),
{
    if s1.len() == 0 {
        assert(s1 + s2 =~= s2);
    } else {
        assert((s1 + s2)[0] == s1[0]);
        assert((s1 + s2).drop_first() =~= s1.drop_first() + s2);
        assert(forall|i: int|
            0 <= i < s1.drop_first().len() ==> (#[trigger] s1.drop_first()[i]) == s1[i + 1]);
        lemma_get_parent_prefix(s1.drop_first(), s2);
    }
}

/// A list free of the variant yields nothing for its getter.
pub proof fn lemma_no_parent(s: Seq<CoreMetadataV>)
    requires
        forall|i: int| 0 <= i < s.len() ==> !((#[trigger] s[i]) is Parent),
    ensures
        crate::meta::spec_get_parent(s) is None,
    decreases s.len(),
{
    if s.len() > 0 {
        assert(forall|i: int|
            0 <= i < s.drop_first().len() ==> (#[trigger] s.drop_first()[i]) == s[i + 1]);
        lemma_no_parent(s.drop_first());
    }
}

/// A getter skips a prefix free of its variant.
pub proof fn lemma_get_iv_prefix(s1: Seq<CoreMetadataV>, s2: Seq<CoreMetadataV>)
    requires
        forall|i: int| 0 <= i < s1.len() ==> !((#[trigger] s1[i]) is InitializationVector),
    ensures
        crate::meta::spec_get_iv(s1 + s2) == crate::meta::spec_get_iv(s2),
    decreases s1.len(),
{
    if s1.len() == 0 {
        assert(s1 + s2 =~= s2);
    } else {
        assert((s1 + s2)[0] == s1[0]);
        assert((s1 + s2).drop_first() =~= s1.drop_first() + s2);
        assert(forall|i: int|
            0 <= i < s1.drop_first().len() ==> (#[trigger] s1.drop_first()[i]) == s1[i + 1]);
        lemma_get_iv_prefix(s1.drop_first(), s2);
    }
}

/// A list free of the variant yields nothing for its getter.
pub proof fn lemma_no_iv(s: Seq<CoreMetadataV>)
    requires
        forall|i: int| 0 <= i < s.len() ==> !((#[trigger] s[i]) is InitializationVector),
    ensures
        crate::meta::spec_get_iv(s) is None,
    decreases s.len(),
{
    if s.len() > 0 {
        assert(forall|i: int|
            0 <= i < s.drop_first().len() ==> (#[trigger] s.drop_first()[i]) == s[i + 1]);
        lemma_no_iv(s.drop_first());
    }
}

/// A getter skips a prefix free of its variant.
pub proof fn lemma_get_conf_prefix(s1: Seq<CoreMetadataV>, s2: Seq<CoreMetadataV>)
    requires
        forall|i: int| 0 <= i < s1.len() ==> !((#[trigger] s1[i]) is Confidentiality),
    ensures
        crate::meta::spec_get_confidentiality(s1 + s2) == crate::meta::spec_get_confidentiality(s2),
    decreases s1.len(),
{
    if s1.len() == 0 {
        assert(s1 + s2 =~= s2);
    } else {
        assert((s1 + s2)[0] == s1[0]);
        assert((s1 + s2).drop_first() =~= s1.drop_first() + s2);
        assert(forall|i: int|
            0 <= i < s1.drop_first().len() ==> (#[trigger] s1.drop_first()[i]) == s1[i + 1]);
        lemma_get_conf_prefix(s1.drop_first(), s2);
    }
}

/// A list free of the variant yields nothing for its getter.
pub proof fn lemma_no_conf(s: Seq<CoreMetadataV>)
    requires
        forall|i: int| 0 <= i < s.len() ==> !((#[trigger] s[i]) is Confidentiality),
    ensures
        crate::meta::spec_get_confidentiality(s) is None,
    decreases s.len(),
{
    if s.len() > 0 {
        assert(forall|i: int|
            0 <= i < s.drop_first().len() ==> (#[trigger] s.drop_first()[i]) == s[i + 1]);
        lemma_no_conf(s.drop_first());
    }
}

/// A getter skips a prefix free of its variant.
pub proof fn lemma_get_timestamp_prefix(s1: Seq<CoreMetadataV>, s2: Seq<CoreMetadataV>)
    requires
        forall|i: int| 0 <= i < s1.len() ==> !((#[trigger] s1[i]) is Timestamp),
    ensures
        crate::meta::spec_get_timestamp(s1 + s2) == crate::meta::spec_get_timestamp(s2),
    decreases s1.len(),
{
    if s1.len() == 0 {
        assert(s1 + s2 =~= s2);
    } else {
        assert((s1 + s2)[0] == s1[0]);
        assert((s1 + s2).drop_first() =~= s1.drop_first() + s2);
        assert(forall|i: int|
            0 <= i < s1.drop_first().len() ==> (#[trigger] s1.drop_first()[i]) == s1[i + 1]);
        lemma_get_timestamp_prefix(s1.drop_first(), s2);
    }
}

/// A list free of the variant yields nothing for its getter.
pub proof fn lemma_no_timestamp(s: Seq<CoreMetadataV>)
    requires
        forall|i: int| 0 <= i < s.len() ==> !((#[trigger] s[i]) is Timestamp),
    ensures
        crate::meta::spec_get_timestamp(s) is None,
    decreases s.len(),
{
    if s.len() > 0 {
        assert(forall|i: int|
            0 <= i < s.drop_first().len() ==> (#[trigger] s.drop_first()[i]) == s[i + 1]);
        lemma_no_timestamp(s.drop_first());
    }
}

/// A getter skips a prefix free of its variant.
pub proof fn lemma_get_data_hash_prefix(s1: Seq<CoreMetadataV>, s2: Seq<CoreMetadataV>)
    requires
        forall|i: int| 0 <= i < s1.len() ==> !((#[trigger] s1[i]) is DataHash),
    ensures
        crate::meta::spec_get_data_hash(s1 + s2) == crate::meta::spec_get_data_hash(s2),
    decreases s1.len(),
{
    if s1.len() == 0 {
        assert(s1 + s2 =~= s2);
    } else {
        assert((s1 + s2)[0] == s1[0]);
        assert((s1 + s2).drop_first() =~= s1.drop_first() + s2);
        assert(forall|i: int|
            0 <= i < s1.drop_first().len() ==> (#[trigger] s1.drop_first()[i]) == s1[i + 1]);
        lemma_get_data_hash_prefix(s1.drop_first(), s2);
    }
}

/// A list free of tombstone entries yields no tombstone.
pub proof fn lemma_no_tombstone(s: Seq<CoreMetadataV>)
    requires
        forall|i: int| 0 <= i < s.len() ==> !((#[trigger] s[i]) is Tombstone),
    ensures
        crate::meta::spec_get_tombstone(s) is None,
    decreases s.len(),
{
    if s.len() > 0 {
        assert(forall|i: int|
            0 <= i < s.drop_first().len() ==> (#[trigger] s.drop_first()[i]) == s[i + 1]);
        lemma_no_tombstone(s.drop_first());
    }
}

/// A tombstone entry at the head names the retired key.
pub proof fn lemma_tombstone_head(s: Seq<CoreMetadataV>, k: PrimaryKey)
    requires
        s.len() > 0,
        s[0] == CoreMetadataV::Tombstone(k),
    ensures
        crate::meta::spec_get_tombstone(s) == Some(k),
{
}

/// Whether an event is the one a commit emits for a staged row: it addresses
/// the row's key, carries its parent link, authorization and timestamp, no
/// tombstone, and its payload is the row's bytes — sealed under the policy's
/// key and a fresh vector when the resolved read policy yields one, plain
/// otherwise — with a matching payload hash.
pub open spec fn row_event_matches(
    e: EventDataV,
    key: PrimaryKey,
    parent: Option<MetaParent>,
    authv: crate::meta::MetaAuthorizationV,
    data: Seq<u8>,
    t: ChainTimestamp,
    keys: Seq<crate::meta::EncryptKey>,
    amap: Map<(u128, u64), crate::meta::MetaAuthorizationV>,
    pmap: Map<(u128, u64), MetaParent>,
) -> bool {
    &&& e.header.key == Some(key)
    &&& crate::meta::spec_get_tombstone(e.header.meta) is None
    &&& crate::meta::spec_get_parent(e.header.meta) == parent
    &&& crate::meta::spec_get_authorization(e.header.meta) == Some(authv)
    &&& crate::meta::spec_get_timestamp(e.header.meta) == Some(t)
    &&& data_hash_ok(e)
    &&& header_encodable(e.header)
    &&& match crate::tree::spec_egress_key(
        crate::tree::eff_read_spec(amap, pmap, authv.read, parent, crate::chain::EFF_FUEL as nat),
        keys,
    ) {
        Ok(None) => e.data == Some(data) && crate::meta::spec_get_confidentiality(e.header.meta)
            is None && crate::meta::spec_get_iv(e.header.meta) is None,
        Ok(Some(k)) => exists|iv: crate::meta::InitializationVector|
            e.data == Some(crate::crypto::sealed(k.val, iv.val, data))
                && crate::meta::spec_get_iv(e.header.meta) == Some(iv)
                && crate::meta::spec_get_confidentiality(e.header.meta) == Some(
                crate::meta::MetaConfidentiality { hash: k.spec_short_hash() },
            ),
        Err(_) => false,
    }
}

/// Whether an event is the tombstone a commit emits for a staged deletion.
pub open spec fn tombstone_event_matches(
    e: EventDataV,
    key: PrimaryKey,
    parent: Option<MetaParent>,
    t: ChainTimestamp,
) -> bool {
    &&& e.header.key == Some(key)
    &&& crate::meta::spec_get_tombstone(e.header.meta) == Some(key)
    &&& crate::meta::spec_get_parent(e.header.meta) == parent
    &&& crate::meta::spec_get_timestamp(e.header.meta) == Some(t)
    &&& e.data is None
    &&& data_hash_ok(e)
    &&& header_encodable(e.header)
}

/// What a successful commit leaves behind: the chain grew by exactly one
/// data event per staged row — in staging order, timestamped consecutively
/// from the transaction's clock, each carrying its row's key, parent,
/// authorization and sealed-or-plain payload — followed by one tombstone per
/// staged deletion; the transaction was accepted by the ingress pipeline, the
/// indices advanced by its replay, and the returned keys are the events'
/// subject keys.
pub open spec fn commit_emits(
    pre: DioMut,
    c0: Chain,
    c1: Chain,
    session: AteSession,
    decache: Seq<PrimaryKey>,
    evts: Seq<EventDataV>,
) -> bool {
    let nrows = pre.rows.entries@.len() as int;
    let ndel = pre.deleted.entries@.len() as int;
    &&& evts.len() == nrows + ndel
    &&& c1.redo.events() == c0.redo.events() + evts
    &&& forall|i: int|
        0 <= i < nrows ==> row_event_matches(
            #[trigger] evts[i],
            pre.rows.entries@[i].1.key,
            pre.rows.entries@[i].1.parent,
            pre.rows.entries@[i].1.auth@,
            pre.rows.entries@[i].1.data@,
            ChainTimestamp { time_since_epoch_ms: (pre.time.time_since_epoch_ms + i) as u64 },
            session.read_keys@,
            c0.indexer.auths_view(),
            c0.indexer.parents.contents(),
        )
    &&& forall|i: int|
        nrows <= i < nrows + ndel ==> tombstone_event_matches(
            #[trigger] evts[i],
            PrimaryKey { val: pre.deleted.entries@[i - nrows].0.0 },
            pre.deleted.entries@[i - nrows].1,
            ChainTimestamp { time_since_epoch_ms: (pre.time.time_since_epoch_ms + i) as u64 },
        )
    &&& c1.indexer.primary.contents() == crate::chain::apply_batch_primary(
        c0.indexer.primary.contents(),
        c0.indexer.tombstoned.contents().dom(),
        evts,
    ).0
    &&& c1.indexer.tombstoned.contents().dom() == crate::chain::apply_batch_primary(
        c0.indexer.primary.contents(),
        c0.indexer.tombstoned.contents().dom(),
        evts,
    ).1
    &&& c1.anti_replay.seen_set() == crate::chain::seen_after(c0.anti_replay.seen_set(), evts)
    &&& c1.pubkeys.contents() == crate::chain::keys_after(c0.pubkeys.contents(), evts)
    &&& decache == crate::chain::decache_of(evts)
    &&& crate::chain::batch_valid(
        c0.anti_replay.seen_set(),
        crate::chain::keys_after(c0.pubkeys.contents(), evts),
        c0.indexer.auths_view(),
        c0.indexer.parents.contents(),
        c0.roots@,
        c0.integrity,
        evts,
    )
}

impl DioMut {
    /// Emit one staged row as an event: timestamp, authorization, parent
    /// link, the sealed or plain payload with its hash, and — under
    /// distributed trust — a signature by each session write key. Fails
    /// exactly when the read policy does not resolve to a usable key decision
    /// or the row is past the wire limits.
    #[verifier::rlimit(100)]
    #[verifier::spinoff_prover]
    fn build_row_event(
        &self,
        chain: &Chain,
        session: &AteSession,
        t: ChainTimestamp,
        row: &Row,
    ) -> (r: Result<EventData, CommitError>)
        requires
            chain.wf(),
        ensures
            match r {
                Ok(ev) => row_event_matches(
                    ev@,
                    row.key,
                    row.parent,
                    row.auth@,
                    row.data@,
                    t,
                    session.read_keys@,
                    chain.indexer.auths_view(),
                    chain.indexer.parents.contents(),
                ),
                Err(e) => e == CommitError::SerializationError,
            },
            (crate::wire::write_encodable(row.auth.write@) && session.write_keys@.len() <= 65536
                && crate::tree::spec_egress_key(
                crate::tree::eff_read_spec(
                    chain.indexer.auths_view(),
                    chain.indexer.parents.contents(),
                    row.auth.read,
                    row.parent,
                    crate::chain::EFF_FUEL as nat,
                ),
                session.read_keys@,
            ) is Ok) ==> r is Ok,
    {
        match &row.auth.write {
            WriteOption::AnyOf(ks) => {
                if ks.len() > 0xffffffff {
                    return Err(CommitError::SerializationError);
                }
            },
            _ => {},
        }
        if session.write_keys.len() > 65536 {
            return Err(CommitError::SerializationError);
        }
        let authcopy = MetaAuthorization {
            read: row.auth.read,
            write: crate::redo::clone_write(&row.auth.write),
        };
        proof {
            assert(authcopy@ =~= row.auth@);
        }
        let mut meta = Metadata::new();
        meta.push(CoreMetadata::Timestamp(t));
        meta.push(CoreMetadata::Authorization(authcopy));
        match row.parent {
            Some(p) => {
                meta.push(CoreMetadata::Parent(p));
            },
            None => {},
        }
        let ghost premeta = meta@;
        let tree = TreeAuthorityPlugin::new();
        let data_copy = {
            let mut d: Vec<u8> = Vec::new();
            let n = row.data.len();
            let mut i: usize = 0;
            while i < n
                invariant
                    n == row.data@.len(),
                    i <= n,
                    d@ == row.data@.take(i as int),
                decreases n - i,
            {
                d.push(row.data[i]);
                proof {
                    assert(row.data@.take(i as int + 1) =~= row.data@.take(i as int).push(
                        row.data@[i as int],
                    ));
                }
                i = i + 1;
            }
            proof {
                assert(row.data@.take(n as int) =~= row.data@);
            }
            d
        };
        let payload = match tree.data_as_underlay(
            chain,
            &mut meta,
            data_copy,
            session,
            &row.auth.read,
            row.parent,
        ) {
            Ok(p) => p,
            Err(_) => {
                return Err(CommitError::SerializationError);
            },
        };
        let ph = AteHash::from_bytes(payload.as_slice());
        let ghost meta_before_dh = meta@;
        meta.push(CoreMetadata::DataHash(ph));
        let ghost meta_with_dh = meta@;
        let mut header = EventHeader { key: Some(row.key), meta };
        proof {
            assert(crate::wire::meta_list_encodable(meta_with_dh));
        }
        match chain.integrity {
            TrustMode::Distributed => {
                let base = crate::event::compute_sig_base(&header);
                let nk = session.write_keys.len();
                let mut i: usize = 0;
                while i < nk
                    invariant
                        nk == session.write_keys@.len(),
                        i <= nk,
                        header.key == Some(row.key),
                        header.meta@.len() == meta_with_dh.len() + i,
                        crate::wire::meta_list_encodable(header.meta@),
                        header.meta@.take(meta_with_dh.len() as int) == meta_with_dh,
                        forall|j: int|
                            meta_with_dh.len() <= j < header.meta@.len() ==> (
                            #[trigger] header.meta@[j]) is Signature,
                        nk <= 65536,
                        meta_with_dh.len() < 100,
                    decreases nk - i,
                {
                    let k = session.write_keys[i];
                    let sig = k.sign(&base);
                    let kh = k.hash();
                    let ghost prevm = header.meta@;
                    header.meta.push(CoreMetadata::Signature(MetaSignature {
                        signature: sig,
                        public_key_hash: kh,
                    }));
                    proof {
                        assert(header.meta@ =~= prevm.push(
                            CoreMetadataV::Signature(MetaSignature { signature: sig, public_key_hash: kh }),
                        ));
                        assert(header.meta@.take(meta_with_dh.len() as int) =~= prevm.take(
                            meta_with_dh.len() as int,
                        ));
                        assert forall|j: int|
                            0 <= j < header.meta@.len() implies crate::wire::meta_encodable(
                            #[trigger] header.meta@[j],
                        ) by {
                            if j < prevm.len() {
                                assert(header.meta@[j] == prevm[j]);
                            }
                        }
                    }
                    i = i + 1;
                }
            },
            TrustMode::Centralized => {},
        }
        let ev = EventData { header, data: Some(payload) };
        proof {
            let m = ev@.header.meta;
            let pl = premeta.len() as int;
            let dhpos = meta_with_dh.len() as int - 1;
            // The parts of the final list.
            assert(m.take(meta_with_dh.len() as int) == meta_with_dh);
            assert forall|i: int| 0 <= i < dhpos implies #[trigger] m[i] == meta_before_dh[i] by {
                assert(meta_with_dh[i] == meta_before_dh[i]);
                assert(m.take(meta_with_dh.len() as int)[i] == m[i]);
            }
            assert(m[dhpos] == CoreMetadataV::DataHash(ph)) by {
                assert(m.take(meta_with_dh.len() as int)[dhpos] == m[dhpos]);
                assert(meta_with_dh[dhpos] == CoreMetadataV::DataHash(ph));
            }
            // Payload hash.
            let pre = m.take(dhpos);
            assert(pre =~= meta_before_dh);
            let post = m.skip(dhpos);
            assert(m =~= pre + post);
            assert(post[0] == CoreMetadataV::DataHash(ph));
            assert(forall|i: int|
                0 <= i < meta_before_dh.len() ==> !((#[trigger] meta_before_dh[i]) is DataHash));
            lemma_get_data_hash_prefix(pre, post);
            assert(crate::meta::spec_get_data_hash(m) == Some(ph));
            // No tombstone anywhere.
            assert forall|i: int| 0 <= i < m.len() implies !((#[trigger] m[i]) is Tombstone) by {
                if i < dhpos {
                    assert(m[i] == meta_before_dh[i]);
                }
            }
            lemma_no_tombstone(m);
            // Timestamp at the head.
            assert(m[0] == premeta[0]);
            assert(crate::meta::spec_get_timestamp(m) == Some(t));
            // Authorization right behind it.
            let m1 = m.drop_first();
            assert(m1[0] == m[1] && m[1] == premeta[1]);
            assert(crate::meta::spec_get_authorization(m) == crate::meta::spec_get_authorization(
                m1,
            ));
            assert(crate::meta::spec_get_authorization(m1) == Some(authcopy@));
            // The parent link.
            match row.parent {
                Some(p) => {
                    let m2 = m1.drop_first();
                    assert(m2[0] == m[2] && m[2] == premeta[2]);
                    assert(crate::meta::spec_get_parent(m) == crate::meta::spec_get_parent(m1));
                    assert(crate::meta::spec_get_parent(m1) == crate::meta::spec_get_parent(m2));
                    assert(crate::meta::spec_get_parent(m2) == Some(p));
                },
                None => {
                    assert forall|i: int| 0 <= i < m.len() implies !((#[trigger] m[i]) is Parent)
                        by {
                        if i < dhpos {
                            assert(m[i] == meta_before_dh[i]);
                            if i >= pl {
                                assert(meta_before_dh =~= premeta + (meta_before_dh.skip(pl)));
                            }
                        }
                    }
                    lemma_no_parent(m);
                },
            }
            // The seal decision and its markers.
            let eff = crate::tree::eff_read_spec(
                chain.indexer.auths_view(),
                chain.indexer.parents.contents(),
                row.auth.read,
                row.parent,
                crate::chain::EFF_FUEL as nat,
            );
            match crate::tree::spec_egress_key(eff, session.read_keys@) {
                Ok(None) => {
                    assert(meta_before_dh == premeta);
                    assert(payload@ == row.data@);
                    assert forall|i: int| 0 <= i < m.len() implies !((#[trigger] m[i])
                        is InitializationVector) && !(m[i] is Confidentiality) by {
                        if i < dhpos {
                            assert(m[i] == premeta[i]);
                        }
                    }
                    lemma_no_iv(m);
                    lemma_no_conf(m);
                },
                Ok(Some(kk)) => {
                    let iv = choose|iv: crate::meta::InitializationVector|
                        meta_before_dh == premeta + seq![
                            CoreMetadataV::InitializationVector(iv),
                            CoreMetadataV::Confidentiality(
                                crate::meta::MetaConfidentiality { hash: kk.spec_short_hash() },
                            ),
                        ] && payload@ == crate::crypto::sealed(kk.val, iv.val, row.data@);
                    assert(meta_before_dh == premeta + seq![
                        CoreMetadataV::InitializationVector(iv),
                        CoreMetadataV::Confidentiality(
                            crate::meta::MetaConfidentiality { hash: kk.spec_short_hash() },
                        ),
                    ]);
                    let prefix = m.take(pl);
                    assert(prefix =~= premeta);
                    let tail = m.skip(pl);
                    assert(m =~= prefix + tail);
                    assert(tail[0] == meta_before_dh[pl]);
                    assert(tail[0] == CoreMetadataV::InitializationVector(iv));
                    assert(forall|i: int|
                        0 <= i < premeta.len() ==> !((#[trigger] premeta[i])
                            is InitializationVector) && !(premeta[i] is Confidentiality));
                    lemma_get_iv_prefix(prefix, tail);
                    assert(crate::meta::spec_get_iv(m) == Some(iv));
                    let prefix2 = m.take(pl + 1);
                    assert(prefix2 =~= premeta.push(CoreMetadataV::InitializationVector(iv)));
                    let tail2 = m.skip(pl + 1);
                    assert(m =~= prefix2 + tail2);
                    assert(tail2[0] == meta_before_dh[pl + 1]);
                    assert(forall|i: int|
                        0 <= i < prefix2.len() ==> !((#[trigger] prefix2[i]) is Confidentiality));
                    lemma_get_conf_prefix(prefix2, tail2);
                    assert(crate::meta::spec_get_confidentiality(m) == Some(
                        crate::meta::MetaConfidentiality { hash: kk.spec_short_hash() },
                    ));
                    assert(payload@ == crate::crypto::sealed(kk.val, iv.val, row.data@));
                },
                Err(_) => {
                    assert(false);
                },
            }
        }
        Ok(ev)
    }

    /// Emit one staged deletion as a tombstone event.
    fn build_tombstone_event(&self, t: ChainTimestamp, key: PrimaryKey, parent: Option<MetaParent>)
        -> (r: EventData)
        ensures
            tombstone_event_matches(r@, key, parent, t),
    {
        let mut meta = Metadata::new();
        meta.push(CoreMetadata::Tombstone(key));
        meta.push(CoreMetadata::Timestamp(t));
        match parent {
            Some(p) => {
                meta.push(CoreMetadata::Parent(p));
            },
            None => {},
        }
        let ev = EventData { header: EventHeader { key: Some(key), meta }, data: None };
        proof {
            let m = ev@.header.meta;
            assert(m[0] == CoreMetadataV::Tombstone(key));
            lemma_tombstone_head(m, key);
            assert(crate::meta::spec_get_data_hash(m) is None) by {
                assert(forall|i: int| 0 <= i < m.len() ==> !((#[trigger] m[i]) is DataHash));
                lemma_no_data_hash(m);
            }
            let m1 = m.drop_first();
            assert(m1[0] == m[1]);
            assert(crate::meta::spec_get_timestamp(m) == crate::meta::spec_get_timestamp(m1));
            assert(crate::meta::spec_get_timestamp(m1) == Some(t));
            match parent {
                Some(p) => {
                    let m2 = m1.drop_first();
                    assert(m2[0] == m[2]);
                    assert(crate::meta::spec_get_parent(m) == crate::meta::spec_get_parent(m1));
                    assert(crate::meta::spec_get_parent(m1) == crate::meta::spec_get_parent(m2));
                    assert(crate::meta::spec_get_parent(m2) == Some(p));
                },
                None => {
                    assert(forall|i: int| 0 <= i < m.len() ==> !((#[trigger] m[i]) is Parent));
                    lemma_no_parent(m);
                },
            }
        }
        ev
    }

    /// Stage a deletion of an existing object; a key the chain does not hold
    /// live is not found.
    pub fn delete_checked(&mut self, chain: &Chain, key: PrimaryKey) -> (r: Result<
        (),
        crate::errors::LoadError,
    >)
        requires
            old(self).wf(),
            chain.wf(),
        ensures
            final(self).wf(),
            match r {
                Ok(_) => {
                    &&& chain.indexer.primary.contents().dom().contains(crate::index::pk_key(key))
                    &&& final(self).deleted.contents() == old(self).deleted.contents().insert(
                        crate::index::pk_key(key),
                        chain.indexer.parents.contents().index_opt(crate::index::pk_key(key)),
                    )
                },
                Err(e) => {
                    &&& e == crate::errors::LoadError::NotFound(key)
                    &&& !chain.indexer.primary.contents().dom().contains(
                        crate::index::pk_key(key),
                    )
                    &&& *final(self) == *old(self)
                },
            },
    {
        match chain.indexer.lookup_primary(&key) {
            Some(_) => {
                let parent = chain.indexer.lookup_parent(&key);
                proof {
                    crate::kmap::lemma_entries_dom(
                        chain.indexer.parents.entries@,
                        crate::index::pk_key(key),
                    );
                }
                self.deleted.insert((key.val, 0), parent);
                self.rows.remove((key.val, 0));
                Ok(())
            },
            None => Err(crate::errors::LoadError::NotFound(key)),
        }
    }

    /// Commit the transaction: every dirty row becomes a data event and every
    /// staged deletion a tombstone, fed to the chain as one atomic batch. A
    /// rejected batch leaves the chain and the transaction untouched; an
    /// accepted one clears the transaction. An empty transaction succeeds and
    /// changes nothing observable.
    #[verifier::rlimit(100)]
    #[verifier::spinoff_prover]
    pub fn commit(&mut self, chain: &mut Chain, session: &AteSession) -> (r: Result<
        Vec<PrimaryKey>,
        CommitError,
    >)
        requires
            old(self).wf(),
            old(chain).wf(),
            old(chain).indices_replay_log(),
            old(chain).log_encodable(),
        ensures
            final(chain).wf(),
            final(chain).indices_replay_log(),
            final(chain).log_encodable(),
            final(self).wf(),
            match r {
                Ok(decache) => {
                    &&& final(self).is_empty()
                    &&& final(self).pipe_unlock.contents() == Map::<(u128, u64), ()>::empty()
                    &&& final(chain).locks.contents() == remove_keys(
                        old(chain).locks.contents(),
                        pipe_keys(*old(self)),
                    )
                    &&& exists|evts: Seq<EventDataV>|
                        commit_emits(
                            *old(self),
                            *old(chain),
                            *final(chain),
                            *session,
                            decache@,
                            evts,
                        )
                },
                Err(_) => *final(chain) == *old(chain) && *final(self) == *old(self),
            },
            old(self).is_empty() ==> (r is Ok && final(chain).redo.events() == old(
                chain,
            ).redo.events() && final(chain).indexer.primary.contents() == old(
                chain,
            ).indexer.primary.contents()),
    {
        let mut events: Vec<EventData> = Vec::new();
        let mut t = self.time;
        let nrows = self.rows.entries.len();
        let ndel = self.deleted.entries.len();
        proof {
            assert(events.deep_view() =~= Seq::<EventDataV>::empty());
            if self.rows.entries@.len() > 0 {
                crate::kmap::lemma_entries_index(self.rows.entries@, 0);
            }
            if self.deleted.entries@.len() > 0 {
                crate::kmap::lemma_entries_index(self.deleted.entries@, 0);
            }
            assert(old(self).is_empty() ==> nrows == 0 && ndel == 0);
        }
        if nrows > 500000 || ndel > 500000 {
            return Err(CommitError::SerializationError);
        }
        if (nrows > 0 || ndel > 0) && t.time_since_epoch_ms > u64::MAX - 1000000 {
            return Err(CommitError::SerializationError);
        }
        let mut i: usize = 0;
        while i < nrows
            invariant
                self.wf(),
                chain.wf(),
                nrows == self.rows.entries@.len(),
                i <= nrows,
                t.time_since_epoch_ms == old(self).time.time_since_epoch_ms + i,
                nrows > 0 ==> old(self).time.time_since_epoch_ms <= u64::MAX - 1000000,
                nrows <= 500000 && ndel <= 500000,
                self == old(self),
                chain == old(chain),
                old(chain).indices_replay_log(),
                old(chain).log_encodable(),
                events.deep_view().len() == i,
                forall|j: int|
                    0 <= j < i ==> row_event_matches(
                        #[trigger] events.deep_view()[j],
                        old(self).rows.entries@[j].1.key,
                        old(self).rows.entries@[j].1.parent,
                        old(self).rows.entries@[j].1.auth@,
                        old(self).rows.entries@[j].1.data@,
                        ChainTimestamp {
                            time_since_epoch_ms: (old(self).time.time_since_epoch_ms + j) as u64,
                        },
                        session.read_keys@,
                        old(chain).indexer.auths_view(),
                        old(chain).indexer.parents.contents(),
                    ),
            decreases nrows - i,
        {
            proof {
                crate::kmap::lemma_entries_index(self.rows.entries@, i as int);
            }
            let row_ref = &self.rows.entries[i].1;
            match self.build_row_event(chain, session, t, row_ref) {
                Ok(ev) => {
                    let ghost preve = events.deep_view();
                    events.push(ev);
                    proof {
                        assert(events.deep_view() =~= preve.push(ev@));
                    }
                },
                Err(e) => {
                    return Err(e);
                },
            }
            t = t.inc();
            i = i + 1;
        }
        let mut i: usize = 0;
        while i < ndel
            invariant
                self.wf(),
                chain.wf(),
                ndel == self.deleted.entries@.len(),
                i <= ndel,
                nrows == old(self).rows.entries@.len(),
                t.time_since_epoch_ms == old(self).time.time_since_epoch_ms + nrows + i,
                (nrows > 0 || ndel > 0) ==> old(self).time.time_since_epoch_ms <= u64::MAX
                    - 1000000,
                nrows <= 500000 && ndel <= 500000,
                self == old(self),
                chain == old(chain),
                old(chain).indices_replay_log(),
                old(chain).log_encodable(),
                events.deep_view().len() == nrows + i,
                forall|j: int|
                    0 <= j < nrows ==> row_event_matches(
                        #[trigger] events.deep_view()[j],
                        old(self).rows.entries@[j].1.key,
                        old(self).rows.entries@[j].1.parent,
                        old(self).rows.entries@[j].1.auth@,
                        old(self).rows.entries@[j].1.data@,
                        ChainTimestamp {
                            time_since_epoch_ms: (old(self).time.time_since_epoch_ms + j) as u64,
                        },
                        session.read_keys@,
                        old(chain).indexer.auths_view(),
                        old(chain).indexer.parents.contents(),
                    ),
                forall|j: int|
                    nrows <= j < nrows + i ==> tombstone_event_matches(
                        #[trigger] events.deep_view()[j],
                        PrimaryKey { val: old(self).deleted.entries@[j - nrows].0.0 },
                        old(self).deleted.entries@[j - nrows].1,
                        ChainTimestamp {
                            time_since_epoch_ms: (old(self).time.time_since_epoch_ms + j) as u64,
                        },
                    ),
            decreases ndel - i,
        {
            let entry_key = self.deleted.entries[i].0;
            let parent = match &self.deleted.entries[i].1 {
                Some(p) => Some(*p),
                None => None,
            };
            let ev = self.build_tombstone_event(t, PrimaryKey { val: entry_key.0 }, parent);
            let ghost preve = events.deep_view();
            events.push(ev);
            proof {
                assert(events.deep_view() =~= preve.push(ev@));
            }
            t = t.inc();
            i = i + 1;
        }
        let ghost sent = events.deep_view();
        proof {
            assert forall|j: int| #![trigger sent[j]] 0 <= j < sent.len() implies header_encodable(
                sent[j].header,
            ) by {
                if j < nrows {
                    assert(row_event_matches(
                        events.deep_view()[j],
                        old(self).rows.entries@[j].1.key,
                        old(self).rows.entries@[j].1.parent,
                        old(self).rows.entries@[j].1.auth@,
                        old(self).rows.entries@[j].1.data@,
                        ChainTimestamp {
                            time_since_epoch_ms: (old(self).time.time_since_epoch_ms + j) as u64,
                        },
                        session.read_keys@,
                        old(chain).indexer.auths_view(),
                        old(chain).indexer.parents.contents(),
                    ));
                }
            }
        }
        match chain.feed(events) {
            Ok(decache) => {
                proof {
                    assert(commit_emits(*old(self), *old(chain), *chain, *session, decache@, sent));
                    if old(self).is_empty() {
                        assert(sent =~= Seq::<EventDataV>::empty());
                        assert(old(chain).redo.events() + sent =~= old(chain).redo.events());
                    }
                }
                let ghost chain_fed = *chain;
                let ghost locks0 = chain.locks.contents();
                let ghost ks = pipe_keys(*old(self));
                let nu = self.pipe_unlock.entries.len();
                let mut i: usize = 0;
                proof {
                    assert(ks.take(0) =~= Seq::<(u128, u64)>::empty());
                }
                while i < nu
                    invariant
                        chain.wf(),
                        self == old(self),
                        self.wf(),
                        nu == self.pipe_unlock.entries@.len(),
                        i <= nu,
                        ks == pipe_keys(*old(self)),
                        chain.locks.contents() == remove_keys(locks0, ks.take(i as int)),
                        chain.redo == chain_fed.redo,
                        chain.indexer == chain_fed.indexer,
                        chain.anti_replay == chain_fed.anti_replay,
                        chain.pubkeys == chain_fed.pubkeys,
                        chain.integrity == chain_fed.integrity,
                        chain.roots == chain_fed.roots,
                    decreases nu - i,
                {
                    let key = PrimaryKey { val: self.pipe_unlock.entries[i].0.0 };
                    proof {
                        assert(crate::index::pk_key(key) == ks[i as int]) by {
                            crate::kmap::lemma_entries_index(
                                self.pipe_unlock.entries@,
                                i as int,
                            );
                            assert(self.pipe_unlock.contents().dom().contains(
                                self.pipe_unlock.entries@[i as int].0,
                            ));
                            assert(self.pipe_unlock.entries@[i as int].0.1 == 0);
                            assert(ks[i as int] == self.pipe_unlock.entries@[i as int].0);
                        }
                        assert(ks.take(i as int + 1).drop_last() =~= ks.take(i as int));
                        assert(ks.take(i as int + 1).last() == ks[i as int]);
                    }
                    chain.unlock_local(&key);
                    i = i + 1;
                }
                proof {
                    assert(ks.take(nu as int) =~= ks);
                    assert(locks0 == old(chain).locks.contents());
                    assert(commit_emits(
                        *old(self),
                        *old(chain),
                        *chain,
                        *session,
                        decache@,
                        sent,
                    )) by {
                        assert(chain.redo == chain_fed.redo);
                        assert(chain.indexer == chain_fed.indexer);
                        assert(chain.anti_replay == chain_fed.anti_replay);
                        assert(chain.pubkeys == chain_fed.pubkeys);
                        assert(commit_emits(
                            *old(self),
                            *old(chain),
                            chain_fed,
                            *session,
                            decache@,
                            sent,
                        ));
                    }
                }
                self.rows = KeyMap::new();
                self.deleted = KeyMap::new();
                self.pipe_unlock = KeyMap::new();
                self.time = t;
                proof {
                    assert(self.rows.contents().dom() =~= Set::<(u128, u64)>::empty());
                    assert(self.deleted.contents().dom() =~= Set::<(u128, u64)>::empty());
                    assert(self.pipe_unlock.contents() =~= Map::<(u128, u64), ()>::empty());
                }
                Ok(decache)
            },
            Err(e) => {
                proof {
                    if old(self).is_empty() {
                        assert(sent =~= Seq::<EventDataV>::empty());
                        crate::chain::reveal_batch_valid_empty(sent);
                        assert(false);
                    }
                }
                Err(e)
            },
        }
    }
}

/// A list free of payload-hash entries declares no payload.
pub proof fn lemma_no_data_hash(s: Seq<CoreMetadataV>)
    requires
        forall|i: int| 0 <= i < s.len() ==> !((#[trigger] s[i]) is DataHash),
    ensures
        crate::meta::spec_get_data_hash(s) is None,
    decreases s.len(),
{
    if s.len() > 0 {
        assert(forall|i: int|
            0 <= i < s.drop_first().len() ==> (#[trigger] s.drop_first()[i]) == s[i + 1]);
        lemma_no_data_hash(s.drop_first());
    }
}

} // verus!
