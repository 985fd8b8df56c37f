//! The chain indices: primary key to latest event, tombstone markers, parent
//! links and parent-to-children collections, kept in accept order.

use vstd::prelude::*;

use crate::hashing::AteHash;
use crate::header::PrimaryKey;
use crate::kmap::KeyMap;
use crate::meta::{MetaAuthorization, MetaAuthorizationV, MetaParent};

verus! {

/// The index key under which a primary key is filed.
pub open spec fn pk_key(k: PrimaryKey) -> (u128, u64) {
    (k.val, 0)
}

/// The index key under which a collection is filed.
pub open spec fn col_key(parent: PrimaryKey, collection: u64) -> (u128, u64) {
    (parent.val, collection)
}

/// What the primary index remembers about the latest event of a key.
#[derive(Clone, Copy, Debug, PartialEq, Eq, Structural)]
pub struct EventLeaf {
    pub record: AteHash,
    pub created: u64,
    pub updated: u64,
}

/// The per-chain indices, fed with each accepted event.
pub struct BinaryTreeIndexer {
    pub primary: KeyMap<EventLeaf>,
    pub tombstoned: KeyMap<()>,
    pub parents: KeyMap<MetaParent>,
    pub auths: KeyMap<MetaAuthorization>,
    pub children: KeyMap<Vec<PrimaryKey>>,
}

impl BinaryTreeIndexer {
    /// The stored authorizations, by their spec-level values.
    pub open spec fn auths_view(self) -> Map<(u128, u64), MetaAuthorizationV> {
        self.auths.contents().map_values(|a: MetaAuthorization| a@)
    }

    /// All backing maps are well formed.
    pub open spec fn wf(self) -> bool {
        &&& self.primary.wf()
        &&& self.tombstoned.wf()
        &&& self.parents.wf()
        &&& self.auths.wf()
        &&& self.children.wf()
    }

    /// Empty indices.
    pub fn new() -> (r: BinaryTreeIndexer)
        ensures
            r.wf(),
            r.primary.contents() == Map::<(u128, u64), EventLeaf>::empty(),
            r.tombstoned.contents() == Map::<(u128, u64), ()>::empty(),
            r.parents.contents() == Map::<(u128, u64), MetaParent>::empty(),
            r.auths.contents() == Map::<(u128, u64), MetaAuthorization>::empty(),
            r.children.contents() == Map::<(u128, u64), Vec<PrimaryKey>>::empty(),
    {
        BinaryTreeIndexer {
            primary: KeyMap::new(),
            tombstoned: KeyMap::new(),
            parents: KeyMap::new(),
            auths: KeyMap::new(),
            children: KeyMap::new(),
        }
    }

    /// The latest leaf for a key, if it is live.
    pub fn lookup_primary(&self, key: &PrimaryKey) -> (r: Option<EventLeaf>)
        requires
            self.wf(),
        ensures
            match r {
                Some(l) => self.primary.contents().dom().contains(pk_key(*key))
                    && self.primary.contents()[pk_key(*key)] == l,
                None => !self.primary.contents().dom().contains(pk_key(*key)),
            },
    {
        match self.primary.get((key.val, 0)) {
            Some(l) => Some(*l),
            None => None,
        }
    }

    /// The recorded parent link of a key, if any.
    pub fn lookup_parent(&self, key: &PrimaryKey) -> (r: Option<MetaParent>)
        requires
            self.wf(),
        ensures
            match r {
                Some(p) => self.parents.contents().dom().contains(pk_key(*key))
                    && self.parents.contents()[pk_key(*key)] == p,
                None => !self.parents.contents().dom().contains(pk_key(*key)),
            },
    {
        match self.parents.get((key.val, 0)) {
            Some(p) => Some(*p),
            None => None,
        }
    }

    /// The latest stored authorization of a key, if any.
    pub fn lookup_auth(&self, key: &PrimaryKey) -> (r: Option<&MetaAuthorization>)
        requires
            self.wf(),
        ensures
            match r {
                Some(a) => self.auths.contents().dom().contains(pk_key(*key))
                    && self.auths.contents()[pk_key(*key)] == *a,
                None => !self.auths.contents().dom().contains(pk_key(*key)),
            },
    {
        self.auths.get((key.val, 0))
    }

    /// Whether a tombstone retired this key.
    pub fn is_tombstoned(&self, key: &PrimaryKey) -> (r: bool)
        requires
            self.wf(),
        ensures
            r == self.tombstoned.contents().dom().contains(pk_key(*key)),
    {
        self.tombstoned.contains_key((key.val, 0))
    }

    /// The children filed under a collection, in insertion order.
    pub fn lookup_secondary_raw(&self, parent: &PrimaryKey, collection: u64) -> (r: Option<
        Vec<PrimaryKey>,
    >)
        requires
            self.wf(),
        ensures
            match r {
                Some(v) => self.children.contents().dom().contains(col_key(*parent, collection))
                    && v@ == self.children.contents()[col_key(*parent, collection)]@,
                None => !self.children.contents().dom().contains(col_key(*parent, collection)),
            },
    {
        match self.children.get((parent.val, collection)) {
            Some(v) => {
                let n = v.len();
                let mut out: Vec<PrimaryKey> = Vec::new();
                let mut i: usize = 0;
                while i < n
                    invariant
                        n == v@.len(),
                        i <= n,
                        out@ == v@.take(i as int),
                    decreases n - i,
                {
                    out.push(v[i]);
                    proof {
                        assert(v@.take(i as int + 1) =~= v@.take(i as int).push(v@[i as int]));
                    }
                    i = i + 1;
                }
                proof {
                    assert(v@.take(n as int) =~= v@);
                }
                Some(out)
            },
            None => None,
        }
    }

    /// Record a tombstone: the key leaves the primary index and gains a
    /// marker.
    pub fn feed_tombstone(&mut self, key: &PrimaryKey)
        requires
            old(self).wf(),
        ensures
            final(self).wf(),
            final(self).primary.contents() == old(self).primary.contents().remove(pk_key(*key)),
            final(self).tombstoned.contents() == old(self).tombstoned.contents().insert(
                pk_key(*key),
                (),
            ),
            final(self).parents.contents() == old(self).parents.contents(),
            final(self).auths.contents() == old(self).auths.contents(),
            final(self).children.contents() == old(self).children.contents(),
    {
        self.primary.remove((key.val, 0));
        self.tombstoned.insert((key.val, 0), ());
    }

    /// Record the latest event of a key: its leaf, authorization and parent
    /// link; a retired key becomes live again only through this.
    pub fn feed_data(
        &mut self,
        key: &PrimaryKey,
        leaf: EventLeaf,
        auth: Option<&MetaAuthorization>,
        parent: Option<MetaParent>,
    )
        requires
            old(self).wf(),
        ensures
            final(self).wf(),
            final(self).primary.contents() == old(self).primary.contents().insert(
                pk_key(*key),
                leaf,
            ),
            final(self).tombstoned.contents() == old(self).tombstoned.contents().remove(
                pk_key(*key),
            ),
            match auth {
                Some(a) => final(self).auths_view() == old(self).auths_view().insert(
                    pk_key(*key),
                    a@,
                ),
                None => final(self).auths.contents() == old(self).auths.contents(),
            },
            match parent {
                Some(p) => {
                    &&& final(self).parents.contents() == old(self).parents.contents().insert(
                        pk_key(*key),
                        p,
                    )
                    &&& final(self).children.contents().dom().contains(
                        col_key(p.vec.parent_id, p.vec.collection_id),
                    )
                    &&& final(self).children.contents()[col_key(
                        p.vec.parent_id,
                        p.vec.collection_id,
                    )]@.contains(*key)
                    &&& forall|c: (u128, u64)|
                        (c != col_key(p.vec.parent_id, p.vec.collection_id)
                            && (#[trigger] final(self).children.contents().dom().contains(c)))
                            ==> (old(self).children.contents().dom().contains(c)
                            && final(self).children.contents()[c]
                            == old(self).children.contents()[c])
                },
                None => {
                    &&& final(self).parents.contents() == old(self).parents.contents()
                    &&& final(self).children.contents() == old(self).children.contents()
                },
            },
    {
        self.primary.insert((key.val, 0), leaf);
        self.tombstoned.remove((key.val, 0));
        match auth {
            Some(a) => {
                let copy = MetaAuthorization {
                    read: a.read,
                    write: crate::redo::clone_write(&a.write),
                };
                let ghost prev = self.auths.contents();
                self.auths.insert((key.val, 0), copy);
                proof {
                    lemma_auths_view_insert(prev, pk_key(*key), copy);
                    assert(copy@ == a@);
                }
            },
            None => {},
        }
        match parent {
            Some(p) => {
                self.parents.insert((key.val, 0), p);
                let ck = (p.vec.parent_id.val, p.vec.collection_id);
                let mut list: Vec<PrimaryKey> = match self.children.get(ck) {
                    Some(v) => {
                        let n = v.len();
                        let mut out: Vec<PrimaryKey> = Vec::new();
                        let mut i: usize = 0;
                        while i < n
                            invariant
                                n == v@.len(),
                                i <= n,
                                out@ == v@.take(i as int),
                            decreases n - i,
                        {
                            out.push(v[i]);
                            proof {
                                assert(v@.take(i as int + 1) =~= v@.take(i as int).push(
                                    v@[i as int],
                                ));
                            }
                            i = i + 1;
                        }
                        proof {
                            assert(v@.take(n as int) =~= v@);
                        }
                        out
                    },
                    None => Vec::new(),
                };
                let mut already = false;
                let n = list.len();
                let mut i: usize = 0;
                while i < n
                    invariant
                        n == list@.len(),
                        i <= n,
                        already == exists|j: int| 0 <= j < i && list@[j] == *key,
                    decreases n - i,
                {
                    if list[i].val == key.val {
                        already = true;
                    }
                    i = i + 1;
                }
                if !already {
                    list.push(*key);
                    proof {
                        assert(list@[list@.len() - 1] == *key);
                    }
                }
                proof {
                    assert(list@.contains(*key)) by {
                        if already {
                            let j = choose|j: int| 0 <= j < n && list@[j] == *key;
                            assert(list@[j] == *key);
                        }
                    }
                }
                self.children.insert(ck, list);
            },
            None => {},
        }
    }
}

/// Inserting into an authorization map inserts its view.
proof fn lemma_auths_view_insert(
    m: Map<(u128, u64), MetaAuthorization>,
    k: (u128, u64),
    v: MetaAuthorization,
)
    ensures
        m.insert(k, v).map_values(|a: MetaAuthorization| a@) == m.map_values(
            |a: MetaAuthorization| a@,
        ).insert(k, v@),
{
    assert(m.insert(k, v).map_values(|a: MetaAuthorization| a@) =~= m.map_values(
        |a: MetaAuthorization| a@,
    ).insert(k, v@));
}

} // verus!
