//! A small verified map keyed by a pair of machine integers, backed by a
//! vector of entries with distinct keys. The chain indices, caches and lock
//! tables are built on it.

use vstd::prelude::*;

verus! {

/// The spec-level contents of an entry list.
pub open spec fn entries_map<V>(s: Seq<((u128, u64), V)>) -> Map<(u128, u64), V>
    decreases s.len(),
{
    if s.len() == 0 {
        Map::empty()
    } else {
        entries_map(s.drop_last()).insert(s.last().0, s.last().1)
    }
}

/// A key is in the contents exactly when some entry carries it.
pub proof fn lemma_entries_dom<V>(s: Seq<((u128, u64), V)>, k: (u128, u64))
    ensures
        entries_map(s).dom().contains(k) <==> exists|i: int| 0 <= i < s.len() && (#[trigger] s[i]).0
            == k,
    decreases s.len(),
{
    if s.len() > 0 {
        lemma_entries_dom(s.drop_last(), k);
        if s.last().0 == k {
            assert(s[s.len() - 1].0 == k);
        } else if entries_map(s).dom().contains(k) {
            let i = choose|i: int| 0 <= i < s.drop_last().len() && (#[trigger] s.drop_last()[i]).0
                == k;
            assert(s[i].0 == k);
        } else {
            assert forall|i: int| 0 <= i < s.len() implies (#[trigger] s[i]).0 != k by {
                if i < s.len() - 1 {
                    assert(s.drop_last()[i] == s[i]);
                }
            }
        }
    }
}

/// Whether all keys in an entry list are distinct.
pub open spec fn entries_unique<V>(s: Seq<((u128, u64), V)>) -> bool {
    forall|i: int, j: int| 0 <= i < j < s.len() ==> (#[trigger] s[i]).0 != (#[trigger] s[j]).0
}

/// With distinct keys, the entry carrying a key gives its value.
pub proof fn lemma_entries_index<V>(s: Seq<((u128, u64), V)>, i: int)
    requires
        entries_unique(s),
        0 <= i < s.len(),
    ensures
        entries_map(s).dom().contains(s[i].0),
        entries_map(s)[s[i].0] == s[i].1,
    decreases s.len(),
{
    if i == s.len() - 1 {
    } else {
        assert(s.drop_last()[i] == s[i]);
        assert(entries_unique(s.drop_last())) by {
            assert(forall|a: int, b: int|
                0 <= a < b < s.drop_last().len() ==> (#[trigger] s.drop_last()[a]) == s[a]
                    && (#[trigger] s.drop_last()[b]) == s[b]);
        }
        lemma_entries_index(s.drop_last(), i);
        assert(s.last().0 != s[i].0);
    }
}

/// Updating the entry that carries a key updates the contents at that key.
pub proof fn lemma_entries_update<V>(s: Seq<((u128, u64), V)>, i: int, v: V)
    requires
        entries_unique(s),
        0 <= i < s.len(),
    ensures
        entries_map(s.update(i, (s[i].0, v))) == entries_map(s).insert(s[i].0, v),
    decreases s.len(),
{
    let k = s[i].0;
    let t = s.update(i, (k, v));
    if i == s.len() - 1 {
        assert(t.drop_last() =~= s.drop_last());
        assert(entries_map(t) =~= entries_map(s).insert(k, v));
    } else {
        assert(t.drop_last() =~= s.drop_last().update(i, (k, v)));
        assert(s.drop_last()[i] == s[i]);
        assert(entries_unique(s.drop_last())) by {
            assert(forall|a: int, b: int|
                0 <= a < b < s.drop_last().len() ==> (#[trigger] s.drop_last()[a]) == s[a]
                    && (#[trigger] s.drop_last()[b]) == s[b]);
        }
        lemma_entries_update(s.drop_last(), i, v);
        assert(t.last() == s.last());
        assert(entries_map(t) =~= entries_map(s).insert(k, v));
    }
}

/// Removing the entry that carries a key removes the key from the contents.
pub proof fn lemma_entries_remove<V>(s: Seq<((u128, u64), V)>, i: int)
    requires
        entries_unique(s),
        0 <= i < s.len(),
    ensures
        entries_map(s.remove(i)) == entries_map(s).remove(s[i].0),
    decreases s.len(),
{
    let k = s[i].0;
    let t = s.remove(i);
    if i == s.len() - 1 {
        assert(t =~= s.drop_last());
        lemma_entries_not_contained(s.drop_last(), k);
        assert(entries_map(t) =~= entries_map(s).remove(k));
    } else {
        assert(t.drop_last() =~= s.drop_last().remove(i));
        assert(s.drop_last()[i] == s[i]);
        assert(entries_unique(s.drop_last())) by {
            assert(forall|a: int, b: int|
                0 <= a < b < s.drop_last().len() ==> (#[trigger] s.drop_last()[a]) == s[a]
                    && (#[trigger] s.drop_last()[b]) == s[b]);
        }
        lemma_entries_remove(s.drop_last(), i);
        assert(t.last() == s.last());
        assert(s.last().0 != k);
        assert(entries_map(t) =~= entries_map(s).remove(k));
    }
}

/// A key carried by no entry is not in the contents.
pub proof fn lemma_entries_not_contained<V>(s: Seq<((u128, u64), V)>, k: (u128, u64))
    requires
        forall|i: int| 0 <= i < s.len() ==> (#[trigger] s[i]).0 != k,
    ensures
        !entries_map(s).dom().contains(k),
    decreases s.len(),
{
    if s.len() > 0 {
        assert(forall|i: int|
            0 <= i < s.drop_last().len() ==> (#[trigger] s.drop_last()[i]) == s[i]);
        lemma_entries_not_contained(s.drop_last(), k);
    }
}

/// A map from integer pairs to values, with one entry per key.
pub struct KeyMap<V> {
    pub entries: Vec<((u128, u64), V)>,
}

impl<V> KeyMap<V> {
    /// Whether the backing vector holds each key at most once.
    pub open spec fn wf(self) -> bool {
        entries_unique(self.entries@)
    }

    /// The contents as a spec-level map.
    pub open spec fn contents(self) -> Map<(u128, u64), V> {
        entries_map(self.entries@)
    }

    /// An empty map.
    pub fn new() -> (r: KeyMap<V>)
        ensures
            r.wf(),
            r.contents() == Map::<(u128, u64), V>::empty(),
    {
        let r = KeyMap { entries: Vec::new() };
        proof {
            assert(r.entries@.len() == 0);
        }
        r
    }

    /// The position of the entry carrying `k`, if any.
    fn find(&self, k: (u128, u64)) -> (r: Option<usize>)
        ensures
            match r {
                Some(i) => i < self.entries@.len() && self.entries@[i as int].0 == k,
                None => forall|i: int|
                    0 <= i < self.entries@.len() ==> (#[trigger] self.entries@[i]).0 != k,
            },
    {
        let n = self.entries.len();
        let mut i: usize = 0;
        while i < n
            invariant
                n == self.entries@.len(),
                i <= n,
                forall|j: int| 0 <= j < i ==> (#[trigger] self.entries@[j]).0 != k,
            decreases n - i,
        {
            let e = &self.entries[i];
            if e.0.0 == k.0 && e.0.1 == k.1 {
                return Some(i);
            }
            i = i + 1;
        }
        None
    }

    /// Whether `k` has a value.
    pub fn contains_key(&self, k: (u128, u64)) -> (r: bool)
        ensures
            r == self.contents().dom().contains(k),
    {
        proof {
            lemma_entries_dom(self.entries@, k);
        }
        self.find(k).is_some()
    }

    /// The value under `k`, if any.
    pub fn get(&self, k: (u128, u64)) -> (r: Option<&V>)
        requires
            self.wf(),
        ensures
            match r {
                Some(v) => self.contents().dom().contains(k) && self.contents()[k] == *v,
                None => !self.contents().dom().contains(k),
            },
    {
        proof {
            lemma_entries_dom(self.entries@, k);
        }
        match self.find(k) {
            Some(i) => {
                proof {
                    lemma_entries_index(self.entries@, i as int);
                }
                Some(&self.entries[i].1)
            },
            None => {
                proof {
                    lemma_entries_not_contained(self.entries@, k);
                }
                None
            },
        }
    }

    /// Map `k` to `v`, replacing any previous value.
    pub fn insert(&mut self, k: (u128, u64), v: V)
        requires
            old(self).wf(),
        ensures
            final(self).wf(),
            final(self).contents() == old(self).contents().insert(k, v),
    {
        match self.find(k) {
            Some(i) => {
                proof {
                    lemma_entries_update(self.entries@, i as int, v);
                }
                self.entries.set(i, (k, v));
            },
            None => {
                proof {
                    let s = self.entries@;
                    assert(s.push((k, v)).drop_last() =~= s);
                    assert(forall|a: int|
                        0 <= a < s.len() ==> (#[trigger] s.push((k, v))[a]) == s[a]);
                }
                self.entries.push((k, v));
            },
        }
    }

    /// Drop any value under `k`.
    pub fn remove(&mut self, k: (u128, u64))
        requires
            old(self).wf(),
        ensures
            final(self).wf(),
            final(self).contents() == old(self).contents().remove(k),
    {
        match self.find(k) {
            Some(i) => {
                proof {
                    lemma_entries_remove(self.entries@, i as int);
                    let s = self.entries@;
                    let t = s.remove(i as int);
                    assert forall|a: int, b: int| 0 <= a < b < t.len() implies (#[trigger] t[a]).0
                        != (#[trigger] t[b]).0 by {
                        if b < i {
                            assert(t[a] == s[a] && t[b] == s[b]);
                        } else if a < i {
                            assert(t[a] == s[a] && t[b] == s[b + 1]);
                        } else {
                            assert(t[a] == s[a + 1] && t[b] == s[b + 1]);
                        }
                    }
                }
                let _ = self.entries.remove(i);
            },
            None => {
                proof {
                    lemma_entries_not_contained(self.entries@, k);
                    assert(self.contents().remove(k) =~= self.contents());
                }
            },
        }
    }

    /// How many keys have values.
    pub fn len(&self) -> (r: usize)
        requires
            self.wf(),
        ensures
            r == self.entries@.len(),
    {
        self.entries.len()
    }
}

} // verus!
