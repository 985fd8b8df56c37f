//! Weak references to data objects: a serializable lazy reference that owns
//! nothing and may dangle. It holds only a key; whether the session it came
//! from is still alive is the caller's to say, and a reference whose session
//! is gone fails rather than resolves.

use vstd::prelude::*;

use crate::chain::Chain;
use crate::dio::{load, spec_load, Dao, DaoV};
use crate::dio_mut::{DaoMut, DioMut};
use crate::errors::LoadError;
use crate::header::PrimaryKey;
use crate::meta::{MetaAuthorization, MetaParent};
use crate::session::AteSession;

verus! {

/// A lazy reference to another data object: a key, or nothing yet.
#[derive(Clone, Copy, Debug, PartialEq, Eq, Structural)]
pub struct DaoWeak {
    pub id: Option<PrimaryKey>,
}

/// What resolving a weak reference yields: nothing for an unset reference, a
/// dangling-session failure when the chain is gone, the object when it loads,
/// nothing when it is not found, and the load's own error otherwise.
pub open spec fn spec_weak_load(
    id: Option<PrimaryKey>,
    chain: Option<Chain>,
    session: AteSession,
) -> Result<Option<DaoV>, LoadError> {
    match id {
        None => Ok(None),
        Some(k) => match chain {
            None => Err(LoadError::WeakDio),
            Some(c) => match spec_load(c, session, k) {
                Ok(d) => Ok(Some(d)),
                Err(LoadError::NotFound(_)) => Ok(None),
                Err(e) => Err(e),
            },
        },
    }
}

impl DaoWeak {
    /// A reference to nothing.
    pub fn new() -> (r: DaoWeak)
        ensures
            r.id is None,
    {
        DaoWeak { id: None }
    }

    /// A reference to the object under a key.
    pub fn from_key(key: PrimaryKey) -> (r: DaoWeak)
        ensures
            r.id == Some(key),
    {
        DaoWeak { id: Some(key) }
    }

    /// The referenced key, if any.
    pub fn key(&self) -> (r: Option<PrimaryKey>)
        ensures
            r == self.id,
    {
        self.id
    }

    /// Point the reference at a key.
    pub fn set_key(&mut self, val: PrimaryKey)
        ensures
            final(self).id == Some(val),
    {
        self.id = Some(val);
    }

    /// Point the reference at nothing.
    pub fn clear(&mut self)
        ensures
            final(self).id is None,
    {
        self.id = None;
    }

    /// Resolve the reference: `chain` carries the session's chain when it is
    /// still alive, and nothing when the reference dangles.
    pub fn load(&self, chain: Option<&Chain>, session: &AteSession) -> (r: Result<
        Option<Dao>,
        LoadError,
    >)
        requires
            match chain {
                Some(c) => c.wf(),
                None => true,
            },
        ensures
            match r {
                Ok(Some(d)) => spec_weak_load(
                    self.id,
                    option_chain_view(chain),
                    *session,
                ) == Ok::<Option<DaoV>, LoadError>(Some(d@)),
                Ok(None) => spec_weak_load(self.id, option_chain_view(chain), *session) == Ok::<
                    Option<DaoV>,
                    LoadError,
                >(None),
                Err(e) => spec_weak_load(self.id, option_chain_view(chain), *session) == Err::<
                    Option<DaoV>,
                    LoadError,
                >(e),
            },
    {
        let id = match self.id {
            Some(k) => k,
            None => {
                return Ok(None);
            },
        };
        let c = match chain {
            Some(c) => c,
            None => {
                return Err(LoadError::WeakDio);
            },
        };
        match load(c, session, &id) {
            Ok(d) => Ok(Some(d)),
            Err(LoadError::NotFound(_)) => Ok(None),
            Err(e) => Err(e),
        }
    }

    /// Stage a value through a still-live transaction: the reference then
    /// points at the new object. A caller whose transaction is gone reports
    /// the dangling reference instead of calling this.
    pub fn store(
        &mut self,
        dio: &mut DioMut,
        parent: Option<MetaParent>,
        auth: MetaAuthorization,
        data: Vec<u8>,
    ) -> (r: DaoMut)
        requires
            old(dio).wf(),
        ensures
            final(dio).wf(),
            final(self).id == Some(r.row.key),
            r.row.key.is_valid(),
            r.row.data@ == data@,
            r.row.parent == parent,
            r.row.auth@ == auth@,
            final(dio).rows.contents().dom() == old(dio).rows.contents().dom().insert(
                crate::index::pk_key(r.row.key),
            ),
            crate::dio_mut::row_matches_staged(
                final(dio).rows.contents()[crate::index::pk_key(r.row.key)],
                r.row.key,
                parent,
                auth@,
                data@,
            ),
            final(dio).deleted == old(dio).deleted,
            final(dio).pipe_unlock == old(dio).pipe_unlock,
            final(dio).scope == old(dio).scope,
    {
        let dao = dio.store(parent, auth, data);
        self.id = Some(dao.key());
        dao
    }

    /// The error a dangling reference yields where a store was meant.
    pub fn store_dangling(&self) -> (r: LoadError)
        ensures
            r == LoadError::WeakDio,
    {
        LoadError::WeakDio
    }

    /// Take the referenced object out: the reference empties and the object,
    /// if it loads, comes back.
    pub fn take(&mut self, chain: Option<&Chain>, session: &AteSession) -> (r: Result<
        Option<Dao>,
        LoadError,
    >)
        requires
            match chain {
                Some(c) => c.wf(),
                None => true,
            },
        ensures
            final(self).id is None,
            match r {
                Ok(Some(d)) => spec_weak_load(
                    old(self).id,
                    option_chain_view(chain),
                    *session,
                ) == Ok::<Option<DaoV>, LoadError>(Some(d@)),
                Ok(None) => spec_weak_load(old(self).id, option_chain_view(chain), *session)
                    == Ok::<Option<DaoV>, LoadError>(None),
                Err(e) => spec_weak_load(old(self).id, option_chain_view(chain), *session) == Err::<
                    Option<DaoV>,
                    LoadError,
                >(e),
            },
    {
        let prev = DaoWeak { id: self.id };
        self.id = None;
        prev.load(chain, session)
    }

    /// Replace the referenced object: stage the new value, point the
    /// reference at it, and hand back the object it pointed at before.
    pub fn replace(
        &mut self,
        dio: &mut DioMut,
        chain: &Chain,
        session: &AteSession,
        parent: Option<MetaParent>,
        auth: MetaAuthorization,
        data: Vec<u8>,
    ) -> (r: Result<Option<Dao>, LoadError>)
        requires
            old(dio).wf(),
            chain.wf(),
        ensures
            final(self).id is Some,
            final(self).id matches Some(k) && k.is_valid() && final(dio).rows.contents().dom()
                == old(dio).rows.contents().dom().insert(crate::index::pk_key(k))
                && crate::dio_mut::row_matches_staged(
                final(dio).rows.contents()[crate::index::pk_key(k)],
                k,
                parent,
                auth@,
                data@,
            ),
            final(dio).wf(),
            final(dio).deleted == old(dio).deleted,
            final(dio).pipe_unlock == old(dio).pipe_unlock,
            final(dio).scope == old(dio).scope,
            match r {
                Ok(Some(d)) => spec_weak_load(old(self).id, Some(*chain), *session) == Ok::<
                    Option<DaoV>,
                    LoadError,
                >(Some(d@)),
                Ok(None) => spec_weak_load(old(self).id, Some(*chain), *session) == Ok::<
                    Option<DaoV>,
                    LoadError,
                >(None),
                Err(e) => spec_weak_load(old(self).id, Some(*chain), *session) == Err::<
                    Option<DaoV>,
                    LoadError,
                >(e),
            },
    {
        let prev = DaoWeak { id: self.id };
        let dao = dio.store(parent, auth, data);
        self.id = Some(dao.key());
        prev.load(Some(chain), session)
    }

    /// Load the object or fall back to a default payload.
    pub fn unwrap_or(&self, chain: Option<&Chain>, session: &AteSession, default: Vec<u8>) -> (r:
        Result<Vec<u8>, LoadError>)
        requires
            match chain {
                Some(c) => c.wf(),
                None => true,
            },
        ensures
            match r {
                Ok(v) => match spec_weak_load(self.id, option_chain_view(chain), *session) {
                    Ok(Some(d)) => v@ == d.data,
                    Ok(None) => v@ == default@,
                    Err(_) => false,
                },
                Err(e) => spec_weak_load(self.id, option_chain_view(chain), *session) == Err::<
                    Option<DaoV>,
                    LoadError,
                >(e),
            },
    {
        match self.load(chain, session) {
            Ok(Some(d)) => Ok(d.data),
            Ok(None) => Ok(default),
            Err(e) => Err(e),
        }
    }

    /// Whether the reference resolves to a live object.
    pub fn is_some(&self, chain: Option<&Chain>, session: &AteSession) -> (r: Result<
        bool,
        LoadError,
    >)
        requires
            match chain {
                Some(c) => c.wf(),
                None => true,
            },
        ensures
            match r {
                Ok(b) => match spec_weak_load(self.id, option_chain_view(chain), *session) {
                    Ok(d) => b == (d is Some),
                    Err(_) => false,
                },
                Err(e) => spec_weak_load(self.id, option_chain_view(chain), *session) == Err::<
                    Option<DaoV>,
                    LoadError,
                >(e),
            },
    {
        match self.load(chain, session) {
            Ok(d) => Ok(d.is_some()),
            Err(e) => Err(e),
        }
    }

    /// Whether the reference resolves to nothing.
    pub fn is_none(&self, chain: Option<&Chain>, session: &AteSession) -> (r: Result<
        bool,
        LoadError,
    >)
        requires
            match chain {
                Some(c) => c.wf(),
                None => true,
            },
        ensures
            match r {
                Ok(b) => match spec_weak_load(self.id, option_chain_view(chain), *session) {
                    Ok(d) => b == (d is None),
                    Err(_) => false,
                },
                Err(e) => spec_weak_load(self.id, option_chain_view(chain), *session) == Err::<
                    Option<DaoV>,
                    LoadError,
                >(e),
            },
    {
        match self.is_some(chain, session) {
            Ok(b) => Ok(!b),
            Err(e) => Err(e),
        }
    }
}

/// The chain behind an optional borrow, as a spec value.
pub open spec fn option_chain_view(chain: Option<&Chain>) -> Option<Chain> {
    match chain {
        Some(c) => Some(*c),
        None => None,
    }
}

} // verus!
