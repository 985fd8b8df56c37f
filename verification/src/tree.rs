//! The tree authority: derives the effective read policy of an event by
//! walking its parent chain, selects and transmutes session read keys, and
//! seals payloads on the way out and unseals them on the way in.

use vstd::prelude::*;

use crate::chain::Chain;
use crate::crypto::{seal, sealed};
use crate::errors::TransformError;
use crate::hashing::AteHash;
use crate::index::pk_key;
use crate::meta::{CoreMetadata, CoreMetadataV, DerivedSecret, EncryptKey, InitializationVector,
    Metadata, MetaAuthorizationV, MetaConfidentiality, MetaParent, ReadOption};
use crate::session::{spec_has_read_key, AteSession};

verus! {

/// Which side of the store a policy computation serves.
#[derive(Clone, Copy, Debug, PartialEq, Eq, Structural)]
pub enum ComputePhase {
    BeforeStore,
    AfterStore,
}

/// Resolve an inherited read policy by walking parent links upward: the
/// first explicit policy wins; a root, broken link or exhausted walk leaves
/// it unresolved.
pub open spec fn eff_read_spec(
    auths: Map<(u128, u64), MetaAuthorizationV>,
    parents: Map<(u128, u64), MetaParent>,
    r: ReadOption,
    parent: Option<MetaParent>,
    fuel: nat,
) -> Option<ReadOption>
    decreases fuel,
{
    if !(r is Inherit) {
        Some(r)
    } else {
        match parent {
            None => None,
            Some(p) => {
                if fuel == 0 {
                    None
                } else {
                    let pk = pk_key(p.vec.parent_id);
                    if auths.dom().contains(pk) {
                        eff_read_spec(
                            auths,
                            parents,
                            auths[pk].read,
                            if parents.dom().contains(pk) {
                                Some(parents[pk])
                            } else {
                                None
                            },
                            (fuel - 1) as nat,
                        )
                    } else {
                        None
                    }
                }
            },
        }
    }
}

/// The first session read key with the named hash settles the matter: its
/// transmuted form must match the stored confidentiality hash, and a mismatch
/// is key confusion, not a missing key. A session with no key under the hash
/// lacks the read key.
pub open spec fn find_read_match(
    keys: Seq<EncryptKey>,
    h: AteHash,
    d: DerivedSecret,
    conf: AteHash,
) -> Result<Option<EncryptKey>, TransformError>
    decreases keys.len(),
{
    if keys.len() == 0 {
        Err(TransformError::MissingReadKey(h))
    } else if keys[0].spec_hash() == h {
        if d.spec_transmute(keys[0]).spec_short_hash() == conf {
            Ok(Some(d.spec_transmute(keys[0])))
        } else {
            Err(TransformError::UnspecifiedReadability)
        }
    } else {
        find_read_match(keys.drop_first(), h, d, conf)
    }
}

/// What `get_encrypt_key` returns for a resolved read policy.
pub open spec fn spec_get_encrypt_key(
    eff: Option<ReadOption>,
    iv_present: bool,
    conf: AteHash,
    keys: Seq<EncryptKey>,
) -> Result<Option<EncryptKey>, TransformError> {
    match eff {
        None => Err(TransformError::UnspecifiedReadability),
        Some(ReadOption::Inherit) => Err(TransformError::UnspecifiedReadability),
        Some(ReadOption::Everyone(k)) => if iv_present && k is Some {
            Ok(k)
        } else {
            Ok(None)
        },
        Some(ReadOption::Specific(h, d)) => find_read_match(keys, h, d, conf),
    }
}

/// The key an egress seal uses, if any, for a resolved read policy.
pub open spec fn spec_egress_key(
    eff: Option<ReadOption>,
    keys: Seq<EncryptKey>,
) -> Result<Option<EncryptKey>, TransformError> {
    match eff {
        None => Err(TransformError::UnspecifiedReadability),
        Some(ReadOption::Inherit) => Err(TransformError::UnspecifiedReadability),
        Some(ReadOption::Everyone(k)) => Ok(k),
        Some(ReadOption::Specific(h, d)) => if spec_has_read_key(keys, h) {
            match find_first_key(keys, h) {
                Some(k) => Ok(Some(d.spec_transmute(k))),
                None => Err(TransformError::MissingReadKey(h)),
            }
        } else {
            Err(TransformError::MissingReadKey(h))
        },
    }
}

/// What the ingress transform returns: plain events pass through, sealed
/// events demand a vector and a key the session can derive.
pub open spec fn spec_overlay(
    auths: Map<(u128, u64), MetaAuthorizationV>,
    parents: Map<(u128, u64), MetaParent>,
    read: ReadOption,
    parent: Option<MetaParent>,
    conf: Option<MetaConfidentiality>,
    iv: Option<InitializationVector>,
    keys: Seq<EncryptKey>,
    d: Seq<u8>,
) -> Result<Seq<u8>, TransformError> {
    match conf {
        Some(cf) => match spec_get_encrypt_key(
            eff_read_spec(auths, parents, read, parent, crate::chain::EFF_FUEL as nat),
            iv is Some,
            cf.hash,
            keys,
        ) {
            Ok(Some(k)) => match iv {
                Some(v) => Ok(sealed(k.val, v.val, d)),
                None => Err(TransformError::NoIvPresent),
            },
            Ok(None) => Ok(d),
            Err(err) => Err(err),
        },
        None => if iv is Some {
            Err(TransformError::UnspecifiedReadability)
        } else {
            Ok(d)
        },
    }
}

/// The first session key with the named hash.
pub open spec fn find_first_key(keys: Seq<EncryptKey>, h: AteHash) -> Option<EncryptKey>
    decreases keys.len(),
{
    if keys.len() == 0 {
        None
    } else if keys[0].spec_hash() == h {
        Some(keys[0])
    } else {
        find_first_key(keys.drop_first(), h)
    }
}

/// The tree authority plugin: policy resolution and payload transforms for
/// one chain.
pub struct TreeAuthorityPlugin {}

impl TreeAuthorityPlugin {
    pub fn new() -> TreeAuthorityPlugin {
        TreeAuthorityPlugin {  }
    }

    /// Resolve the effective read policy of an event with carried policy `r`
    /// and parent link `parent`, against the chain's indices.
    pub fn compute_auth_read(
        &self,
        chain: &Chain,
        r: &ReadOption,
        parent: Option<MetaParent>,
        _phase: ComputePhase,
    ) -> (res: Option<ReadOption>)
        requires
            chain.wf(),
        ensures
            res == eff_read_spec(
                chain.indexer.auths_view(),
                chain.indexer.parents.contents(),
                *r,
                parent,
                crate::chain::EFF_FUEL as nat,
            ),
    {
        let mut cur: ReadOption = *r;
        let mut par: Option<MetaParent> = parent;
        let mut fuel: u64 = crate::chain::EFF_FUEL;
        loop
            invariant
                chain.wf(),
                fuel <= crate::chain::EFF_FUEL,
                eff_read_spec(
                    chain.indexer.auths_view(),
                    chain.indexer.parents.contents(),
                    *r,
                    parent,
                    crate::chain::EFF_FUEL as nat,
                ) == eff_read_spec(
                    chain.indexer.auths_view(),
                    chain.indexer.parents.contents(),
                    cur,
                    par,
                    fuel as nat,
                ),
            decreases fuel,
        {
            match cur {
                ReadOption::Inherit => {},
                _ => {
                    return Some(cur);
                },
            }
            match par {
                None => {
                    return None;
                },
                Some(p) => {
                    if fuel == 0 {
                        return None;
                    }
                    match chain.indexer.lookup_auth(&p.vec.parent_id) {
                        Some(a) => {
                            let next_p = chain.indexer.lookup_parent(&p.vec.parent_id);
                            proof {
                                assert(chain.indexer.auths_view().dom()
                                    =~= chain.indexer.auths.contents().dom());
                                assert(chain.indexer.auths_view()[pk_key(p.vec.parent_id)]
                                    == chain.indexer.auths.contents()[pk_key(p.vec.parent_id)]@);
                            }
                            cur = a.read;
                            par = next_p;
                            fuel = fuel - 1;
                        },
                        None => {
                            proof {
                                assert(chain.indexer.auths_view().dom()
                                    =~= chain.indexer.auths.contents().dom());
                            }
                            return None;
                        },
                    }
                },
            }
        }
    }

    /// The key that unseals an event's payload, from the stored
    /// confidentiality hash and the session's read keys: the policy must
    /// resolve, and for a `Specific` policy the session must hold the named
    /// key and the transmuted key must match the stored hash.
    #[verifier::rlimit(100)]
    #[verifier::spinoff_prover]
    pub fn get_encrypt_key(
        &self,
        chain: &Chain,
        read: &ReadOption,
        parent: Option<MetaParent>,
        confidentiality: &MetaConfidentiality,
        iv: Option<&InitializationVector>,
        session: &AteSession,
    ) -> (r: Result<Option<EncryptKey>, TransformError>)
        requires
            chain.wf(),
        ensures
            r == spec_get_encrypt_key(
                eff_read_spec(
                    chain.indexer.auths_view(),
                    chain.indexer.parents.contents(),
                    *read,
                    parent,
                    crate::chain::EFF_FUEL as nat,
                ),
                iv is Some,
                confidentiality.hash,
                session.read_keys@,
            ),
    {
        let eff = self.compute_auth_read(chain, read, parent, ComputePhase::AfterStore);
        match eff {
            None => Err(TransformError::UnspecifiedReadability),
            Some(ReadOption::Inherit) => Err(TransformError::UnspecifiedReadability),
            Some(ReadOption::Everyone(k)) => {
                if iv.is_some() && k.is_some() {
                    Ok(k)
                } else {
                    Ok(None)
                }
            },
            Some(ReadOption::Specific(h, d)) => {
                let n = session.read_keys.len();
                let mut i: usize = 0;
                proof {
                    assert(session.read_keys@.skip(0) =~= session.read_keys@);
                }
                while i < n
                    invariant
                        n == session.read_keys@.len(),
                        i <= n,
                        eff_read_spec(
                            chain.indexer.auths_view(),
                            chain.indexer.parents.contents(),
                            *read,
                            parent,
                            crate::chain::EFF_FUEL as nat,
                        ) == Some(ReadOption::Specific(h, d)),
                        find_read_match(session.read_keys@, h, d, confidentiality.hash)
                            == find_read_match(
                            session.read_keys@.skip(i as int),
                            h,
                            d,
                            confidentiality.hash,
                        ),
                    decreases n - i,
                {
                    proof {
                        assert(session.read_keys@.skip(i as int)[0]
                            == session.read_keys@[i as int]);
                        assert(session.read_keys@.skip(i as int).drop_first()
                            =~= session.read_keys@.skip(i as int + 1));
                    }
                    let k = session.read_keys[i];
                    let kh = k.hash();
                    if kh.val == h.val {
                        let inner = d.transmute(&k);
                        let sh = inner.short_hash();
                        proof {
                            assert(session.read_keys@.skip(i as int)[0]
                                == session.read_keys@[i as int]);
                            assert(inner == d.spec_transmute(session.read_keys@[i as int]));
                        }
                        if sh.val == confidentiality.hash.val {
                            proof {
                                assert(inner.spec_short_hash() == confidentiality.hash);
                                assert(find_read_match(
                                    session.read_keys@.skip(i as int),
                                    h,
                                    d,
                                    confidentiality.hash,
                                ) == Ok::<Option<EncryptKey>, TransformError>(Some(inner)));
                            }
                            return Ok(Some(inner));
                        } else {
                            return Err(TransformError::UnspecifiedReadability);
                        }
                    }
                    i = i + 1;
                }
                proof {
                    assert(session.read_keys@.skip(n as int)
                        =~= Seq::<EncryptKey>::empty());
                }
                Err(TransformError::MissingReadKey(h))
            },
        }
    }

    /// Egress transform: resolve the read policy and, if it yields a key,
    /// seal the payload under a fresh initialization vector, recording the
    /// vector and the key's short hash in the metadata.
    #[verifier::rlimit(100)]
    #[verifier::spinoff_prover]
    pub fn data_as_underlay(
        &self,
        chain: &Chain,
        meta: &mut Metadata,
        with: Vec<u8>,
        session: &AteSession,
        read: &ReadOption,
        parent: Option<MetaParent>,
    ) -> (r: Result<Vec<u8>, TransformError>)
        requires
            chain.wf(),
        ensures
            match r {
                Ok(out) => match spec_egress_key(
                    eff_read_spec(
                        chain.indexer.auths_view(),
                        chain.indexer.parents.contents(),
                        *read,
                        parent,
                        crate::chain::EFF_FUEL as nat,
                    ),
                    session.read_keys@,
                ) {
                    Ok(None) => out@ == with@ && final(meta)@ == old(meta)@,
                    Ok(Some(k)) => exists|iv: InitializationVector|
                        final(meta)@ == old(meta)@ + seq![
                            CoreMetadataV::InitializationVector(iv),
                            CoreMetadataV::Confidentiality(
                                MetaConfidentiality { hash: k.spec_short_hash() },
                            ),
                        ] && out@ == sealed(k.val, iv.val, with@),
                    Err(_) => false,
                },
                Err(e) => spec_egress_key(
                    eff_read_spec(
                        chain.indexer.auths_view(),
                        chain.indexer.parents.contents(),
                        *read,
                        parent,
                        crate::chain::EFF_FUEL as nat,
                    ),
                    session.read_keys@,
                ) == Err::<Option<EncryptKey>, TransformError>(e) && final(meta)@ == old(meta)@,
            },
    {
        let eff = self.compute_auth_read(chain, read, parent, ComputePhase::AfterStore);
        let key: Option<EncryptKey> = match eff {
            None => {
                return Err(TransformError::UnspecifiedReadability);
            },
            Some(ReadOption::Inherit) => {
                return Err(TransformError::UnspecifiedReadability);
            },
            Some(ReadOption::Everyone(k)) => k,
            Some(ReadOption::Specific(h, d)) => {
                let n = session.read_keys.len();
                let mut i: usize = 0;
                let mut found: Option<EncryptKey> = None;
                proof {
                    assert(session.read_keys@.take(0) =~= Seq::<EncryptKey>::empty());
                }
                while i < n
                    invariant
                        n == session.read_keys@.len(),
                        i <= n,
                        found == find_first_key(session.read_keys@.take(i as int), h),
                    decreases n - i,
                {
                    proof {
                        assert(session.read_keys@.take(i as int + 1)
                            =~= session.read_keys@.take(i as int).push(
                            session.read_keys@[i as int],
                        ));
                        lemma_find_first_snoc(
                            session.read_keys@.take(i as int),
                            session.read_keys@[i as int],
                            h,
                        );
                    }
                    if found.is_none() {
                        let k = session.read_keys[i];
                        let kh = k.hash();
                        if kh.val == h.val {
                            found = Some(k);
                        }
                    }
                    i = i + 1;
                }
                proof {
                    assert(session.read_keys@.take(n as int) =~= session.read_keys@);
                    lemma_find_first_has(session.read_keys@, h);
                }
                match found {
                    Some(k) => Some(d.transmute(&k)),
                    None => {
                        return Err(TransformError::MissingReadKey(h));
                    },
                }
            },
        };
        match key {
            None => Ok(with),
            Some(k) => {
                let iv = InitializationVector { val: crate::header::random_u128() };
                let out = seal(&k, &iv, &with);
                let sh = k.short_hash();
                meta.push(CoreMetadata::InitializationVector(iv));
                meta.push(CoreMetadata::Confidentiality(MetaConfidentiality { hash: sh }));
                proof {
                    assert(final(meta)@ =~= old(meta)@ + seq![
                        CoreMetadataV::InitializationVector(iv),
                        CoreMetadataV::Confidentiality(
                            MetaConfidentiality { hash: k.spec_short_hash() },
                        ),
                    ]);
                }
                Ok(out)
            },
        }
    }

    /// Ingress transform: if the event is sealed, find the key, demand the
    /// vector, and unseal; a vector without a confidentiality marker is
    /// unreadable.
    #[verifier::rlimit(100)]
    #[verifier::spinoff_prover]
    pub fn data_as_overlay(
        &self,
        chain: &Chain,
        confidentiality: Option<MetaConfidentiality>,
        iv: Option<InitializationVector>,
        with: Vec<u8>,
        session: &AteSession,
        read: &ReadOption,
        parent: Option<MetaParent>,
    ) -> (r: Result<Vec<u8>, TransformError>)
        requires
            chain.wf(),
        ensures
            match r {
                Ok(out) => spec_overlay(
                    chain.indexer.auths_view(),
                    chain.indexer.parents.contents(),
                    *read,
                    parent,
                    confidentiality,
                    iv,
                    session.read_keys@,
                    with@,
                ) == Ok::<Seq<u8>, TransformError>(out@),
                Err(e) => spec_overlay(
                    chain.indexer.auths_view(),
                    chain.indexer.parents.contents(),
                    *read,
                    parent,
                    confidentiality,
                    iv,
                    session.read_keys@,
                    with@,
                ) == Err::<Seq<u8>, TransformError>(e),
            },
    {
        match confidentiality {
            Some(conf) => {
                let ivr = iv.as_ref();
                match self.get_encrypt_key(chain, read, parent, &conf, ivr, session) {
                    Ok(Some(k)) => {
                        match iv {
                            Some(v) => {
                                let out = seal(&k, &v, &with);
                                Ok(out)
                            },
                            None => Err(TransformError::NoIvPresent),
                        }
                    },
                    Ok(None) => Ok(with),
                    Err(e) => Err(e),
                }
            },
            None => {
                if iv.is_some() {
                    Err(TransformError::UnspecifiedReadability)
                } else {
                    Ok(with)
                }
            },
        }
    }
}

/// Finding a key in an extended list first looks in the prefix.
pub proof fn lemma_find_first_snoc(keys: Seq<EncryptKey>, k: EncryptKey, h: AteHash)
    ensures
        find_first_key(keys.push(k), h) == (match find_first_key(keys, h) {
            Some(f) => Some(f),
            None => if k.spec_hash() == h {
                Some(k)
            } else {
                None
            },
        }),
    decreases keys.len(),
{
    if keys.len() == 0 {
        assert(keys.push(k)[0] == k);
        assert(keys.push(k).drop_first() =~= Seq::<EncryptKey>::empty());
    } else {
        assert(keys.push(k)[0] == keys[0]);
        assert(keys.push(k).drop_first() =~= keys.drop_first().push(k));
        lemma_find_first_snoc(keys.drop_first(), k, h);
    }
}

/// A list holds a key with the named hash exactly when the search finds one.
pub proof fn lemma_find_first_has(keys: Seq<EncryptKey>, h: AteHash)
    ensures
        (find_first_key(keys, h) is Some) == spec_has_read_key(keys, h),
        match find_first_key(keys, h) {
            Some(k) => keys.contains(k) && k.spec_hash() == h,
            None => true,
        },
    decreases keys.len(),
{
    if keys.len() == 0 {
    } else if keys[0].spec_hash() == h {
        assert(spec_has_read_key(keys, h));
    } else {
        lemma_find_first_has(keys.drop_first(), h);
        if spec_has_read_key(keys, h) {
            let i = choose|i: int|
                0 <= i < keys.len() && (#[trigger] keys[i]).spec_hash() == h;
            assert(keys.drop_first()[i - 1] == keys[i]);
            assert(spec_has_read_key(keys.drop_first(), h));
        }
        match find_first_key(keys.drop_first(), h) {
            Some(k) => {
                let i = choose|i: int|
                    0 <= i < keys.drop_first().len() && keys.drop_first()[i] == k;
                assert(keys[i + 1] == k);
            },
            None => {},
        }
    }
}

} // verus!
