//! Per-event metadata: authorization and confidentiality policies, signatures,
//! parent links, tombstones and the other tagged variants an event header
//! carries.

use vstd::prelude::*;

use crate::hashing::AteHash;
use crate::header::PrimaryKey;
use crate::time::ChainTimestamp;

verus! {

/// A 128-bit symmetric encryption key.
#[derive(Clone, Copy, Debug, Hash, PartialEq, Eq, Structural)]
pub struct EncryptKey {
    pub val: u128,
}

/// Stored alongside a `Specific` read policy: transmuting it against the
/// session's read key yields the per-event encryption key.
#[derive(Clone, Copy, Debug, Hash, PartialEq, Eq, Structural)]
pub struct DerivedSecret {
    pub val: u128,
}

/// An initialization vector for payload encryption.
#[derive(Clone, Copy, Debug, Hash, PartialEq, Eq, Structural)]
pub struct InitializationVector {
    pub val: u128,
}

/// The public half of a signing key; its hash names it in write policies.
#[derive(Clone, Copy, Debug, Hash, PartialEq, Eq, Structural)]
pub struct PublicSignKey {
    pub material: u128,
}

/// Who may read the payload of an event.
#[derive(Clone, Copy, Debug, PartialEq, Eq)]
pub enum ReadOption {
    /// Resolve upward through the parent chain.
    Inherit,
    /// Anyone; an optional session key still encrypts the payload.
    Everyone(Option<EncryptKey>),
    /// Only holders of the read key with this hash; the derived secret
    /// transmutes that key into the per-event key.
    Specific(AteHash, DerivedSecret),
}

/// Who may write under a key: the policy an event's signatures are checked
/// against.
#[derive(Clone, Debug)]
pub enum WriteOption {
    /// Resolve upward through the parent chain.
    Inherit,
    /// No further writes are admitted.
    Nobody,
    /// Only the signing key with this hash.
    Specific(AteHash),
    /// Any signing key whose hash is listed.
    AnyOf(Vec<AteHash>),
}

/// The spec-level value of a `WriteOption`.
#[verifier::ext_equal]
pub enum WriteOptionV {
    Inherit,
    Nobody,
    Specific(AteHash),
    AnyOf(Seq<AteHash>),
}

impl View for WriteOption {
    type V = WriteOptionV;

    open spec fn view(&self) -> WriteOptionV {
        match self {
            WriteOption::Inherit => WriteOptionV::Inherit,
            WriteOption::Nobody => WriteOptionV::Nobody,
            WriteOption::Specific(h) => WriteOptionV::Specific(*h),
            WriteOption::AnyOf(v) => WriteOptionV::AnyOf(v@),
        }
    }
}

impl WriteOptionV {
    /// Whether a signature by the key with hash `h` satisfies this policy.
    pub open spec fn admits(self, h: AteHash) -> bool {
        match self {
            WriteOptionV::Inherit => false,
            WriteOptionV::Nobody => false,
            WriteOptionV::Specific(k) => k == h,
            WriteOptionV::AnyOf(ks) => ks.contains(h),
        }
    }
}

impl WriteOption {
    /// Whether a signature by the key with hash `h` satisfies this policy.
    pub fn admits(&self, h: AteHash) -> (r: bool)
        ensures
            r == self@.admits(h),
    {
        match self {
            WriteOption::Inherit => false,
            WriteOption::Nobody => false,
            WriteOption::Specific(k) => k.val == h.val,
            WriteOption::AnyOf(ks) => {
                let n = ks.len();
                let mut i: usize = 0;
                let mut found = false;
                while i < n
                    invariant
                        n == ks@.len(),
                        i <= n,
                        found == exists|j: int| 0 <= j < i && ks@[j] == h,
                    decreases n - i,
                {
                    if ks[i].val == h.val {
                        found = true;
                    }
                    i = i + 1;
                }
                found
            },
        }
    }
}

/// The read/write policy pair attached to an event.
#[derive(Clone, Debug)]
pub struct MetaAuthorization {
    pub read: ReadOption,
    pub write: WriteOption,
}

/// The spec-level value of a `MetaAuthorization`.
#[verifier::ext_equal]
pub struct MetaAuthorizationV {
    pub read: ReadOption,
    pub write: WriteOptionV,
}

impl View for MetaAuthorization {
    type V = MetaAuthorizationV;

    open spec fn view(&self) -> MetaAuthorizationV {
        MetaAuthorizationV { read: self.read, write: self.write@ }
    }
}

/// The short hash of the derived per-event key, stored so ingress can detect
/// key confusion without revealing material.
#[derive(Clone, Copy, Debug, PartialEq, Eq, Structural)]
pub struct MetaConfidentiality {
    pub hash: AteHash,
}

/// A signature over an event hash, by the key whose hash is named.
#[derive(Clone, Copy, Debug, PartialEq, Eq, Structural)]
pub struct MetaSignature {
    pub signature: AteHash,
    pub public_key_hash: AteHash,
}

/// The set of key hashes an event should be signed with on egress.
#[derive(Clone, Debug)]
pub struct MetaSignWith {
    pub keys: Vec<AteHash>,
}

/// The collection a child event belongs to under its parent.
#[derive(Clone, Copy, Debug, PartialEq, Eq, Structural)]
pub struct MetaCollection {
    pub parent_id: PrimaryKey,
    pub collection_id: u64,
}

/// The parent link of an event.
#[derive(Clone, Copy, Debug, PartialEq, Eq, Structural)]
pub struct MetaParent {
    pub vec: MetaCollection,
}

/// One tagged metadata variant of an event header.
#[derive(Clone, Debug)]
pub enum CoreMetadata {
    Timestamp(ChainTimestamp),
    Authorization(MetaAuthorization),
    Confidentiality(MetaConfidentiality),
    Signature(MetaSignature),
    SignWith(MetaSignWith),
    PublicKey(PublicSignKey),
    Parent(MetaParent),
    Tombstone(PrimaryKey),
    Collection(MetaCollection),
    InitializationVector(InitializationVector),
    /// The hash of the payload's type name.
    TypeName(AteHash),
    DataHash(AteHash),
    /// Marks a reply to the request event with this key.
    Reply(PrimaryKey),
}

/// The spec-level value of a `CoreMetadata`.
#[verifier::ext_equal]
pub enum CoreMetadataV {
    Timestamp(ChainTimestamp),
    Authorization(MetaAuthorizationV),
    Confidentiality(MetaConfidentiality),
    Signature(MetaSignature),
    SignWith(Seq<AteHash>),
    PublicKey(PublicSignKey),
    Parent(MetaParent),
    Tombstone(PrimaryKey),
    Collection(MetaCollection),
    InitializationVector(InitializationVector),
    TypeName(AteHash),
    DataHash(AteHash),
    Reply(PrimaryKey),
}

impl DeepView for CoreMetadata {
    type V = CoreMetadataV;

    open spec fn deep_view(&self) -> CoreMetadataV {
        self.view()
    }
}

impl View for CoreMetadata {
    type V = CoreMetadataV;

    open spec fn view(&self) -> CoreMetadataV {
        match self {
            CoreMetadata::Timestamp(t) => CoreMetadataV::Timestamp(*t),
            CoreMetadata::Authorization(a) => CoreMetadataV::Authorization(a@),
            CoreMetadata::Confidentiality(c) => CoreMetadataV::Confidentiality(*c),
            CoreMetadata::Signature(s) => CoreMetadataV::Signature(*s),
            CoreMetadata::SignWith(s) => CoreMetadataV::SignWith(s.keys@),
            CoreMetadata::PublicKey(k) => CoreMetadataV::PublicKey(*k),
            CoreMetadata::Parent(p) => CoreMetadataV::Parent(*p),
            CoreMetadata::Tombstone(k) => CoreMetadataV::Tombstone(*k),
            CoreMetadata::Collection(c) => CoreMetadataV::Collection(*c),
            CoreMetadata::InitializationVector(iv) => CoreMetadataV::InitializationVector(*iv),
            CoreMetadata::TypeName(t) => CoreMetadataV::TypeName(*t),
            CoreMetadata::DataHash(h) => CoreMetadataV::DataHash(*h),
            CoreMetadata::Reply(k) => CoreMetadataV::Reply(*k),
        }
    }
}

/// The ordered list of metadata variants an event header carries.
#[derive(Clone, Debug)]
pub struct Metadata {
    pub core: Vec<CoreMetadata>,
}

impl View for Metadata {
    type V = Seq<CoreMetadataV>;

    open spec fn view(&self) -> Seq<CoreMetadataV> {
        self.core.deep_view()
    }
}

/// The first timestamp in the list, if any.
pub open spec fn spec_get_timestamp(s: Seq<CoreMetadataV>) -> Option<ChainTimestamp>
    decreases s.len(),
{
    if s.len() == 0 {
        None
    } else if s[0] is Timestamp {
        Some(s[0]->Timestamp_0)
    } else {
        spec_get_timestamp(s.drop_first())
    }
}

/// The first authorization in the list, if any.
pub open spec fn spec_get_authorization(s: Seq<CoreMetadataV>) -> Option<MetaAuthorizationV>
    decreases s.len(),
{
    if s.len() == 0 {
        None
    } else if s[0] is Authorization {
        Some(s[0]->Authorization_0)
    } else {
        spec_get_authorization(s.drop_first())
    }
}

/// The first confidentiality marker in the list, if any.
pub open spec fn spec_get_confidentiality(s: Seq<CoreMetadataV>) -> Option<MetaConfidentiality>
    decreases s.len(),
{
    if s.len() == 0 {
        None
    } else if s[0] is Confidentiality {
        Some(s[0]->Confidentiality_0)
    } else {
        spec_get_confidentiality(s.drop_first())
    }
}

/// The first parent link in the list, if any.
pub open spec fn spec_get_parent(s: Seq<CoreMetadataV>) -> Option<MetaParent>
    decreases s.len(),
{
    if s.len() == 0 {
        None
    } else if s[0] is Parent {
        Some(s[0]->Parent_0)
    } else {
        spec_get_parent(s.drop_first())
    }
}

/// The first tombstone marker in the list, if any.
pub open spec fn spec_get_tombstone(s: Seq<CoreMetadataV>) -> Option<PrimaryKey>
    decreases s.len(),
{
    if s.len() == 0 {
        None
    } else if s[0] is Tombstone {
        Some(s[0]->Tombstone_0)
    } else {
        spec_get_tombstone(s.drop_first())
    }
}

/// The first initialization vector in the list, if any.
pub open spec fn spec_get_iv(s: Seq<CoreMetadataV>) -> Option<InitializationVector>
    decreases s.len(),
{
    if s.len() == 0 {
        None
    } else if s[0] is InitializationVector {
        Some(s[0]->InitializationVector_0)
    } else {
        spec_get_iv(s.drop_first())
    }
}

/// The first payload hash in the list, if any.
pub open spec fn spec_get_data_hash(s: Seq<CoreMetadataV>) -> Option<AteHash>
    decreases s.len(),
{
    if s.len() == 0 {
        None
    } else if s[0] is DataHash {
        Some(s[0]->DataHash_0)
    } else {
        spec_get_data_hash(s.drop_first())
    }
}

/// The first public key carried in the list, if any.
pub open spec fn spec_get_public_key(s: Seq<CoreMetadataV>) -> Option<PublicSignKey>
    decreases s.len(),
{
    if s.len() == 0 {
        None
    } else if s[0] is PublicKey {
        Some(s[0]->PublicKey_0)
    } else {
        spec_get_public_key(s.drop_first())
    }
}

/// The first sign-with list, if any.
pub open spec fn spec_get_sign_with(s: Seq<CoreMetadataV>) -> Option<Seq<AteHash>>
    decreases s.len(),
{
    if s.len() == 0 {
        None
    } else if s[0] is SignWith {
        Some(s[0]->SignWith_0)
    } else {
        spec_get_sign_with(s.drop_first())
    }
}

/// The first type-name hash in the list, if any.
pub open spec fn spec_get_type_name(s: Seq<CoreMetadataV>) -> Option<AteHash>
    decreases s.len(),
{
    if s.len() == 0 {
        None
    } else if s[0] is TypeName {
        Some(s[0]->TypeName_0)
    } else {
        spec_get_type_name(s.drop_first())
    }
}

/// The first reply marker in the list, if any.
pub open spec fn spec_get_reply(s: Seq<CoreMetadataV>) -> Option<PrimaryKey>
    decreases s.len(),
{
    if s.len() == 0 {
        None
    } else if s[0] is Reply {
        Some(s[0]->Reply_0)
    } else {
        spec_get_reply(s.drop_first())
    }
}

/// All signatures in the list, in order.
pub open spec fn spec_signatures(s: Seq<CoreMetadataV>) -> Seq<MetaSignature>
    decreases s.len(),
{
    if s.len() == 0 {
        Seq::empty()
    } else if s[0] is Signature {
        seq![s[0]->Signature_0] + spec_signatures(s.drop_first())
    } else {
        spec_signatures(s.drop_first())
    }
}

impl Metadata {
    /// An empty metadata list.
    pub fn new() -> (r: Metadata)
        ensures
            r@ == Seq::<CoreMetadataV>::empty(),
    {
        let r = Metadata { core: Vec::new() };
        proof {
            assert(r@ =~= Seq::<CoreMetadataV>::empty());
        }
        r
    }

    /// Append one variant.
    pub fn push(&mut self, m: CoreMetadata)
        ensures
            final(self)@ == old(self)@ + seq![m@],
    {
        self.core.push(m);
        proof {
            assert(self@ =~= old(self)@ + seq![m@]);
        }
    }

    pub fn get_timestamp(&self) -> (r: Option<ChainTimestamp>)
        ensures
            r == spec_get_timestamp(self@),
    {
        let n = self.core.len();
        let mut i: usize = 0;
        proof {
            assert(self@.skip(0) =~= self@);
        }
        while i < n
            invariant
                n == self.core@.len(),
                i <= n,
                spec_get_timestamp(self@) == spec_get_timestamp(self@.skip(i as int)),
            decreases n - i,
        {
            proof {
                assert(self@.skip(i as int).drop_first() =~= self@.skip(i as int + 1));
                assert(self@.skip(i as int)[0] == self@[i as int]);
            }
            if let CoreMetadata::Timestamp(t) = &self.core[i] {
                return Some(*t);
            }
            i = i + 1;
        }
        proof {
            assert(self@.skip(n as int) =~= Seq::<CoreMetadataV>::empty());
        }
        None
    }

    pub fn get_authorization(&self) -> (r: Option<&MetaAuthorization>)
        ensures
            match r {
                Some(a) => spec_get_authorization(self@) == Some(a@),
                None => spec_get_authorization(self@) is None,
            },
    {
        let n = self.core.len();
        let mut i: usize = 0;
        proof {
            assert(self@.skip(0) =~= self@);
        }
        while i < n
            invariant
                n == self.core@.len(),
                i <= n,
                spec_get_authorization(self@) == spec_get_authorization(self@.skip(i as int)),
            decreases n - i,
        {
            proof {
                assert(self@.skip(i as int).drop_first() =~= self@.skip(i as int + 1));
                assert(self@.skip(i as int)[0] == self@[i as int]);
            }
            if let CoreMetadata::Authorization(a) = &self.core[i] {
                return Some(a);
            }
            i = i + 1;
        }
        proof {
            assert(self@.skip(n as int) =~= Seq::<CoreMetadataV>::empty());
        }
        None
    }

    pub fn get_confidentiality(&self) -> (r: Option<MetaConfidentiality>)
        ensures
            r == spec_get_confidentiality(self@),
    {
        let n = self.core.len();
        let mut i: usize = 0;
        proof {
            assert(self@.skip(0) =~= self@);
        }
        while i < n
            invariant
                n == self.core@.len(),
                i <= n,
                spec_get_confidentiality(self@) == spec_get_confidentiality(self@.skip(i as int)),
            decreases n - i,
        {
            proof {
                assert(self@.skip(i as int).drop_first() =~= self@.skip(i as int + 1));
                assert(self@.skip(i as int)[0] == self@[i as int]);
            }
            if let CoreMetadata::Confidentiality(c) = &self.core[i] {
                return Some(*c);
            }
            i = i + 1;
        }
        proof {
            assert(self@.skip(n as int) =~= Seq::<CoreMetadataV>::empty());
        }
        None
    }

    pub fn get_parent(&self) -> (r: Option<MetaParent>)
        ensures
            r == spec_get_parent(self@),
    {
        let n = self.core.len();
        let mut i: usize = 0;
        proof {
            assert(self@.skip(0) =~= self@);
        }
        while i < n
            invariant
                n == self.core@.len(),
                i <= n,
                spec_get_parent(self@) == spec_get_parent(self@.skip(i as int)),
            decreases n - i,
        {
            proof {
                assert(self@.skip(i as int).drop_first() =~= self@.skip(i as int + 1));
                assert(self@.skip(i as int)[0] == self@[i as int]);
            }
            if let CoreMetadata::Parent(p) = &self.core[i] {
                return Some(*p);
            }
            i = i + 1;
        }
        proof {
            assert(self@.skip(n as int) =~= Seq::<CoreMetadataV>::empty());
        }
        None
    }

    pub fn get_tombstone(&self) -> (r: Option<PrimaryKey>)
        ensures
            r == spec_get_tombstone(self@),
    {
        let n = self.core.len();
        let mut i: usize = 0;
        proof {
            assert(self@.skip(0) =~= self@);
        }
        while i < n
            invariant
                n == self.core@.len(),
                i <= n,
                spec_get_tombstone(self@) == spec_get_tombstone(self@.skip(i as int)),
            decreases n - i,
        {
            proof {
                assert(self@.skip(i as int).drop_first() =~= self@.skip(i as int + 1));
                assert(self@.skip(i as int)[0] == self@[i as int]);
            }
            if let CoreMetadata::Tombstone(k) = &self.core[i] {
                return Some(*k);
            }
            i = i + 1;
        }
        proof {
            assert(self@.skip(n as int) =~= Seq::<CoreMetadataV>::empty());
        }
        None
    }

    pub fn get_iv(&self) -> (r: Option<InitializationVector>)
        ensures
            r == spec_get_iv(self@),
    {
        let n = self.core.len();
        let mut i: usize = 0;
        proof {
            assert(self@.skip(0) =~= self@);
        }
        while i < n
            invariant
                n == self.core@.len(),
                i <= n,
                spec_get_iv(self@) == spec_get_iv(self@.skip(i as int)),
            decreases n - i,
        {
            proof {
                assert(self@.skip(i as int).drop_first() =~= self@.skip(i as int + 1));
                assert(self@.skip(i as int)[0] == self@[i as int]);
            }
            if let CoreMetadata::InitializationVector(iv) = &self.core[i] {
                return Some(*iv);
            }
            i = i + 1;
        }
        proof {
            assert(self@.skip(n as int) =~= Seq::<CoreMetadataV>::empty());
        }
        None
    }

    pub fn get_data_hash(&self) -> (r: Option<AteHash>)
        ensures
            r == spec_get_data_hash(self@),
    {
        let n = self.core.len();
        let mut i: usize = 0;
        proof {
            assert(self@.skip(0) =~= self@);
        }
        while i < n
            invariant
                n == self.core@.len(),
                i <= n,
                spec_get_data_hash(self@) == spec_get_data_hash(self@.skip(i as int)),
            decreases n - i,
        {
            proof {
                assert(self@.skip(i as int).drop_first() =~= self@.skip(i as int + 1));
                assert(self@.skip(i as int)[0] == self@[i as int]);
            }
            if let CoreMetadata::DataHash(h) = &self.core[i] {
                return Some(*h);
            }
            i = i + 1;
        }
        proof {
            assert(self@.skip(n as int) =~= Seq::<CoreMetadataV>::empty());
        }
        None
    }

    pub fn get_public_key(&self) -> (r: Option<PublicSignKey>)
        ensures
            r == spec_get_public_key(self@),
    {
        let n = self.core.len();
        let mut i: usize = 0;
        proof {
            assert(self@.skip(0) =~= self@);
        }
        while i < n
            invariant
                n == self.core@.len(),
                i <= n,
                spec_get_public_key(self@) == spec_get_public_key(self@.skip(i as int)),
            decreases n - i,
        {
            proof {
                assert(self@.skip(i as int).drop_first() =~= self@.skip(i as int + 1));
                assert(self@.skip(i as int)[0] == self@[i as int]);
            }
            if let CoreMetadata::PublicKey(k) = &self.core[i] {
                return Some(*k);
            }
            i = i + 1;
        }
        proof {
            assert(self@.skip(n as int) =~= Seq::<CoreMetadataV>::empty());
        }
        None
    }

    pub fn get_sign_with(&self) -> (r: Option<&MetaSignWith>)
        ensures
            match r {
                Some(s) => spec_get_sign_with(self@) == Some(s.keys@),
                None => spec_get_sign_with(self@) is None,
            },
    {
        let n = self.core.len();
        let mut i: usize = 0;
        proof {
            assert(self@.skip(0) =~= self@);
        }
        while i < n
            invariant
                n == self.core@.len(),
                i <= n,
                spec_get_sign_with(self@) == spec_get_sign_with(self@.skip(i as int)),
            decreases n - i,
        {
            proof {
                assert(self@.skip(i as int).drop_first() =~= self@.skip(i as int + 1));
                assert(self@.skip(i as int)[0] == self@[i as int]);
            }
            if let CoreMetadata::SignWith(s) = &self.core[i] {
                return Some(s);
            }
            i = i + 1;
        }
        proof {
            assert(self@.skip(n as int) =~= Seq::<CoreMetadataV>::empty());
        }
        None
    }

    pub fn get_type_name(&self) -> (r: Option<AteHash>)
        ensures
            r == spec_get_type_name(self@),
    {
        let n = self.core.len();
        let mut i: usize = 0;
        proof {
            assert(self@.skip(0) =~= self@);
        }
        while i < n
            invariant
                n == self.core@.len(),
                i <= n,
                spec_get_type_name(self@) == spec_get_type_name(self@.skip(i as int)),
            decreases n - i,
        {
            proof {
                assert(self@.skip(i as int).drop_first() =~= self@.skip(i as int + 1));
                assert(self@.skip(i as int)[0] == self@[i as int]);
            }
            if let CoreMetadata::TypeName(t) = &self.core[i] {
                return Some(*t);
            }
            i = i + 1;
        }
        proof {
            assert(self@.skip(n as int) =~= Seq::<CoreMetadataV>::empty());
        }
        None
    }

    pub fn get_reply(&self) -> (r: Option<PrimaryKey>)
        ensures
            r == spec_get_reply(self@),
    {
        let n = self.core.len();
        let mut i: usize = 0;
        proof {
            assert(self@.skip(0) =~= self@);
        }
        while i < n
            invariant
                n == self.core@.len(),
                i <= n,
                spec_get_reply(self@) == spec_get_reply(self@.skip(i as int)),
            decreases n - i,
        {
            proof {
                assert(self@.skip(i as int).drop_first() =~= self@.skip(i as int + 1));
                assert(self@.skip(i as int)[0] == self@[i as int]);
            }
            if let CoreMetadata::Reply(k) = &self.core[i] {
                return Some(*k);
            }
            i = i + 1;
        }
        proof {
            assert(self@.skip(n as int) =~= Seq::<CoreMetadataV>::empty());
        }
        None
    }

    /// All signatures carried by the event, in order.
    pub fn signatures(&self) -> (r: Vec<MetaSignature>)
        ensures
            r@ == spec_signatures(self@),
    {
        let n = self.core.len();
        let mut i: usize = 0;
        let mut out: Vec<MetaSignature> = Vec::new();
        proof {
            assert(self@.skip(0) =~= self@);
            assert(spec_signatures(self@) =~= out@ + spec_signatures(self@.skip(0)));
        }
        while i < n
            invariant
                n == self.core@.len(),
                i <= n,
                spec_signatures(self@) == out@ + spec_signatures(self@.skip(i as int)),
            decreases n - i,
        {
            proof {
                assert(self@.skip(i as int).drop_first() =~= self@.skip(i as int + 1));
                assert(self@.skip(i as int)[0] == self@[i as int]);
            }
            if let CoreMetadata::Signature(s) = &self.core[i] {
                out.push(*s);
            }
            proof {
                assert(spec_signatures(self@) =~= out@ + spec_signatures(self@.skip(i as int + 1)));
            }
            i = i + 1;
        }
        proof {
            assert(self@.skip(n as int) =~= Seq::<CoreMetadataV>::empty());
            assert(spec_signatures(self@) =~= out@);
        }
        out
    }
}

} // verus!
