//! Typed events: a header (primary key plus metadata list) and an optional
//! opaque payload. The event hash is the digest of the canonical header
//! encoding, so equal headers name the same event on every chain.

use vstd::prelude::*;

use crate::codec::{enc_u32, le_u32, lemma_u32_round_trip, push_u128, push_u32, push_u64,
    read_u128, read_u32, read_u64};
use crate::hashing::{hash_of, AteHash};
use crate::header::PrimaryKey;
use crate::meta::{CoreMetadata, CoreMetadataV, DerivedSecret, EncryptKey, InitializationVector,
    Metadata, MetaAuthorization, MetaCollection, MetaConfidentiality, MetaParent, MetaSignature,
    MetaSignWith, PublicSignKey, ReadOption, WriteOption};
use crate::time::ChainTimestamp;
use crate::wire::{dec_hashes, dec_key, dec_meta, dec_meta_list, dec_read, dec_write, enc_hashes,
    enc_key, enc_meta, enc_meta_list, enc_read, enc_write, lemma_dec_key, lemma_dec_meta_list,
    meta_encodable, meta_list_encodable, write_encodable};

verus! {

/// An event header: the addressed primary key, if any, and the ordered
/// metadata list.
#[derive(Debug)]
pub struct EventHeader {
    pub key: Option<PrimaryKey>,
    pub meta: Metadata,
}

/// The spec-level value of an `EventHeader`.
#[verifier::ext_equal]
pub struct EventHeaderV {
    pub key: Option<PrimaryKey>,
    pub meta: Seq<CoreMetadataV>,
}

impl View for EventHeader {
    type V = EventHeaderV;

    open spec fn view(&self) -> EventHeaderV {
        EventHeaderV { key: self.key, meta: self.meta@ }
    }
}

impl DeepView for EventHeader {
    type V = EventHeaderV;

    open spec fn deep_view(&self) -> EventHeaderV {
        self.view()
    }
}

/// The canonical encoding of a header: key, metadata count, metadata list.
pub open spec fn enc_header(h: EventHeaderV) -> Seq<u8> {
    enc_key(h.key) + enc_u32(h.meta.len() as u32) + enc_meta_list(h.meta)
}

/// Whether a header fits the wire limits.
pub open spec fn header_encodable(h: EventHeaderV) -> bool {
    meta_list_encodable(h.meta)
}

/// The identity of the event with header `h`.
#[verifier::opaque]
pub open spec fn header_hash(h: EventHeaderV) -> AteHash {
    AteHash { val: hash_of(enc_header(h)) }
}

/// Decode a header from an exact buffer; anything but a whole well-formed
/// encoding yields nothing.
pub open spec fn dec_header(s: Seq<u8>) -> Option<EventHeaderV> {
    match dec_key(s, 0) {
        Some((k, p)) => if p + 4 <= s.len() {
            let count = le_u32(s.subrange(p, p + 4)) as nat;
            match dec_meta_list(s, p + 4, count) {
                Some((ms, p2)) => if p2 == s.len() {
                    Some(EventHeaderV { key: k, meta: ms })
                } else {
                    None
                },
                None => None,
            }
        } else {
            None
        },
        None => None,
    }
}

/// Decoding the canonical encoding of a header gives the header back.
#[verifier::rlimit(100)]
#[verifier::spinoff_prover]
pub proof fn lemma_header_round_trip(h: EventHeaderV)
    requires
        header_encodable(h),
    ensures
        dec_header(enc_header(h)) == Some(h),
{
    let s = enc_header(h);
    let ek = enc_key(h.key);
    let ec = enc_u32(h.meta.len() as u32);
    let em = enc_meta_list(h.meta);
    assert(s.subrange(0, ek.len() as int) =~= ek);
    lemma_dec_key(s, 0, h.key);
    let p = ek.len() as int;
    assert(s.subrange(p, p + 4) =~= ec);
    lemma_u32_round_trip(h.meta.len() as u32);
    assert(le_u32(s.subrange(p, p + 4)) == h.meta.len());
    assert(s.subrange(p + 4, p + 4 + (em.len() as int)) =~= em);
    lemma_dec_meta_list(s, p + 4, h.meta);
    assert(p + 4 + (em.len() as int) == s.len());
}

/// Append the encoding of a read policy.
fn push_read(out: &mut Vec<u8>, r: &ReadOption)
    ensures
        final(out)@ == old(out)@ + enc_read(*r),
{
    match r {
        ReadOption::Inherit => {
            out.push(0u8);
        },
        ReadOption::Everyone(None) => {
            out.push(1u8);
        },
        ReadOption::Everyone(Some(k)) => {
            out.push(2u8);
            push_u128(out, k.val);
        },
        ReadOption::Specific(h, d) => {
            out.push(3u8);
            push_u64(out, h.val);
            push_u128(out, d.val);
        },
    }
    proof {
        assert(out@ =~= old(out)@ + enc_read(*r));
    }
}

/// `enc_hashes` grows by one encoded hash when the list does.
#[verifier::rlimit(100)]
pub proof fn lemma_enc_hashes_snoc(ks: Seq<AteHash>, h: AteHash)
    ensures
        enc_hashes(ks.push(h)) == enc_hashes(ks) + crate::codec::enc_u64(h.val),
    decreases ks.len(),
{
    broadcast use vstd::seq_lib::group_seq_properties;

    if ks.len() == 0 {
        assert(ks.push(h).drop_first() =~= Seq::<AteHash>::empty());
        assert(enc_hashes(ks.push(h)) =~= enc_hashes(ks) + crate::codec::enc_u64(h.val));
    } else {
        assert(ks.push(h).drop_first() =~= ks.drop_first().push(h));
        lemma_enc_hashes_snoc(ks.drop_first(), h);
        assert(enc_hashes(ks.push(h)) =~= enc_hashes(ks) + crate::codec::enc_u64(h.val));
    }
}

/// Append the encodings of a list of hashes, without a count prefix.
fn push_hashes(out: &mut Vec<u8>, ks: &Vec<AteHash>)
    ensures
        final(out)@ == old(out)@ + enc_hashes(ks@),
{
    let n = ks.len();
    let mut i: usize = 0;
    proof {
        assert(ks@.take(0) =~= Seq::<AteHash>::empty());
        assert(out@ =~= out@ + enc_hashes(ks@.take(0)));
    }
    while i < n
        invariant
            n == ks@.len(),
            i <= n,
            out@ == old(out)@ + enc_hashes(ks@.take(i as int)),
        decreases n - i,
    {
        push_u64(out, ks[i].val);
        proof {
            assert(ks@.take(i as int + 1) =~= ks@.take(i as int).push(ks@[i as int]));
            lemma_enc_hashes_snoc(ks@.take(i as int), ks@[i as int]);
        }
        i = i + 1;
    }
    proof {
        assert(ks@.take(n as int) =~= ks@);
    }
}

/// Append the encoding of a write policy.
fn push_write(out: &mut Vec<u8>, w: &WriteOption)
    requires
        write_encodable(w@),
    ensures
        final(out)@ == old(out)@ + enc_write(w@),
{
    match w {
        WriteOption::Inherit => {
            out.push(0u8);
        },
        WriteOption::Nobody => {
            out.push(1u8);
        },
        WriteOption::Specific(h) => {
            out.push(2u8);
            push_u64(out, h.val);
        },
        WriteOption::AnyOf(ks) => {
            out.push(3u8);
            push_u32(out, ks.len() as u32);
            push_hashes(out, ks);
        },
    }
    proof {
        assert(out@ =~= old(out)@ + enc_write(w@));
    }
}

/// Append the encoding of one metadata variant.
fn push_meta(out: &mut Vec<u8>, m: &CoreMetadata)
    requires
        meta_encodable(m@),
    ensures
        final(out)@ == old(out)@ + enc_meta(m@),
{
    match m {
        CoreMetadata::Timestamp(t) => {
            out.push(1u8);
            push_u64(out, t.time_since_epoch_ms);
        },
        CoreMetadata::Authorization(a) => {
            out.push(2u8);
            push_read(out, &a.read);
            push_write(out, &a.write);
        },
        CoreMetadata::Confidentiality(c) => {
            out.push(3u8);
            push_u64(out, c.hash.val);
        },
        CoreMetadata::Signature(s) => {
            out.push(4u8);
            push_u64(out, s.signature.val);
            push_u64(out, s.public_key_hash.val);
        },
        CoreMetadata::SignWith(s) => {
            out.push(5u8);
            push_u32(out, s.keys.len() as u32);
            push_hashes(out, &s.keys);
        },
        CoreMetadata::PublicKey(k) => {
            out.push(6u8);
            push_u128(out, k.material);
        },
        CoreMetadata::Parent(p) => {
            out.push(7u8);
            push_u128(out, p.vec.parent_id.val);
            push_u64(out, p.vec.collection_id);
        },
        CoreMetadata::Tombstone(k) => {
            out.push(8u8);
            push_u128(out, k.val);
        },
        CoreMetadata::Collection(c) => {
            out.push(9u8);
            push_u128(out, c.parent_id.val);
            push_u64(out, c.collection_id);
        },
        CoreMetadata::InitializationVector(iv) => {
            out.push(10u8);
            push_u128(out, iv.val);
        },
        CoreMetadata::TypeName(t) => {
            out.push(11u8);
            push_u64(out, t.val);
        },
        CoreMetadata::DataHash(h) => {
            out.push(12u8);
            push_u64(out, h.val);
        },
        CoreMetadata::Reply(k) => {
            out.push(13u8);
            push_u128(out, k.val);
        },
    }
    proof {
        assert(out@ =~= old(out)@ + enc_meta(m@));
    }
}

/// `enc_meta_list` grows by one encoded variant when the list does.
#[verifier::rlimit(100)]
pub proof fn lemma_enc_meta_list_snoc(ms: Seq<CoreMetadataV>, m: CoreMetadataV)
    ensures
        enc_meta_list(ms.push(m)) == enc_meta_list(ms) + enc_meta(m),
    decreases ms.len(),
{
    broadcast use vstd::seq_lib::group_seq_properties;

    assert(ms.push(m)[0] == if ms.len() == 0 { m } else { ms[0] });
    if ms.len() == 0 {
        assert(ms.push(m).drop_first() =~= Seq::<CoreMetadataV>::empty());
        assert(enc_meta_list(ms) =~= Seq::<u8>::empty());
        assert(enc_meta_list(ms.push(m)) =~= enc_meta_list(ms) + enc_meta(m));
    } else {
        assert(ms.push(m).drop_first() =~= ms.drop_first().push(m));
        lemma_enc_meta_list_snoc(ms.drop_first(), m);
        assert(enc_meta_list(ms.push(m)) =~= enc_meta_list(ms) + enc_meta(m));
    }
}

/// Serialize a header into its canonical byte encoding.
pub fn encode_header(h: &EventHeader) -> (r: Vec<u8>)
    requires
        header_encodable(h@),
    ensures
        r@ == enc_header(h@),
{
    let mut out: Vec<u8> = Vec::new();
    match &h.key {
        None => {
            out.push(0u8);
        },
        Some(k) => {
            out.push(1u8);
            push_u128(&mut out, k.val);
        },
    }
    proof {
        assert(out@ =~= enc_key(h@.key));
    }
    push_u32(&mut out, h.meta.core.len() as u32);
    let n = h.meta.core.len();
    let mut i: usize = 0;
    proof {
        assert(h.meta@.take(0) =~= Seq::<CoreMetadataV>::empty());
        assert(out@ =~= enc_key(h@.key) + enc_u32(h@.meta.len() as u32) + enc_meta_list(
            h.meta@.take(0),
        ));
    }
    while i < n
        invariant
            n == h.meta.core@.len(),
            i <= n,
            header_encodable(h@),
            out@ == enc_key(h@.key) + enc_u32(h@.meta.len() as u32) + enc_meta_list(
                h.meta@.take(i as int),
            ),
        decreases n - i,
    {
        proof {
            assert(h.meta@[i as int] == h.meta.core@[i as int]@);
            assert(meta_encodable(h.meta@[i as int]));
        }
        push_meta(&mut out, &h.meta.core[i]);
        proof {
            assert(h.meta@.take(i as int + 1) =~= h.meta@.take(i as int).push(h.meta@[i as int]));
            lemma_enc_meta_list_snoc(h.meta@.take(i as int), h.meta@[i as int]);
        }
        i = i + 1;
    }
    proof {
        assert(h.meta@.take(n as int) =~= h.meta@);
    }
    out
}

/// Compute the identity of the event with header `h`.
pub fn compute_event_hash(h: &EventHeader) -> (r: AteHash)
    requires
        header_encodable(h@),
    ensures
        r == header_hash(h@),
{
    proof {
        reveal(header_hash);
    }
    let bytes = encode_header(h);
    AteHash::from_bytes(bytes.as_slice())
}

/// A whole event: header plus optional opaque payload. Tombstones carry no
/// payload.
#[derive(Debug)]
pub struct EventData {
    pub header: EventHeader,
    pub data: Option<Vec<u8>>,
}

/// The spec-level value of an `EventData`.
#[verifier::ext_equal]
pub struct EventDataV {
    pub header: EventHeaderV,
    pub data: Option<Seq<u8>>,
}

impl DeepView for EventData {
    type V = EventDataV;

    open spec fn deep_view(&self) -> EventDataV {
        self.view()
    }
}

impl View for EventData {
    type V = EventDataV;

    open spec fn view(&self) -> EventDataV {
        EventDataV {
            header: self.header@,
            data: match self.data {
                Some(ref d) => Some(d@),
                None => None,
            },
        }
    }
}

/// Whether the payload matches the data hash the header declares: a payload
/// must hash to the declared value, and a declared value demands a payload
/// unless the event is a tombstone.
pub open spec fn data_hash_ok(e: EventDataV) -> bool {
    match e.data {
        Some(d) => crate::meta::spec_get_data_hash(e.header.meta) == Some(
            AteHash { val: hash_of(d) },
        ),
        None => crate::meta::spec_get_data_hash(e.header.meta) is None,
    }
}

/// Check an event's payload against its declared data hash.
pub fn check_data_hash(e: &EventData) -> (r: bool)
    ensures
        r == data_hash_ok(e@),
{
    let declared = e.header.meta.get_data_hash();
    match &e.data {
        Some(d) => {
            let actual = AteHash::from_bytes(d.as_slice());
            match declared {
                Some(h) => h.val == actual.val,
                None => false,
            }
        },
        None => declared.is_none(),
    }
}


/// Parse a read policy at `pos`.
fn parse_read(buf: &Vec<u8>, pos: usize) -> (r: Option<(ReadOption, usize)>)
    requires
        pos <= buf@.len(),
    ensures
        match r {
            Some((v, p)) => dec_read(buf@, pos as int) == Some((v, p as int)) && pos < p
                <= buf@.len(),
            None => dec_read(buf@, pos as int) is None,
        },
{
    let n = buf.len();
    if pos >= n {
        return None;
    }
    let tag = buf[pos];
    if tag == 0 {
        Some((ReadOption::Inherit, pos + 1))
    } else if tag == 1 {
        Some((ReadOption::Everyone(None), pos + 1))
    } else if tag == 2 {
        if n - pos >= 17 {
            let k = read_u128(buf, pos + 1);
            Some((ReadOption::Everyone(Some(EncryptKey { val: k })), pos + 17))
        } else {
            None
        }
    } else if tag == 3 {
        if n - pos >= 25 {
            let h = read_u64(buf, pos + 1);
            let d = read_u128(buf, pos + 9);
            Some((ReadOption::Specific(AteHash { val: h }, DerivedSecret { val: d }), pos + 25))
        } else {
            None
        }
    } else {
        None
    }
}

/// Parse `count` hashes at `pos`.
fn parse_hashes(buf: &Vec<u8>, pos: usize, count: u32) -> (r: Option<(Vec<AteHash>, usize)>)
    requires
        pos <= buf@.len(),
    ensures
        match r {
            Some((v, p)) => dec_hashes(buf@, pos as int, count as nat) == Some((v@, p as int))
                && pos <= p <= buf@.len(),
            None => dec_hashes(buf@, pos as int, count as nat) is None,
        },
{
    let n = buf.len();
    let mut out: Vec<AteHash> = Vec::new();
    let mut cur = pos;
    let mut i: u32 = 0;
    proof {
        assert(out@ + Seq::<AteHash>::empty() =~= out@);
    }
    while i < count
        invariant
            pos <= cur <= buf@.len(),
            n == buf@.len(),
            i <= count,
            match dec_hashes(buf@, cur as int, (count - i) as nat) {
                Some((t, p)) => dec_hashes(buf@, pos as int, count as nat) == Some(
                    (out@ + t, p),
                ),
                None => dec_hashes(buf@, pos as int, count as nat) is None,
            },
        decreases count - i,
    {
        if n - cur < 8 {
            return None;
        }
        let h = AteHash { val: read_u64(buf, cur) };
        let ghost prev = out@;
        out.push(h);
        proof {
            assert(out@ =~= prev.push(h));
            match dec_hashes(buf@, cur as int + 8, (count - i - 1) as nat) {
                Some((t, p)) => {
                    assert(prev + (seq![h] + t) =~= prev.push(h) + t);
                },
                None => {},
            }
        }
        cur = cur + 8;
        i = i + 1;
    }
    proof {
        assert(out@ + Seq::<AteHash>::empty() =~= out@);
    }
    Some((out, cur))
}

/// Parse a write policy at `pos`.
fn parse_write(buf: &Vec<u8>, pos: usize) -> (r: Option<(WriteOption, usize)>)
    requires
        pos <= buf@.len(),
    ensures
        match r {
            Some((v, p)) => dec_write(buf@, pos as int) == Some((v@, p as int)) && pos < p
                <= buf@.len(),
            None => dec_write(buf@, pos as int) is None,
        },
{
    let n = buf.len();
    if pos >= n {
        return None;
    }
    let tag = buf[pos];
    if tag == 0 {
        Some((WriteOption::Inherit, pos + 1))
    } else if tag == 1 {
        Some((WriteOption::Nobody, pos + 1))
    } else if tag == 2 {
        if n - pos >= 9 {
            let h = read_u64(buf, pos + 1);
            Some((WriteOption::Specific(AteHash { val: h }), pos + 9))
        } else {
            None
        }
    } else if tag == 3 {
        if n - pos >= 5 {
            let count = read_u32(buf, pos + 1);
            match parse_hashes(buf, pos + 5, count) {
                Some((ks, p)) => Some((WriteOption::AnyOf(ks), p)),
                None => None,
            }
        } else {
            None
        }
    } else {
        None
    }
}

/// Parse one metadata variant at `pos`.
fn parse_meta(buf: &Vec<u8>, pos: usize) -> (r: Option<(CoreMetadata, usize)>)
    requires
        pos <= buf@.len(),
    ensures
        match r {
            Some((m, p)) => dec_meta(buf@, pos as int) == Some((m@, p as int)) && pos < p
                <= buf@.len(),
            None => dec_meta(buf@, pos as int) is None,
        },
{
    let n = buf.len();
    if pos >= n {
        return None;
    }
    let tag = buf[pos];
    let body = pos + 1;
    if tag == 1 {
        if n - body >= 8 {
            let v = read_u64(buf, body);
            Some((CoreMetadata::Timestamp(ChainTimestamp { time_since_epoch_ms: v }), body + 8))
        } else {
            None
        }
    } else if tag == 2 {
        match parse_read(buf, body) {
            Some((rd, p1)) => match parse_write(buf, p1) {
                Some((wr, p2)) => Some(
                    (CoreMetadata::Authorization(MetaAuthorization { read: rd, write: wr }), p2),
                ),
                None => None,
            },
            None => None,
        }
    } else if tag == 3 {
        if n - body >= 8 {
            let v = read_u64(buf, body);
            Some(
                (
                    CoreMetadata::Confidentiality(
                        MetaConfidentiality { hash: AteHash { val: v } },
                    ),
                    body + 8,
                ),
            )
        } else {
            None
        }
    } else if tag == 4 {
        if n - body >= 16 {
            let sig = read_u64(buf, body);
            let pk = read_u64(buf, body + 8);
            Some(
                (
                    CoreMetadata::Signature(
                        MetaSignature {
                            signature: AteHash { val: sig },
                            public_key_hash: AteHash { val: pk },
                        },
                    ),
                    body + 16,
                ),
            )
        } else {
            None
        }
    } else if tag == 5 {
        if n - body >= 4 {
            let count = read_u32(buf, body);
            match parse_hashes(buf, body + 4, count) {
                Some((ks, p)) => Some((CoreMetadata::SignWith(MetaSignWith { keys: ks }), p)),
                None => None,
            }
        } else {
            None
        }
    } else if tag == 6 {
        if n - body >= 16 {
            let v = read_u128(buf, body);
            Some((CoreMetadata::PublicKey(PublicSignKey { material: v }), body + 16))
        } else {
            None
        }
    } else if tag == 7 {
        if n - body >= 24 {
            let pid = read_u128(buf, body);
            let cid = read_u64(buf, body + 16);
            Some(
                (
                    CoreMetadata::Parent(
                        MetaParent {
                            vec: MetaCollection {
                                parent_id: PrimaryKey { val: pid },
                                collection_id: cid,
                            },
                        },
                    ),
                    body + 24,
                ),
            )
        } else {
            None
        }
    } else if tag == 8 {
        if n - body >= 16 {
            let v = read_u128(buf, body);
            Some((CoreMetadata::Tombstone(PrimaryKey { val: v }), body + 16))
        } else {
            None
        }
    } else if tag == 9 {
        if n - body >= 24 {
            let pid = read_u128(buf, body);
            let cid = read_u64(buf, body + 16);
            Some(
                (
                    CoreMetadata::Collection(
                        MetaCollection { parent_id: PrimaryKey { val: pid }, collection_id: cid },
                    ),
                    body + 24,
                ),
            )
        } else {
            None
        }
    } else if tag == 10 {
        if n - body >= 16 {
            let v = read_u128(buf, body);
            Some(
                (
                    CoreMetadata::InitializationVector(InitializationVector { val: v }),
                    body + 16,
                ),
            )
        } else {
            None
        }
    } else if tag == 11 {
        if n - body >= 8 {
            let v = read_u64(buf, body);
            Some((CoreMetadata::TypeName(AteHash { val: v }), body + 8))
        } else {
            None
        }
    } else if tag == 12 {
        if n - body >= 8 {
            let v = read_u64(buf, body);
            Some((CoreMetadata::DataHash(AteHash { val: v }), body + 8))
        } else {
            None
        }
    } else if tag == 13 {
        if n - body >= 16 {
            let v = read_u128(buf, body);
            Some((CoreMetadata::Reply(PrimaryKey { val: v }), body + 16))
        } else {
            None
        }
    } else {
        None
    }
}

/// Parse `count` metadata variants at `pos`.
fn parse_meta_list(buf: &Vec<u8>, pos: usize, count: u32) -> (r: Option<(Vec<CoreMetadata>, usize)>)
    requires
        pos <= buf@.len(),
    ensures
        match r {
            Some((v, p)) => dec_meta_list(buf@, pos as int, count as nat) == Some(
                (v.deep_view(), p as int),
            ) && pos <= p <= buf@.len(),
            None => dec_meta_list(buf@, pos as int, count as nat) is None,
        },
{
    let n = buf.len();
    let mut out: Vec<CoreMetadata> = Vec::new();
    let mut cur = pos;
    let mut i: u32 = 0;
    while i < count
        invariant
            pos <= cur <= buf@.len(),
            n == buf@.len(),
            i <= count,
            match dec_meta_list(buf@, cur as int, (count - i) as nat) {
                Some((t, p)) => dec_meta_list(buf@, pos as int, count as nat) == Some(
                    (out.deep_view() + t, p),
                ),
                None => dec_meta_list(buf@, pos as int, count as nat) is None,
            },
        decreases count - i,
    {
        match parse_meta(buf, cur) {
            Some((m, p)) => {
                let ghost prev = out.deep_view();
                out.push(m);
                proof {
                    assert(out.deep_view() =~= prev.push(m@));
                    match dec_meta_list(buf@, p as int, (count - i - 1) as nat) {
                        Some((t, p2)) => {
                            assert(prev + (seq![m@] + t) =~= prev.push(m@) + t);
                        },
                        None => {},
                    }
                }
                cur = p;
            },
            None => {
                return None;
            },
        }
        i = i + 1;
    }
    proof {
        assert(out.deep_view() + Seq::<CoreMetadataV>::empty() =~= out.deep_view());
    }
    Some((out, cur))
}

/// Parse a header from an exact buffer, as `dec_header` reads it.
pub fn decode_header(buf: &Vec<u8>) -> (r: Option<EventHeader>)
    ensures
        match r {
            Some(h) => dec_header(buf@) == Some(h@),
            None => dec_header(buf@) is None,
        },
{
    let n = buf.len();
    if n < 1 {
        return None;
    }
    let tag = buf[0];
    let (key, p) = if tag == 0 {
        (None, 1usize)
    } else if tag == 1 {
        if n >= 17 {
            let v = read_u128(buf, 1);
            (Some(PrimaryKey { val: v }), 17usize)
        } else {
            return None;
        }
    } else {
        return None;
    };
    proof {
        assert(dec_key(buf@, 0) == Some((key, p as int)));
    }
    if n - p < 4 {
        return None;
    }
    let count = read_u32(buf, p);
    match parse_meta_list(buf, p + 4, count) {
        Some((ms, p2)) => {
            if p2 == n {
                Some(EventHeader { key, meta: Metadata { core: ms } })
            } else {
                None
            }
        },
        None => None,
    }
}


/// The metadata list without its signature entries: what a signature covers.
pub open spec fn strip_sigs(s: Seq<CoreMetadataV>) -> Seq<CoreMetadataV>
    decreases s.len(),
{
    if s.len() == 0 {
        Seq::empty()
    } else {
        strip_sigs(s.drop_last()) + (if s.last() is Signature {
            Seq::<CoreMetadataV>::empty()
        } else {
            seq![s.last()]
        })
    }
}

/// Stripping keeps a list within the wire limits.
pub proof fn lemma_strip_encodable(s: Seq<CoreMetadataV>)
    requires
        meta_list_encodable(s),
    ensures
        meta_list_encodable(strip_sigs(s)),
        strip_sigs(s).len() <= s.len(),
    decreases s.len(),
{
    if s.len() > 0 {
        assert(meta_list_encodable(s.drop_last())) by {
            assert(forall|i: int|
                0 <= i < s.drop_last().len() ==> (#[trigger] s.drop_last()[i]) == s[i]);
        }
        lemma_strip_encodable(s.drop_last());
        let t = strip_sigs(s.drop_last());
        if !(s.last() is Signature) {
            assert(meta_encodable(s[s.len() - 1]));
            assert forall|i: int| 0 <= i < strip_sigs(s).len() implies meta_encodable(
                #[trigger] strip_sigs(s)[i],
            ) by {
                if i < t.len() {
                    assert(strip_sigs(s)[i] == t[i]);
                } else {
                    assert(strip_sigs(s)[i] == s.last());
                }
            }
        }
    }
}

/// Appending signatures leaves the stripped list unchanged.
pub proof fn lemma_strip_push_sig(s: Seq<CoreMetadataV>, m: CoreMetadataV)
    ensures
        m is Signature ==> strip_sigs(s.push(m)) == strip_sigs(s),
        !(m is Signature) ==> strip_sigs(s.push(m)) == strip_sigs(s) + seq![m],
{
    assert(s.push(m).drop_last() =~= s);
    assert(s.push(m).last() == m);
    if m is Signature {
        assert(strip_sigs(s.push(m)) =~= strip_sigs(s));
    }
}

/// A list without signature entries strips to itself.
pub proof fn lemma_strip_id(s: Seq<CoreMetadataV>)
    requires
        forall|i: int| 0 <= i < s.len() ==> !((#[trigger] s[i]) is Signature),
    ensures
        strip_sigs(s) == s,
    decreases s.len(),
{
    if s.len() > 0 {
        assert(forall|i: int|
            0 <= i < s.drop_last().len() ==> (#[trigger] s.drop_last()[i]) == s[i]);
        lemma_strip_id(s.drop_last());
        assert(!(s.last() is Signature));
        assert(strip_sigs(s) =~= s.drop_last() + seq![s.last()]);
        assert(s.drop_last() + seq![s.last()] =~= s);
    }
}

/// The hash a signature covers: the header with its signature entries
/// removed.
pub open spec fn sig_base(h: EventHeaderV) -> AteHash {
    header_hash(EventHeaderV { key: h.key, meta: strip_sigs(h.meta) })
}

/// Build the header a signature covers and compute its hash.
pub fn compute_sig_base(h: &EventHeader) -> (r: AteHash)
    requires
        header_encodable(h@),
    ensures
        r == sig_base(h@),
{
    let n = h.meta.core.len();
    let mut out: Vec<CoreMetadata> = Vec::new();
    let mut i: usize = 0;
    proof {
        assert(h.meta@.take(0) =~= Seq::<CoreMetadataV>::empty());
        assert(out.deep_view() =~= strip_sigs(h.meta@.take(0)));
    }
    while i < n
        invariant
            n == h.meta.core@.len(),
            i <= n,
            out.deep_view() == strip_sigs(h.meta@.take(i as int)),
        decreases n - i,
    {
        proof {
            assert(h.meta@[i as int] == h.meta.core@[i as int]@);
            assert(h.meta@.take(i as int + 1) =~= h.meta@.take(i as int).push(h.meta@[i as int]));
            lemma_strip_push_sig(h.meta@.take(i as int), h.meta@[i as int]);
        }
        match &h.meta.core[i] {
            CoreMetadata::Signature(_) => {},
            other => {
                let ghost prev = out.deep_view();
                let m = crate::redo::clone_meta(other);
                out.push(m);
                proof {
                    assert(out.deep_view() =~= prev.push(m@));
                }
            },
        }
        i = i + 1;
    }
    proof {
        assert(h.meta@.take(n as int) =~= h.meta@);
        lemma_strip_encodable(h.meta@);
    }
    let stripped = EventHeader { key: h.key, meta: Metadata { core: out } };
    compute_event_hash(&stripped)
}


/// Check that a header fits the wire limits, so it can be encoded and hashed.
pub fn check_header_encodable(h: &EventHeader) -> (r: bool)
    ensures
        r == header_encodable(h@),
{
    let n = h.meta.core.len();
    if n > 0xffffffff {
        return false;
    }
    let mut i: usize = 0;
    while i < n
        invariant
            n == h.meta.core@.len(),
            i <= n,
            forall|j: int| 0 <= j < i ==> meta_encodable(#[trigger] h.meta@[j]),
        decreases n - i,
    {
        proof {
            assert(h.meta@[i as int] == h.meta.core@[i as int]@);
        }
        let ok = match &h.meta.core[i] {
            CoreMetadata::Authorization(a) => match &a.write {
                WriteOption::AnyOf(ks) => ks.len() <= 0xffffffff,
                _ => true,
            },
            CoreMetadata::SignWith(s) => s.keys.len() <= 0xffffffff,
            _ => true,
        };
        if !ok {
            return false;
        }
        i = i + 1;
    }
    true
}

} // verus!
