//! The canonical byte encoding of event headers. The hash of this encoding is
//! the event's identity, so the encoding must be deterministic and must decode
//! back to the value it was built from.

use vstd::prelude::*;

use crate::codec::{enc_u128, enc_u32, enc_u64, le_u128, le_u32, le_u64, lemma_u128_round_trip,
    lemma_u32_round_trip, lemma_u64_round_trip};
use crate::hashing::AteHash;
use crate::header::PrimaryKey;
use crate::meta::{CoreMetadataV, DerivedSecret, EncryptKey, InitializationVector,
    MetaAuthorizationV, MetaCollection, MetaConfidentiality, MetaParent, MetaSignature,
    PublicSignKey, ReadOption, WriteOptionV};
use crate::time::ChainTimestamp;

verus! {

/// Encoding of a read policy.
pub open spec fn enc_read(r: ReadOption) -> Seq<u8> {
    match r {
        ReadOption::Inherit => seq![0u8],
        ReadOption::Everyone(None) => seq![1u8],
        ReadOption::Everyone(Some(k)) => seq![2u8] + enc_u128(k.val),
        ReadOption::Specific(h, d) => seq![3u8] + enc_u64(h.val) + enc_u128(d.val),
    }
}

/// Encoding of a list of key hashes, eight bytes each.
pub open spec fn enc_hashes(ks: Seq<AteHash>) -> Seq<u8>
    decreases ks.len(),
{
    if ks.len() == 0 {
        Seq::empty()
    } else {
        enc_u64(ks[0].val) + enc_hashes(ks.drop_first())
    }
}

/// Encoding of a write policy.
pub open spec fn enc_write(w: WriteOptionV) -> Seq<u8> {
    match w {
        WriteOptionV::Inherit => seq![0u8],
        WriteOptionV::Nobody => seq![1u8],
        WriteOptionV::Specific(h) => seq![2u8] + enc_u64(h.val),
        WriteOptionV::AnyOf(ks) => seq![3u8] + enc_u32(ks.len() as u32) + enc_hashes(ks),
    }
}

/// Encoding of one metadata variant.
pub open spec fn enc_meta(m: CoreMetadataV) -> Seq<u8> {
    match m {
        CoreMetadataV::Timestamp(t) => seq![1u8] + enc_u64(t.time_since_epoch_ms),
        CoreMetadataV::Authorization(a) => seq![2u8] + enc_read(a.read) + enc_write(a.write),
        CoreMetadataV::Confidentiality(c) => seq![3u8] + enc_u64(c.hash.val),
        CoreMetadataV::Signature(s) => seq![4u8] + enc_u64(s.signature.val) + enc_u64(
            s.public_key_hash.val,
        ),
        CoreMetadataV::SignWith(ks) => seq![5u8] + enc_u32(ks.len() as u32) + enc_hashes(ks),
        CoreMetadataV::PublicKey(k) => seq![6u8] + enc_u128(k.material),
        CoreMetadataV::Parent(p) => seq![7u8] + enc_u128(p.vec.parent_id.val) + enc_u64(
            p.vec.collection_id,
        ),
        CoreMetadataV::Tombstone(k) => seq![8u8] + enc_u128(k.val),
        CoreMetadataV::Collection(c) => seq![9u8] + enc_u128(c.parent_id.val) + enc_u64(
            c.collection_id,
        ),
        CoreMetadataV::InitializationVector(iv) => seq![10u8] + enc_u128(iv.val),
        CoreMetadataV::TypeName(t) => seq![11u8] + enc_u64(t.val),
        CoreMetadataV::DataHash(h) => seq![12u8] + enc_u64(h.val),
        CoreMetadataV::Reply(k) => seq![13u8] + enc_u128(k.val),
    }
}

/// Encoding of a metadata list, without its count prefix.
pub open spec fn enc_meta_list(s: Seq<CoreMetadataV>) -> Seq<u8>
    decreases s.len(),
{
    if s.len() == 0 {
        Seq::empty()
    } else {
        enc_meta(s[0]) + enc_meta_list(s.drop_first())
    }
}

/// Encoding of an optional primary key.
pub open spec fn enc_key(k: Option<PrimaryKey>) -> Seq<u8> {
    match k {
        None => seq![0u8],
        Some(k) => seq![1u8] + enc_u128(k.val),
    }
}

/// Whether a write policy fits the wire limits.
pub open spec fn write_encodable(w: WriteOptionV) -> bool {
    match w {
        WriteOptionV::AnyOf(ks) => ks.len() <= 0xffffffff,
        _ => true,
    }
}

/// Whether one metadata variant fits the wire limits.
pub open spec fn meta_encodable(m: CoreMetadataV) -> bool {
    match m {
        CoreMetadataV::Authorization(a) => write_encodable(a.write),
        CoreMetadataV::SignWith(ks) => ks.len() <= 0xffffffff,
        _ => true,
    }
}

/// Whether a metadata list fits the wire limits.
pub open spec fn meta_list_encodable(s: Seq<CoreMetadataV>) -> bool {
    s.len() <= 0xffffffff && forall|i: int| 0 <= i < s.len() ==> meta_encodable(#[trigger] s[i])
}

// ---------------------------------------------------------------------------
// Spec-level decoding. Each decoder consumes bytes from `pos` and yields the
// decoded value with the position after it, or nothing if the bytes do not
// form an encoding.
// ---------------------------------------------------------------------------

/// Decode a read policy.
pub open spec fn dec_read(s: Seq<u8>, pos: int) -> Option<(ReadOption, int)> {
    if pos + 1 <= s.len() {
        let tag = s[pos];
        if tag == 0 {
            Some((ReadOption::Inherit, pos + 1))
        } else if tag == 1 {
            Some((ReadOption::Everyone(None), pos + 1))
        } else if tag == 2 {
            if pos + 17 <= s.len() {
                Some(
                    (
                        ReadOption::Everyone(
                            Some(EncryptKey { val: le_u128(s.subrange(pos + 1, pos + 17)) }),
                        ),
                        pos + 17,
                    ),
                )
            } else {
                None
            }
        } else if tag == 3 {
            if pos + 25 <= s.len() {
                Some(
                    (
                        ReadOption::Specific(
                            AteHash { val: le_u64(s.subrange(pos + 1, pos + 9)) },
                            DerivedSecret { val: le_u128(s.subrange(pos + 9, pos + 25)) },
                        ),
                        pos + 25,
                    ),
                )
            } else {
                None
            }
        } else {
            None
        }
    } else {
        None
    }
}

/// Decode `count` key hashes.
pub open spec fn dec_hashes(s: Seq<u8>, pos: int, count: nat) -> Option<(Seq<AteHash>, int)>
    decreases count,
{
    if count == 0 {
        Some((Seq::empty(), pos))
    } else if pos + 8 <= s.len() {
        let h = AteHash { val: le_u64(s.subrange(pos, pos + 8)) };
        match dec_hashes(s, pos + 8, (count - 1) as nat) {
            Some((t, p)) => Some((seq![h] + t, p)),
            None => None,
        }
    } else {
        None
    }
}

/// Decode a write policy.
pub open spec fn dec_write(s: Seq<u8>, pos: int) -> Option<(WriteOptionV, int)> {
    if pos + 1 <= s.len() {
        let tag = s[pos];
        if tag == 0 {
            Some((WriteOptionV::Inherit, pos + 1))
        } else if tag == 1 {
            Some((WriteOptionV::Nobody, pos + 1))
        } else if tag == 2 {
            if pos + 9 <= s.len() {
                Some(
                    (
                        WriteOptionV::Specific(AteHash { val: le_u64(s.subrange(pos + 1, pos + 9)) }),
                        pos + 9,
                    ),
                )
            } else {
                None
            }
        } else if tag == 3 {
            if pos + 5 <= s.len() {
                let count = le_u32(s.subrange(pos + 1, pos + 5)) as nat;
                match dec_hashes(s, pos + 5, count) {
                    Some((ks, p)) => Some((WriteOptionV::AnyOf(ks), p)),
                    None => None,
                }
            } else {
                None
            }
        } else {
            None
        }
    } else {
        None
    }
}

/// Decode the body of a timestamp variant.
pub open spec fn dec_m_timestamp(s: Seq<u8>, body: int) -> Option<(CoreMetadataV, int)> {
    if body + 8 <= s.len() {
        Some(
            (
                CoreMetadataV::Timestamp(
                    ChainTimestamp { time_since_epoch_ms: le_u64(s.subrange(body, body + 8)) },
                ),
                body + 8,
            ),
        )
    } else {
        None
    }
}

/// Decode the body of an authorization variant.
pub open spec fn dec_m_authorization(s: Seq<u8>, body: int) -> Option<(CoreMetadataV, int)> {
    match dec_read(s, body) {
        Some((r, p1)) => match dec_write(s, p1) {
            Some((w, p2)) => Some(
                (CoreMetadataV::Authorization(MetaAuthorizationV { read: r, write: w }), p2),
            ),
            None => None,
        },
        None => None,
    }
}

/// Decode the body of a confidentiality variant.
pub open spec fn dec_m_confidentiality(s: Seq<u8>, body: int) -> Option<(CoreMetadataV, int)> {
    if body + 8 <= s.len() {
        Some(
            (
                CoreMetadataV::Confidentiality(
                    MetaConfidentiality { hash: AteHash { val: le_u64(s.subrange(body, body + 8)) } },
                ),
                body + 8,
            ),
        )
    } else {
        None
    }
}

/// Decode the body of a signature variant.
pub open spec fn dec_m_signature(s: Seq<u8>, body: int) -> Option<(CoreMetadataV, int)> {
    if body + 16 <= s.len() {
        Some(
            (
                CoreMetadataV::Signature(
                    MetaSignature {
                        signature: AteHash { val: le_u64(s.subrange(body, body + 8)) },
                        public_key_hash: AteHash { val: le_u64(s.subrange(body + 8, body + 16)) },
                    },
                ),
                body + 16,
            ),
        )
    } else {
        None
    }
}

/// Decode the body of a sign-with variant.
pub open spec fn dec_m_sign_with(s: Seq<u8>, body: int) -> Option<(CoreMetadataV, int)> {
    if body + 4 <= s.len() {
        match dec_hashes(s, body + 4, le_u32(s.subrange(body, body + 4)) as nat) {
            Some((ks, p)) => Some((CoreMetadataV::SignWith(ks), p)),
            None => None,
        }
    } else {
        None
    }
}

/// Decode the body of a public-key variant.
pub open spec fn dec_m_public_key(s: Seq<u8>, body: int) -> Option<(CoreMetadataV, int)> {
    if body + 16 <= s.len() {
        Some(
            (
                CoreMetadataV::PublicKey(
                    PublicSignKey { material: le_u128(s.subrange(body, body + 16)) },
                ),
                body + 16,
            ),
        )
    } else {
        None
    }
}

/// Decode the body of a parent variant.
pub open spec fn dec_m_parent(s: Seq<u8>, body: int) -> Option<(CoreMetadataV, int)> {
    if body + 24 <= s.len() {
        Some(
            (
                CoreMetadataV::Parent(
                    MetaParent {
                        vec: MetaCollection {
                            parent_id: PrimaryKey { val: le_u128(s.subrange(body, body + 16)) },
                            collection_id: le_u64(s.subrange(body + 16, body + 24)),
                        },
                    },
                ),
                body + 24,
            ),
        )
    } else {
        None
    }
}

/// Decode the body of a tombstone variant.
pub open spec fn dec_m_tombstone(s: Seq<u8>, body: int) -> Option<(CoreMetadataV, int)> {
    if body + 16 <= s.len() {
        Some(
            (
                CoreMetadataV::Tombstone(PrimaryKey { val: le_u128(s.subrange(body, body + 16)) }),
                body + 16,
            ),
        )
    } else {
        None
    }
}

/// Decode the body of a collection variant.
pub open spec fn dec_m_collection(s: Seq<u8>, body: int) -> Option<(CoreMetadataV, int)> {
    if body + 24 <= s.len() {
        Some(
            (
                CoreMetadataV::Collection(
                    MetaCollection {
                        parent_id: PrimaryKey { val: le_u128(s.subrange(body, body + 16)) },
                        collection_id: le_u64(s.subrange(body + 16, body + 24)),
                    },
                ),
                body + 24,
            ),
        )
    } else {
        None
    }
}

/// Decode the body of an initialization-vector variant.
pub open spec fn dec_m_iv(s: Seq<u8>, body: int) -> Option<(CoreMetadataV, int)> {
    if body + 16 <= s.len() {
        Some(
            (
                CoreMetadataV::InitializationVector(
                    InitializationVector { val: le_u128(s.subrange(body, body + 16)) },
                ),
                body + 16,
            ),
        )
    } else {
        None
    }
}

/// Decode the body of a type-name variant.
pub open spec fn dec_m_type_name(s: Seq<u8>, body: int) -> Option<(CoreMetadataV, int)> {
    if body + 8 <= s.len() {
        Some(
            (CoreMetadataV::TypeName(AteHash { val: le_u64(s.subrange(body, body + 8)) }), body + 8),
        )
    } else {
        None
    }
}

/// Decode the body of a data-hash variant.
pub open spec fn dec_m_data_hash(s: Seq<u8>, body: int) -> Option<(CoreMetadataV, int)> {
    if body + 8 <= s.len() {
        Some(
            (CoreMetadataV::DataHash(AteHash { val: le_u64(s.subrange(body, body + 8)) }), body + 8),
        )
    } else {
        None
    }
}

/// Decode the body of a reply variant.
pub open spec fn dec_m_reply(s: Seq<u8>, body: int) -> Option<(CoreMetadataV, int)> {
    if body + 16 <= s.len() {
        Some(
            (CoreMetadataV::Reply(PrimaryKey { val: le_u128(s.subrange(body, body + 16)) }), body + 16),
        )
    } else {
        None
    }
}

/// Decode one metadata variant.
pub open spec fn dec_meta(s: Seq<u8>, pos: int) -> Option<(CoreMetadataV, int)> {
    if pos + 1 <= s.len() {
        let tag = s[pos];
        let body = pos + 1;
        if tag == 1 {
            dec_m_timestamp(s, body)
        } else if tag == 2 {
            dec_m_authorization(s, body)
        } else if tag == 3 {
            dec_m_confidentiality(s, body)
        } else if tag == 4 {
            dec_m_signature(s, body)
        } else if tag == 5 {
            dec_m_sign_with(s, body)
        } else if tag == 6 {
            dec_m_public_key(s, body)
        } else if tag == 7 {
            dec_m_parent(s, body)
        } else if tag == 8 {
            dec_m_tombstone(s, body)
        } else if tag == 9 {
            dec_m_collection(s, body)
        } else if tag == 10 {
            dec_m_iv(s, body)
        } else if tag == 11 {
            dec_m_type_name(s, body)
        } else if tag == 12 {
            dec_m_data_hash(s, body)
        } else if tag == 13 {
            dec_m_reply(s, body)
        } else {
            None
        }
    } else {
        None
    }
}


/// Decode `count` metadata variants.
pub open spec fn dec_meta_list(s: Seq<u8>, pos: int, count: nat) -> Option<
    (Seq<CoreMetadataV>, int),
>
    decreases count,
{
    if count == 0 {
        Some((Seq::empty(), pos))
    } else {
        match dec_meta(s, pos) {
            Some((m, p)) => match dec_meta_list(s, p, (count - 1) as nat) {
                Some((t, p2)) => Some((seq![m] + t, p2)),
                None => None,
            },
            None => None,
        }
    }
}

/// Decode an optional primary key.
pub open spec fn dec_key(s: Seq<u8>, pos: int) -> Option<(Option<PrimaryKey>, int)> {
    if pos + 1 <= s.len() {
        let tag = s[pos];
        if tag == 0 {
            Some((None, pos + 1))
        } else if tag == 1 {
            if pos + 17 <= s.len() {
                Some((Some(PrimaryKey { val: le_u128(s.subrange(pos + 1, pos + 17)) }), pos + 17))
            } else {
                None
            }
        } else {
            None
        }
    } else {
        None
    }
}

// ---------------------------------------------------------------------------
// Round-trip lemmas: decoding an encoding that sits at `pos` inside a larger
// buffer yields the encoded value and stops right after it.
// ---------------------------------------------------------------------------

#[verifier::rlimit(100)]
pub proof fn lemma_dec_read(s: Seq<u8>, pos: int, r: ReadOption)
    requires
        0 <= pos,
        pos + enc_read(r).len() <= s.len(),
        s.subrange(pos, pos + enc_read(r).len()) == enc_read(r),
    ensures
        dec_read(s, pos) == Some((r, pos + enc_read(r).len())),
{
    let e = enc_read(r);
    assert(s[pos] == e[0]);
    match r {
        ReadOption::Inherit => {},
        ReadOption::Everyone(None) => {},
        ReadOption::Everyone(Some(k)) => {
            assert(s.subrange(pos + 1, pos + 17) =~= e.subrange(1, 17));
            assert(e.subrange(1, 17) =~= enc_u128(k.val));
            lemma_u128_round_trip(k.val);
        },
        ReadOption::Specific(h, d) => {
            assert(s.subrange(pos + 1, pos + 9) =~= e.subrange(1, 9));
            assert(e.subrange(1, 9) =~= enc_u64(h.val));
            assert(s.subrange(pos + 9, pos + 25) =~= e.subrange(9, 25));
            assert(e.subrange(9, 25) =~= enc_u128(d.val));
            lemma_u64_round_trip(h.val);
            lemma_u128_round_trip(d.val);
        },
    }
}

pub proof fn lemma_enc_hashes_len(ks: Seq<AteHash>)
    ensures
        enc_hashes(ks).len() == 8 * (ks.len() as int),
    decreases ks.len(),
{
    if ks.len() > 0 {
        lemma_enc_hashes_len(ks.drop_first());
    }
}

pub proof fn lemma_dec_hashes(s: Seq<u8>, pos: int, ks: Seq<AteHash>)
    requires
        0 <= pos,
        pos + 8 * (ks.len() as int) <= s.len(),
        s.subrange(pos, pos + 8 * (ks.len() as int)) == enc_hashes(ks),
    ensures
        dec_hashes(s, pos, ks.len() as nat) == Some((ks, pos + 8 * (ks.len() as int))),
    decreases ks.len(),
{
    lemma_enc_hashes_len(ks);
    if ks.len() == 0 {
        assert(dec_hashes(s, pos, 0) == Some((Seq::<AteHash>::empty(), pos)));
        assert(ks =~= Seq::<AteHash>::empty());
    } else {
        let e = enc_hashes(ks);
        let rest = ks.drop_first();
        lemma_enc_hashes_len(rest);
        assert(s.subrange(pos, pos + 8) =~= e.subrange(0, 8));
        assert(e.subrange(0, 8) =~= enc_u64(ks[0].val));
        lemma_u64_round_trip(ks[0].val);
        assert(le_u64(s.subrange(pos, pos + 8)) == ks[0].val);
        assert(s.subrange(pos + 8, pos + 8 + 8 * (rest.len() as int)) =~= e.subrange(8, 8 + 8 * (rest.len() as int)));
        assert(e.subrange(8, 8 + 8 * (rest.len() as int)) =~= enc_hashes(rest));
        lemma_dec_hashes(s, pos + 8, rest);
        assert(seq![ks[0]] + rest =~= ks);
    }
}

pub proof fn lemma_dec_write(s: Seq<u8>, pos: int, w: WriteOptionV)
    requires
        0 <= pos,
        write_encodable(w),
        pos + enc_write(w).len() <= s.len(),
        s.subrange(pos, pos + enc_write(w).len()) == enc_write(w),
    ensures
        dec_write(s, pos) == Some((w, pos + enc_write(w).len())),
{
    let e = enc_write(w);
    assert(s[pos] == e[0]);
    match w {
        WriteOptionV::Inherit => {},
        WriteOptionV::Nobody => {},
        WriteOptionV::Specific(h) => {
            assert(s.subrange(pos + 1, pos + 9) =~= e.subrange(1, 9));
            assert(e.subrange(1, 9) =~= enc_u64(h.val));
            lemma_u64_round_trip(h.val);
        },
        WriteOptionV::AnyOf(ks) => {
            lemma_enc_hashes_len(ks);
            assert(s.subrange(pos + 1, pos + 5) =~= e.subrange(1, 5));
            assert(e.subrange(1, 5) =~= enc_u32(ks.len() as u32));
            lemma_u32_round_trip(ks.len() as u32);
            assert(le_u32(s.subrange(pos + 1, pos + 5)) == ks.len());
            assert(s.subrange(pos + 5, pos + 5 + 8 * (ks.len() as int)) =~= e.subrange(
                5,
                5 + 8 * (ks.len() as int),
            ));
            assert(e.subrange(5, 5 + 8 * (ks.len() as int)) =~= enc_hashes(ks));
            lemma_dec_hashes(s, pos + 5, ks);
        },
    }
}

#[verifier::rlimit(100)]
#[verifier::spinoff_prover]
proof fn lemma_dec_meta_timestamp(s: Seq<u8>, pos: int, t: ChainTimestamp)
    requires
        0 <= pos,
        meta_encodable(CoreMetadataV::Timestamp(t)),
        pos + enc_meta(CoreMetadataV::Timestamp(t)).len() <= s.len(),
        s.subrange(pos, pos + enc_meta(CoreMetadataV::Timestamp(t)).len()) == enc_meta(CoreMetadataV::Timestamp(t)),
    ensures
        dec_meta(s, pos) == Some((CoreMetadataV::Timestamp(t), pos + enc_meta(CoreMetadataV::Timestamp(t)).len())),
{
    let e = enc_meta(CoreMetadataV::Timestamp(t));
    assert(s[pos] == e[0]);
    let body = pos + 1;

    assert(s.subrange(body, body + 8) =~= e.subrange(1, 9));
    assert(e.subrange(1, 9) =~= enc_u64(t.time_since_epoch_ms));
    lemma_u64_round_trip(t.time_since_epoch_ms);
}

#[verifier::rlimit(100)]
#[verifier::spinoff_prover]
proof fn lemma_dec_meta_authorization(s: Seq<u8>, pos: int, a: MetaAuthorizationV)
    requires
        0 <= pos,
        meta_encodable(CoreMetadataV::Authorization(a)),
        pos + enc_meta(CoreMetadataV::Authorization(a)).len() <= s.len(),
        s.subrange(pos, pos + enc_meta(CoreMetadataV::Authorization(a)).len()) == enc_meta(CoreMetadataV::Authorization(a)),
    ensures
        dec_meta(s, pos) == Some((CoreMetadataV::Authorization(a), pos + enc_meta(CoreMetadataV::Authorization(a)).len())),
{
    let e = enc_meta(CoreMetadataV::Authorization(a));
    assert(s[pos] == e[0]);
    let body = pos + 1;

    let er = enc_read(a.read);
    let ew = enc_write(a.write);
    assert(s.subrange(body, body + (er.len() as int)) =~= e.subrange(1, 1 + (er.len() as int)));
    assert(e.subrange(1, 1 + (er.len() as int)) =~= er);
    lemma_dec_read(s, body, a.read);
    let p1 = body + (er.len() as int);
    assert(s.subrange(p1, p1 + (ew.len() as int)) =~= e.subrange(
        1 + (er.len() as int),
        1 + (er.len() as int) + (ew.len() as int),
    ));
    assert(e.subrange(1 + (er.len() as int), 1 + (er.len() as int) + (ew.len() as int)) =~= ew);
    lemma_dec_write(s, p1, a.write);
}

#[verifier::rlimit(100)]
#[verifier::spinoff_prover]
proof fn lemma_dec_meta_confidentiality(s: Seq<u8>, pos: int, c: MetaConfidentiality)
    requires
        0 <= pos,
        meta_encodable(CoreMetadataV::Confidentiality(c)),
        pos + enc_meta(CoreMetadataV::Confidentiality(c)).len() <= s.len(),
        s.subrange(pos, pos + enc_meta(CoreMetadataV::Confidentiality(c)).len()) == enc_meta(CoreMetadataV::Confidentiality(c)),
    ensures
        dec_meta(s, pos) == Some((CoreMetadataV::Confidentiality(c), pos + enc_meta(CoreMetadataV::Confidentiality(c)).len())),
{
    let e = enc_meta(CoreMetadataV::Confidentiality(c));
    assert(s[pos] == e[0]);
    let body = pos + 1;

    assert(s.subrange(body, body + 8) =~= e.subrange(1, 9));
    assert(e.subrange(1, 9) =~= enc_u64(c.hash.val));
    lemma_u64_round_trip(c.hash.val);
}

#[verifier::rlimit(100)]
#[verifier::spinoff_prover]
proof fn lemma_dec_meta_signature(s: Seq<u8>, pos: int, sg: MetaSignature)
    requires
        0 <= pos,
        meta_encodable(CoreMetadataV::Signature(sg)),
        pos + enc_meta(CoreMetadataV::Signature(sg)).len() <= s.len(),
        s.subrange(pos, pos + enc_meta(CoreMetadataV::Signature(sg)).len()) == enc_meta(CoreMetadataV::Signature(sg)),
    ensures
        dec_meta(s, pos) == Some((CoreMetadataV::Signature(sg), pos + enc_meta(CoreMetadataV::Signature(sg)).len())),
{
    let e = enc_meta(CoreMetadataV::Signature(sg));
    assert(s[pos] == e[0]);
    let body = pos + 1;

    assert(s.subrange(body, body + 8) =~= e.subrange(1, 9));
    assert(e.subrange(1, 9) =~= enc_u64(sg.signature.val));
    assert(s.subrange(body + 8, body + 16) =~= e.subrange(9, 17));
    assert(e.subrange(9, 17) =~= enc_u64(sg.public_key_hash.val));
    lemma_u64_round_trip(sg.signature.val);
    lemma_u64_round_trip(sg.public_key_hash.val);
}

#[verifier::rlimit(100)]
#[verifier::spinoff_prover]
proof fn lemma_dec_meta_signwith(s: Seq<u8>, pos: int, ks: Seq<AteHash>)
    requires
        0 <= pos,
        meta_encodable(CoreMetadataV::SignWith(ks)),
        pos + enc_meta(CoreMetadataV::SignWith(ks)).len() <= s.len(),
        s.subrange(pos, pos + enc_meta(CoreMetadataV::SignWith(ks)).len()) == enc_meta(CoreMetadataV::SignWith(ks)),
    ensures
        dec_meta(s, pos) == Some((CoreMetadataV::SignWith(ks), pos + enc_meta(CoreMetadataV::SignWith(ks)).len())),
{
    let e = enc_meta(CoreMetadataV::SignWith(ks));
    assert(s[pos] == e[0]);
    let body = pos + 1;

    lemma_enc_hashes_len(ks);
    assert(s.subrange(body, body + 4) =~= e.subrange(1, 5));
    assert(e.subrange(1, 5) =~= enc_u32(ks.len() as u32));
    lemma_u32_round_trip(ks.len() as u32);
    assert(s.subrange(body + 4, body + 4 + 8 * (ks.len() as int)) =~= e.subrange(
        5,
        5 + 8 * (ks.len() as int),
    ));
    assert(e.subrange(5, 5 + 8 * (ks.len() as int)) =~= enc_hashes(ks));
    lemma_dec_hashes(s, body + 4, ks);
}

#[verifier::rlimit(100)]
#[verifier::spinoff_prover]
proof fn lemma_dec_meta_publickey(s: Seq<u8>, pos: int, k: PublicSignKey)
    requires
        0 <= pos,
        meta_encodable(CoreMetadataV::PublicKey(k)),
        pos + enc_meta(CoreMetadataV::PublicKey(k)).len() <= s.len(),
        s.subrange(pos, pos + enc_meta(CoreMetadataV::PublicKey(k)).len()) == enc_meta(CoreMetadataV::PublicKey(k)),
    ensures
        dec_meta(s, pos) == Some((CoreMetadataV::PublicKey(k), pos + enc_meta(CoreMetadataV::PublicKey(k)).len())),
{
    let e = enc_meta(CoreMetadataV::PublicKey(k));
    assert(s[pos] == e[0]);
    let body = pos + 1;

    assert(s.subrange(body, body + 16) =~= e.subrange(1, 17));
    assert(e.subrange(1, 17) =~= enc_u128(k.material));
    lemma_u128_round_trip(k.material);
}

#[verifier::rlimit(100)]
#[verifier::spinoff_prover]
proof fn lemma_dec_meta_parent(s: Seq<u8>, pos: int, p: MetaParent)
    requires
        0 <= pos,
        meta_encodable(CoreMetadataV::Parent(p)),
        pos + enc_meta(CoreMetadataV::Parent(p)).len() <= s.len(),
        s.subrange(pos, pos + enc_meta(CoreMetadataV::Parent(p)).len()) == enc_meta(CoreMetadataV::Parent(p)),
    ensures
        dec_meta(s, pos) == Some((CoreMetadataV::Parent(p), pos + enc_meta(CoreMetadataV::Parent(p)).len())),
{
    let e = enc_meta(CoreMetadataV::Parent(p));
    assert(s[pos] == e[0]);
    let body = pos + 1;

    assert(s.subrange(body, body + 16) =~= e.subrange(1, 17));
    assert(e.subrange(1, 17) =~= enc_u128(p.vec.parent_id.val));
    assert(s.subrange(body + 16, body + 24) =~= e.subrange(17, 25));
    assert(e.subrange(17, 25) =~= enc_u64(p.vec.collection_id));
    lemma_u128_round_trip(p.vec.parent_id.val);
    lemma_u64_round_trip(p.vec.collection_id);
}

#[verifier::rlimit(100)]
#[verifier::spinoff_prover]
proof fn lemma_dec_meta_tombstone(s: Seq<u8>, pos: int, k: PrimaryKey)
    requires
        0 <= pos,
        meta_encodable(CoreMetadataV::Tombstone(k)),
        pos + enc_meta(CoreMetadataV::Tombstone(k)).len() <= s.len(),
        s.subrange(pos, pos + enc_meta(CoreMetadataV::Tombstone(k)).len()) == enc_meta(CoreMetadataV::Tombstone(k)),
    ensures
        dec_meta(s, pos) == Some((CoreMetadataV::Tombstone(k), pos + enc_meta(CoreMetadataV::Tombstone(k)).len())),
{
    let e = enc_meta(CoreMetadataV::Tombstone(k));
    assert(s[pos] == e[0]);
    let body = pos + 1;

    assert(s.subrange(body, body + 16) =~= e.subrange(1, 17));
    assert(e.subrange(1, 17) =~= enc_u128(k.val));
    lemma_u128_round_trip(k.val);
}

#[verifier::rlimit(100)]
#[verifier::spinoff_prover]
proof fn lemma_dec_meta_collection(s: Seq<u8>, pos: int, c: MetaCollection)
    requires
        0 <= pos,
        meta_encodable(CoreMetadataV::Collection(c)),
        pos + enc_meta(CoreMetadataV::Collection(c)).len() <= s.len(),
        s.subrange(pos, pos + enc_meta(CoreMetadataV::Collection(c)).len()) == enc_meta(CoreMetadataV::Collection(c)),
    ensures
        dec_meta(s, pos) == Some((CoreMetadataV::Collection(c), pos + enc_meta(CoreMetadataV::Collection(c)).len())),
{
    let e = enc_meta(CoreMetadataV::Collection(c));
    assert(s[pos] == e[0]);
    let body = pos + 1;

    assert(s.subrange(body, body + 16) =~= e.subrange(1, 17));
    assert(e.subrange(1, 17) =~= enc_u128(c.parent_id.val));
    assert(s.subrange(body + 16, body + 24) =~= e.subrange(17, 25));
    assert(e.subrange(17, 25) =~= enc_u64(c.collection_id));
    lemma_u128_round_trip(c.parent_id.val);
    lemma_u64_round_trip(c.collection_id);
}

#[verifier::rlimit(100)]
#[verifier::spinoff_prover]
proof fn lemma_dec_meta_initializationvector(s: Seq<u8>, pos: int, iv: InitializationVector)
    requires
        0 <= pos,
        meta_encodable(CoreMetadataV::InitializationVector(iv)),
        pos + enc_meta(CoreMetadataV::InitializationVector(iv)).len() <= s.len(),
        s.subrange(pos, pos + enc_meta(CoreMetadataV::InitializationVector(iv)).len()) == enc_meta(CoreMetadataV::InitializationVector(iv)),
    ensures
        dec_meta(s, pos) == Some((CoreMetadataV::InitializationVector(iv), pos + enc_meta(CoreMetadataV::InitializationVector(iv)).len())),
{
    let e = enc_meta(CoreMetadataV::InitializationVector(iv));
    assert(s[pos] == e[0]);
    let body = pos + 1;

    assert(s.subrange(body, body + 16) =~= e.subrange(1, 17));
    assert(e.subrange(1, 17) =~= enc_u128(iv.val));
    lemma_u128_round_trip(iv.val);
}

#[verifier::rlimit(100)]
#[verifier::spinoff_prover]
proof fn lemma_dec_meta_typename(s: Seq<u8>, pos: int, t: AteHash)
    requires
        0 <= pos,
        meta_encodable(CoreMetadataV::TypeName(t)),
        pos + enc_meta(CoreMetadataV::TypeName(t)).len() <= s.len(),
        s.subrange(pos, pos + enc_meta(CoreMetadataV::TypeName(t)).len()) == enc_meta(CoreMetadataV::TypeName(t)),
    ensures
        dec_meta(s, pos) == Some((CoreMetadataV::TypeName(t), pos + enc_meta(CoreMetadataV::TypeName(t)).len())),
{
    let e = enc_meta(CoreMetadataV::TypeName(t));
    assert(s[pos] == e[0]);
    let body = pos + 1;

    assert(s.subrange(body, body + 8) =~= e.subrange(1, 9));
    assert(e.subrange(1, 9) =~= enc_u64(t.val));
    lemma_u64_round_trip(t.val);
}

#[verifier::rlimit(100)]
#[verifier::spinoff_prover]
proof fn lemma_dec_meta_datahash(s: Seq<u8>, pos: int, h: AteHash)
    requires
        0 <= pos,
        meta_encodable(CoreMetadataV::DataHash(h)),
        pos + enc_meta(CoreMetadataV::DataHash(h)).len() <= s.len(),
        s.subrange(pos, pos + enc_meta(CoreMetadataV::DataHash(h)).len()) == enc_meta(CoreMetadataV::DataHash(h)),
    ensures
        dec_meta(s, pos) == Some((CoreMetadataV::DataHash(h), pos + enc_meta(CoreMetadataV::DataHash(h)).len())),
{
    let e = enc_meta(CoreMetadataV::DataHash(h));
    assert(s[pos] == e[0]);
    let body = pos + 1;

    assert(s.subrange(body, body + 8) =~= e.subrange(1, 9));
    assert(e.subrange(1, 9) =~= enc_u64(h.val));
    lemma_u64_round_trip(h.val);
}

#[verifier::rlimit(100)]
#[verifier::spinoff_prover]
proof fn lemma_dec_meta_reply(s: Seq<u8>, pos: int, k: PrimaryKey)
    requires
        0 <= pos,
        meta_encodable(CoreMetadataV::Reply(k)),
        pos + enc_meta(CoreMetadataV::Reply(k)).len() <= s.len(),
        s.subrange(pos, pos + enc_meta(CoreMetadataV::Reply(k)).len()) == enc_meta(CoreMetadataV::Reply(k)),
    ensures
        dec_meta(s, pos) == Some((CoreMetadataV::Reply(k), pos + enc_meta(CoreMetadataV::Reply(k)).len())),
{
    let e = enc_meta(CoreMetadataV::Reply(k));
    assert(s[pos] == e[0]);
    let body = pos + 1;

    assert(s.subrange(body, body + 16) =~= e.subrange(1, 17));
    assert(e.subrange(1, 17) =~= enc_u128(k.val));
    lemma_u128_round_trip(k.val);
}

pub proof fn lemma_dec_meta(s: Seq<u8>, pos: int, m: CoreMetadataV)
    requires
        0 <= pos,
        meta_encodable(m),
        pos + enc_meta(m).len() <= s.len(),
        s.subrange(pos, pos + enc_meta(m).len()) == enc_meta(m),
    ensures
        dec_meta(s, pos) == Some((m, pos + enc_meta(m).len())),
{
    match m {
        CoreMetadataV::Timestamp(t) => lemma_dec_meta_timestamp(s, pos, t),
        CoreMetadataV::Authorization(a) => lemma_dec_meta_authorization(s, pos, a),
        CoreMetadataV::Confidentiality(c) => lemma_dec_meta_confidentiality(s, pos, c),
        CoreMetadataV::Signature(sg) => lemma_dec_meta_signature(s, pos, sg),
        CoreMetadataV::SignWith(ks) => lemma_dec_meta_signwith(s, pos, ks),
        CoreMetadataV::PublicKey(k) => lemma_dec_meta_publickey(s, pos, k),
        CoreMetadataV::Parent(p) => lemma_dec_meta_parent(s, pos, p),
        CoreMetadataV::Tombstone(k) => lemma_dec_meta_tombstone(s, pos, k),
        CoreMetadataV::Collection(c) => lemma_dec_meta_collection(s, pos, c),
        CoreMetadataV::InitializationVector(iv) => lemma_dec_meta_initializationvector(s, pos, iv),
        CoreMetadataV::TypeName(t) => lemma_dec_meta_typename(s, pos, t),
        CoreMetadataV::DataHash(h) => lemma_dec_meta_datahash(s, pos, h),
        CoreMetadataV::Reply(k) => lemma_dec_meta_reply(s, pos, k),
    }
}

#[verifier::rlimit(100)]
pub proof fn lemma_dec_meta_list(s: Seq<u8>, pos: int, ms: Seq<CoreMetadataV>)
    requires
        0 <= pos,
        meta_list_encodable(ms),
        pos + enc_meta_list(ms).len() <= s.len(),
        s.subrange(pos, pos + enc_meta_list(ms).len()) == enc_meta_list(ms),
    ensures
        dec_meta_list(s, pos, ms.len() as nat) == Some((ms, pos + enc_meta_list(ms).len())),
    decreases ms.len(),
{
    if ms.len() == 0 {
        assert(ms =~= Seq::<CoreMetadataV>::empty());
    } else {
        let e = enc_meta_list(ms);
        let e0 = enc_meta(ms[0]);
        let rest = ms.drop_first();
        let erest = enc_meta_list(rest);
        assert(e =~= e0 + erest);
        assert(s.subrange(pos, pos + (e0.len() as int)) =~= e.subrange(0, e0.len() as int));
        assert(e.subrange(0, e0.len() as int) =~= e0);
        assert(meta_encodable(ms[0]));
        lemma_dec_meta(s, pos, ms[0]);
        let p1 = pos + (e0.len() as int);
        assert(s.subrange(p1, p1 + (erest.len() as int)) =~= e.subrange(e0.len() as int, e.len() as int));
        assert(e.subrange(e0.len() as int, e.len() as int) =~= erest);
        assert(meta_list_encodable(rest)) by {
            assert(forall|i: int|
                0 <= i < rest.len() ==> rest[i] == ms[i + 1] && meta_encodable(#[trigger] rest[i]));
        }
        lemma_dec_meta_list(s, p1, rest);
        assert(seq![ms[0]] + rest =~= ms);
    }
}

pub proof fn lemma_dec_key(s: Seq<u8>, pos: int, k: Option<PrimaryKey>)
    requires
        0 <= pos,
        pos + enc_key(k).len() <= s.len(),
        s.subrange(pos, pos + enc_key(k).len()) == enc_key(k),
    ensures
        dec_key(s, pos) == Some((k, pos + enc_key(k).len())),
{
    let e = enc_key(k);
    assert(s[pos] == e[0]);
    match k {
        None => {},
        Some(k) => {
            assert(s.subrange(pos + 1, pos + 17) =~= e.subrange(1, 17));
            assert(e.subrange(1, 17) =~= enc_u128(k.val));
            lemma_u128_round_trip(k.val);
        },
    }
}

} // verus!
