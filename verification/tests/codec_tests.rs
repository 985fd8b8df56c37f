use ate::chain::{Chain, TrustMode};
use ate::crypto::{seal, PrivateSignKey};
use ate::event::{compute_event_hash, EventData, EventHeader};
use ate::header::PrimaryKey;
use ate::meta::{CoreMetadata, Metadata, MetaAuthorization, ReadOption, WriteOption};
use ate::hashing::AteHash;
use ate::meta::{DerivedSecret, EncryptKey, InitializationVector};
use ate::time::ChainTimestamp;
use ate::timeline::ChainTimeline;
use ate::transport::{b64_to_session, hash_as_hex, session_to_b64};

#[test]
fn sealing_twice_restores_the_payload() {
    let key = EncryptKey { val: 0x0123_4567_89ab_cdef_0011_2233_4455_6677 };
    let iv = InitializationVector { val: 0x9999_8888_7777_6666_5555_4444_3333_2222 };
    let data = b"the quick brown fox".to_vec();
    let sealed_once = seal(&key, &iv, &data);
    assert_ne!(sealed_once, data);
    let sealed_twice = seal(&key, &iv, &sealed_once);
    assert_eq!(sealed_twice, data);
}

#[test]
fn transmute_inverts_derive() {
    let target = EncryptKey { val: 0xaaaa_bbbb_cccc_dddd_eeee_ffff_0000_1111 };
    let session_key = EncryptKey { val: 0x1212_3434_5656_7878_9a9a_bcbc_dede_f0f0 };
    let derived = DerivedSecret::derive(&target, &session_key);
    assert_eq!(derived.transmute(&session_key).val, target.val);
}

#[test]
fn signatures_verify_only_for_their_signer() {
    let signer = PrivateSignKey { material: 0x4242 };
    let other = PrivateSignKey { material: 0x4243 };
    let msg = AteHash { val: 777 };
    let sig = signer.sign(&msg);
    assert!(signer.as_public().verify(&msg, &sig));
    assert!(!other.as_public().verify(&msg, &sig));
    assert!(!signer.as_public().verify(&AteHash { val: 778 }, &sig));
}

#[test]
fn session_transport_round_trips_through_b64() {
    let bytes = vec![0u8, 1, 2, 250, 251, 252, 253, 254, 255];
    let text = session_to_b64(&bytes);
    let back = b64_to_session(&text).expect("the encoding must decode");
    assert_eq!(back, bytes);
}

#[test]
fn b64_rejects_garbage() {
    assert!(b64_to_session(&String::from("!!!not base64!!!")).is_none());
}

#[test]
fn hash_hex_name_matches_the_bytes() {
    let h = AteHash { val: 0x0102_0304_0506_0708 };
    // Little-endian bytes, two lowercase digits each.
    assert_eq!(hash_as_hex(&h), "0807060504030201");
}

#[test]
fn timeline_orders_its_instants() {
    let mut tl = ChainTimeline::new();
    assert_eq!(tl.start().time_since_epoch_ms, 0);
    assert_eq!(tl.end().time_since_epoch_ms, 0);
    tl.add_history(ChainTimestamp { time_since_epoch_ms: 50 }, AteHash { val: 5 });
    tl.add_history(ChainTimestamp { time_since_epoch_ms: 10 }, AteHash { val: 1 });
    tl.add_history(ChainTimestamp { time_since_epoch_ms: 50 }, AteHash { val: 6 });
    assert_eq!(tl.start().time_since_epoch_ms, 10);
    assert_eq!(tl.end().time_since_epoch_ms, 50);
    let at50 = tl.lookup(ChainTimestamp { time_since_epoch_ms: 50 }).unwrap();
    assert_eq!(at50, vec![5, 6]);
    assert!(tl.lookup(ChainTimestamp { time_since_epoch_ms: 11 }).is_none());
}

#[test]
fn timestamps_advance_by_one() {
    let t = ChainTimestamp { time_since_epoch_ms: 41 };
    assert_eq!(t.inc().time_since_epoch_ms, 42);
    assert_eq!(ChainTimestamp::from(7u64).time_since_epoch_ms, 7);
    assert_eq!(ChainTimestamp::default().time_since_epoch_ms, 0);
}

#[test]
fn accepted_events_are_filed_on_the_chain_timeline() {
    let mut chain = Chain::new(TrustMode::Centralized, Vec::new());
    let data = b"x".to_vec();
    let mut meta = Metadata::new();
    meta.push(CoreMetadata::Timestamp(ChainTimestamp { time_since_epoch_ms: 33 }));
    meta.push(CoreMetadata::Authorization(MetaAuthorization {
        read: ReadOption::Everyone(None),
        write: WriteOption::Inherit,
    }));
    meta.push(CoreMetadata::DataHash(AteHash::from_bytes(&data)));
    let ev = EventData {
        header: EventHeader { key: Some(PrimaryKey::from_u128(9)), meta },
        data: Some(data),
    };
    let h = compute_event_hash(&ev.header);
    chain.feed(vec![ev]).unwrap();
    assert_eq!(chain.timeline.end().time_since_epoch_ms, 33);
    let slot = chain.timeline.lookup(ChainTimestamp { time_since_epoch_ms: 33 }).unwrap();
    assert_eq!(slot, vec![h.val]);
}
