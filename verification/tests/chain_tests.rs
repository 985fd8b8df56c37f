use ate::chain::{Chain, TrustMode};
use ate::crypto::PrivateSignKey;
use ate::dio::load;
use ate::dio_mut::{DaoAuthGuard, DioMut, TransactionScope};
use ate::errors::{CommitError, LoadError, TransformError};
use ate::event::{check_data_hash, compute_event_hash, compute_sig_base, decode_header,
    encode_header, EventData, EventHeader};
use ate::hashing::AteHash;
use ate::header::PrimaryKey;
use ate::meta::{CoreMetadata, DerivedSecret, EncryptKey, InitializationVector, Metadata,
    MetaAuthorization, MetaCollection, MetaConfidentiality, MetaParent, MetaSignature,
    PublicSignKey, ReadOption, WriteOption};
use ate::redo::clone_event;
use ate::session::AteSession;
use ate::time::ChainTimestamp;
use ate::weak::DaoWeak;

fn ts(ms: u64) -> ChainTimestamp {
    ChainTimestamp { time_since_epoch_ms: ms }
}

fn plain_auth() -> MetaAuthorization {
    MetaAuthorization { read: ReadOption::Everyone(None), write: WriteOption::Inherit }
}

fn open_mem_chain() -> Chain {
    Chain::new(TrustMode::Centralized, Vec::new())
}

fn reopen(chain: &Chain) -> Chain {
    let mut copy: Vec<EventData> = Vec::new();
    for e in chain.redo.records.iter() {
        copy.push(clone_event(e));
    }
    Chain::open_from_log(copy, TrustMode::Centralized, Vec::new())
}

#[test]
fn create_root_store_and_reload() {
    // Open a chain in memory with a keyless session, store a value, commit,
    // then re-open the chain from the same redo log with no in-memory state.
    let mut chain = open_mem_chain();
    let session = AteSession::new();
    let mut dio = DioMut::new(TransactionScope::Local, ts(1));
    let payload = serde_json::to_vec(&"hello").unwrap();
    let dao = dio.store(None, plain_auth(), payload);
    let k1 = dao.key();
    dio.commit(&mut chain, &session).unwrap();

    let loaded = load(&chain, &session, &k1).unwrap();
    let value: String = serde_json::from_slice(&loaded.data).unwrap();
    assert_eq!(value, "hello");

    let chain2 = reopen(&chain);
    let loaded2 = load(&chain2, &session, &k1).unwrap();
    let value2: String = serde_json::from_slice(&loaded2.data).unwrap();
    assert_eq!(value2, "hello");
}

#[test]
fn encrypted_store_needs_the_read_key() {
    // A payload stored under a specific read policy can only be read back by
    // a session holding the named key.
    let mut chain = open_mem_chain();
    let read_key = EncryptKey { val: 0x1234_5678_9abc_def0_1111_2222_3333_4444 };
    let rh = read_key.hash();
    let derived = DerivedSecret { val: 0x5555_6666_7777_8888_9999_aaaa_bbbb_cccc };

    let mut session = AteSession::new();
    session.read_keys.push(read_key);

    let mut dio = DioMut::new(TransactionScope::Local, ts(1));
    let payload = serde_json::to_vec(&"secret words").unwrap();
    let auth = MetaAuthorization {
        read: ReadOption::Specific(rh, derived),
        write: WriteOption::Inherit,
    };
    let dao = dio.store(None, auth, payload);
    let k = dao.key();
    dio.commit(&mut chain, &session).unwrap();

    // Without the key the load reports the missing read key.
    let bare = AteSession::new();
    match load(&chain, &bare, &k) {
        Err(LoadError::Transformation(TransformError::MissingReadKey(h))) => {
            assert_eq!(h.val, rh.val);
        }
        other => panic!("expected a missing read key, got {:?}", other.is_ok()),
    }

    // With the key the original value comes back.
    let loaded = load(&chain, &session, &k).unwrap();
    let value: String = serde_json::from_slice(&loaded.data).unwrap();
    assert_eq!(value, "secret words");
}

#[test]
fn tombstone_does_not_survive_compaction() {
    // Store then delete; the flip drops both the record and its tombstone and
    // a fresh open does not find the key.
    let mut chain = open_mem_chain();
    let session = AteSession::new();
    let mut dio = DioMut::new(TransactionScope::Local, ts(1));
    let dao = dio.store(None, plain_auth(), b"abc".to_vec());
    let k = dao.key();
    dio.commit(&mut chain, &session).unwrap();

    let mut dio2 = DioMut::new(TransactionScope::Local, ts(10));
    dio2.delete_checked(&chain, k).unwrap();
    dio2.commit(&mut chain, &session).unwrap();

    // Before compaction the key is already deleted.
    match load(&chain, &session, &k) {
        Err(LoadError::AlreadyDeleted(_)) => {}
        other => panic!("expected already deleted, got ok={}", other.is_ok()),
    }

    let _summary = chain.flip();
    assert_eq!(chain.redo.records.len(), 0);

    let chain2 = reopen(&chain);
    match load(&chain2, &session, &k) {
        Err(LoadError::NotFound(_)) => {}
        other => panic!("expected not found after compaction, got ok={}", other.is_ok()),
    }
}

#[test]
fn compaction_preserves_live_state() {
    // Two stores of different keys, one overwrite: after the flip the live
    // values are still loadable and the stale version is gone.
    let mut chain = open_mem_chain();
    let session = AteSession::new();
    let mut dio = DioMut::new(TransactionScope::Local, ts(1));
    let a = dio.store(None, plain_auth(), b"first".to_vec());
    let ka = a.key();
    let b = dio.store(None, plain_auth(), b"other".to_vec());
    let kb = b.key();
    dio.commit(&mut chain, &session).unwrap();

    let mut dio2 = DioMut::new(TransactionScope::Local, ts(5));
    let mut a2 = dio2.store_with_key(ka, None, plain_auth(), b"second".to_vec());
    a2.set_data(b"second".to_vec());
    dio2.commit_row(&a2);
    dio2.commit(&mut chain, &session).unwrap();

    assert_eq!(chain.redo.records.len(), 3);
    let _ = chain.flip();
    assert_eq!(chain.redo.records.len(), 2);

    let la = load(&chain, &session, &ka).unwrap();
    assert_eq!(la.data, b"second".to_vec());
    let lb = load(&chain, &session, &kb).unwrap();
    assert_eq!(lb.data, b"other".to_vec());
}

#[test]
fn duplicate_event_is_rejected() {
    // Feeding the same event twice trips the anti-replay validator.
    let mut chain = open_mem_chain();
    let ev = simple_event(PrimaryKey::from_u128(7), b"x".to_vec(), 1);
    let copy = clone_event(&ev);
    chain.feed(vec![ev]).unwrap();
    match chain.feed(vec![copy]) {
        Err(CommitError::ValidationError) => {}
        other => panic!("expected a validation error, got ok={}", other.is_ok()),
    }
}

fn simple_event(key: PrimaryKey, data: Vec<u8>, when: u64) -> EventData {
    let mut meta = Metadata::new();
    meta.push(CoreMetadata::Timestamp(ts(when)));
    meta.push(CoreMetadata::Authorization(plain_auth()));
    meta.push(CoreMetadata::DataHash(AteHash::from_bytes(&data)));
    EventData { header: EventHeader { key: Some(key), meta }, data: Some(data) }
}

#[test]
fn bad_data_hash_is_rejected() {
    // An event whose payload does not hash to its declared value is refused.
    let mut chain = open_mem_chain();
    let mut meta = Metadata::new();
    meta.push(CoreMetadata::Timestamp(ts(1)));
    meta.push(CoreMetadata::DataHash(AteHash { val: 42 }));
    let ev = EventData {
        header: EventHeader { key: Some(PrimaryKey::from_u128(9)), meta },
        data: Some(b"zzz".to_vec()),
    };
    assert!(!check_data_hash(&ev));
    match chain.feed(vec![ev]) {
        Err(CommitError::ValidationError) => {}
        other => panic!("expected a validation error, got ok={}", other.is_ok()),
    }
}

#[test]
fn distributed_chain_demands_signatures() {
    // Under distributed trust an unsigned event is refused, and an event
    // signed by a root key whose public half travels in the same transaction
    // is accepted.
    let root = PrivateSignKey { material: 0xdead_beef_0102_0304 };
    let roots = vec![root.hash()];
    let mut chain = Chain::new(TrustMode::Distributed, roots);

    let unsigned = simple_event(PrimaryKey::from_u128(5), b"nope".to_vec(), 1);
    match chain.feed(vec![unsigned]) {
        Err(CommitError::ValidationError) => {}
        other => panic!("expected a validation error, got ok={}", other.is_ok()),
    }

    // A public-key event first, then a signed store, in one transaction.
    let mut kmeta = Metadata::new();
    kmeta.push(CoreMetadata::Timestamp(ts(1)));
    kmeta.push(CoreMetadata::PublicKey(root.as_public()));
    let mut kheader = EventHeader { key: None, meta: kmeta };
    let kbase = compute_sig_base(&kheader);
    kheader.meta.push(CoreMetadata::Signature(MetaSignature {
        signature: root.sign(&kbase),
        public_key_hash: root.hash(),
    }));
    let key_event = EventData { header: kheader, data: None };

    let data = b"signed".to_vec();
    let mut smeta = Metadata::new();
    smeta.push(CoreMetadata::Timestamp(ts(2)));
    smeta.push(CoreMetadata::DataHash(AteHash::from_bytes(&data)));
    let mut sheader = EventHeader { key: Some(PrimaryKey::from_u128(6)), meta: smeta };
    let base = compute_sig_base(&sheader);
    sheader.meta.push(CoreMetadata::Signature(MetaSignature {
        signature: root.sign(&base),
        public_key_hash: root.hash(),
    }));
    let store_event = EventData { header: sheader, data: Some(data) };

    chain.feed(vec![key_event, store_event]).unwrap();
    assert_eq!(chain.redo.records.len(), 2);
}

#[test]
fn empty_commit_is_a_successful_no_op() {
    let mut chain = open_mem_chain();
    let session = AteSession::new();
    let before = chain.redo.records.len();
    let mut dio = DioMut::new(TransactionScope::Local, ts(1));
    let decache = dio.commit(&mut chain, &session).unwrap();
    assert_eq!(decache.len(), 0);
    assert_eq!(chain.redo.records.len(), before);
}

#[test]
fn loading_the_reserved_key_is_invalid() {
    let chain = open_mem_chain();
    let session = AteSession::new();
    match load(&chain, &session, &PrimaryKey::from_u128(0)) {
        Err(LoadError::NotFound(_)) => {}
        other => panic!("expected not found for the reserved key, got ok={}", other.is_ok()),
    }
}

#[test]
fn tombstoning_a_nonexistent_key_fails() {
    let chain = open_mem_chain();
    let mut dio = DioMut::new(TransactionScope::Local, ts(1));
    match dio.delete_checked(&chain, PrimaryKey::from_u128(77)) {
        Err(LoadError::NotFound(k)) => assert_eq!(k.val, 77),
        other => panic!("expected not found, got ok={}", other.is_ok()),
    }
}

#[test]
fn local_lock_blocks_and_releases() {
    // A held local lock blocks another take of the key in the same process;
    // releasing it re-enables the take.
    let mut chain = open_mem_chain();
    let k = PrimaryKey::from_u128(11);
    assert!(chain.try_lock_local(&k));
    assert!(!chain.try_lock_local(&k));
    chain.unlock_local(&k);
    assert!(chain.try_lock_local(&k));
}

#[test]
fn dao_lock_through_the_transaction() {
    let mut chain = open_mem_chain();
    let mut dio = DioMut::new(TransactionScope::Local, ts(1));
    let mut dao = dio.store(None, plain_auth(), b"v".to_vec());
    assert!(!dao.is_locked());
    assert!(dio.try_lock(&mut chain, &mut dao).unwrap());
    assert!(dao.is_locked());
    // A second transaction in the same process cannot take the same key.
    let mut dio2 = DioMut::new(TransactionScope::Local, ts(2));
    let mut other = dio2.store_with_key(dao.key(), None, plain_auth(), b"w".to_vec());
    assert!(!dio2.try_lock(&mut chain, &mut other).unwrap());
    // Releasing re-enables it.
    assert!(dio.unlock(&mut chain, &mut dao).unwrap());
    assert!(dio2.try_lock(&mut chain, &mut other).unwrap());
}

#[test]
fn auth_guard_commits_only_when_dirty() {
    let mut dio = DioMut::new(TransactionScope::Local, ts(1));
    let mut dao = dio.store(None, plain_auth(), b"v".to_vec());
    let mut guard = DaoAuthGuard::new(&dao);
    guard.commit(&mut dao).unwrap();
    assert!(matches!(dao.row.auth.read, ReadOption::Everyone(None)));
    let mut guard2 = DaoAuthGuard::new(&dao);
    guard2.set_write(WriteOption::Nobody);
    guard2.commit(&mut dao).unwrap();
    assert!(matches!(dao.row.auth.write, WriteOption::Nobody));
}

#[test]
fn auth_change_round_trips_through_commit() {
    // Change the write policy through the guard, commit, and see it on the
    // reloaded object's event.
    let mut chain = open_mem_chain();
    let session = AteSession::new();
    let mut dio = DioMut::new(TransactionScope::Local, ts(1));
    let mut dao = dio.store(None, plain_auth(), b"v".to_vec());
    let mut guard = DaoAuthGuard::new(&dao);
    guard.set_write(WriteOption::Nobody);
    guard.commit(&mut dao).unwrap();
    dio.commit_row(&dao);
    let k = dao.key();
    dio.commit(&mut chain, &session).unwrap();
    let evt = chain.redo.read(&chain.indexer.lookup_primary(&k).unwrap().record).unwrap();
    let auth = evt.header.meta.get_authorization().unwrap();
    assert!(matches!(auth.write, WriteOption::Nobody));
}

#[test]
fn header_encoding_round_trips() {
    let ev = simple_event(PrimaryKey::from_u128(0x0abc), b"payload".to_vec(), 99);
    let bytes = encode_header(&ev.header);
    let back = decode_header(&bytes).unwrap();
    assert_eq!(back.key.unwrap().val, 0x0abc);
    assert_eq!(back.meta.core.len(), 3);
    let h1 = compute_event_hash(&ev.header);
    let h2 = compute_event_hash(&back);
    assert_eq!(h1.val, h2.val);
}

#[test]
fn event_hash_is_the_digest_of_the_header_encoding() {
    // The identity of an accepted event is the digest of its serialized
    // header.
    let mut chain = open_mem_chain();
    let ev = simple_event(PrimaryKey::from_u128(3), b"x".to_vec(), 1);
    let expect = compute_event_hash(&ev.header);
    chain.feed(vec![ev]).unwrap();
    let leaf = chain.indexer.lookup_primary(&PrimaryKey::from_u128(3)).unwrap();
    assert_eq!(leaf.record.val, expect.val);
    let stored = chain.redo.read(&leaf.record).unwrap();
    assert_eq!(compute_event_hash(&stored.header).val, expect.val);
}

#[test]
fn children_follow_their_parent_collection() {
    let mut chain = open_mem_chain();
    let session = AteSession::new();
    let mut dio = DioMut::new(TransactionScope::Local, ts(1));
    let parent = dio.store(None, plain_auth(), b"p".to_vec());
    let pk = parent.key();
    let link = MetaParent { vec: MetaCollection { parent_id: pk, collection_id: 4 } };
    let c1 = dio.store(Some(link), plain_auth(), b"c1".to_vec());
    let c2 = dio.store(Some(link), plain_auth(), b"c2".to_vec());
    dio.commit(&mut chain, &session).unwrap();
    let kids = ate::dio::children(&chain, &pk, 4);
    assert_eq!(kids.len(), 2);
    assert!(kids.iter().any(|k| k.val == c1.key().val));
    assert!(kids.iter().any(|k| k.val == c2.key().val));
}

#[test]
fn commit_fails_when_the_read_policy_cannot_resolve() {
    // A root object with an inherited read policy has no one to inherit from:
    // the egress transform refuses and the commit reports it.
    let mut chain = open_mem_chain();
    let session = AteSession::new();
    let mut dio = DioMut::new(TransactionScope::Local, ts(1));
    let auth = MetaAuthorization { read: ReadOption::Inherit, write: WriteOption::Inherit };
    let _ = dio.store(None, auth, b"v".to_vec());
    match dio.commit(&mut chain, &session) {
        Err(CommitError::SerializationError) => {}
        other => panic!("expected a serialization error, got ok={}", other.is_ok()),
    }
    // The rejected transaction left the chain untouched.
    assert_eq!(chain.redo.records.len(), 0);
}

#[test]
fn commit_fails_without_the_named_read_key() {
    // Sealing under a specific policy needs the named key in the session.
    let mut chain = open_mem_chain();
    let session = AteSession::new();
    let mut dio = DioMut::new(TransactionScope::Local, ts(1));
    let rh = EncryptKey { val: 0x77 }.hash();
    let auth = MetaAuthorization {
        read: ReadOption::Specific(rh, DerivedSecret { val: 3 }),
        write: WriteOption::Inherit,
    };
    let _ = dio.store(None, auth, b"v".to_vec());
    match dio.commit(&mut chain, &session) {
        Err(CommitError::SerializationError) => {}
        other => panic!("expected a serialization error, got ok={}", other.is_ok()),
    }
}

#[test]
fn digests_depend_on_content_and_order() {
    let a = AteHash::from_bytes(b"abc");
    let b = AteHash::from_bytes(b"acb");
    let c = AteHash::from_bytes(b"");
    assert_ne!(a.val, b.val);
    assert_ne!(a.val, c.val);
    assert_eq!(a.val, AteHash::from_bytes(b"abc").val);
}

#[test]
fn generated_keys_are_never_the_reserved_key() {
    for _ in 0..32 {
        assert!(PrimaryKey::generate().val != 0);
    }
}

#[test]
fn weak_reference_dangles_or_resolves() {
    // A reference whose session is gone fails with the dangling error; a live
    // one resolves, and one pointing at nothing yields nothing.
    let mut chain = open_mem_chain();
    let session = AteSession::new();
    let mut dio = DioMut::new(TransactionScope::Local, ts(1));
    let mut weak = DaoWeak::new();
    assert!(weak.load(Some(&chain), &session).unwrap().is_none());
    let dao = weak.store(&mut dio, None, plain_auth(), b"linked".to_vec());
    assert_eq!(weak.key().unwrap().val, dao.key().val);
    dio.commit(&mut chain, &session).unwrap();

    match weak.load(None, &session) {
        Err(LoadError::WeakDio) => {}
        other => panic!("expected a dangling reference, got ok={}", other.is_ok()),
    }
    let live = weak.load(Some(&chain), &session).unwrap().unwrap();
    assert_eq!(live.data, b"linked".to_vec());

    // Taking it out empties the reference.
    let taken = weak.take(Some(&chain), &session).unwrap().unwrap();
    assert_eq!(taken.data, b"linked".to_vec());
    assert!(weak.key().is_none());
    assert!(weak.load(Some(&chain), &session).unwrap().is_none());
}

#[test]
fn key_confusion_is_not_a_missing_key() {
    // The session holds the key the policy names, but the stored short hash
    // does not match the transmuted key: the mismatch is unspecified
    // readability, never a silently wrong key and not a missing one.
    let mut chain = open_mem_chain();
    let read_key = EncryptKey { val: 0x4242 };
    let rh = read_key.hash();
    let derived = DerivedSecret { val: 0x1111 };
    let mut session = AteSession::new();
    session.read_keys.push(read_key);

    let sealing = derived.transmute(&read_key);
    let iv = InitializationVector { val: 0x7777 };
    let payload = ate::crypto::seal(&sealing, &iv, &b"hidden".to_vec());
    let mut meta = Metadata::new();
    meta.push(CoreMetadata::Timestamp(ts(1)));
    meta.push(CoreMetadata::Authorization(MetaAuthorization {
        read: ReadOption::Specific(rh, derived),
        write: WriteOption::Inherit,
    }));
    meta.push(CoreMetadata::InitializationVector(iv));
    // A corrupted confidentiality hash: not the sealing key's short hash.
    meta.push(CoreMetadata::Confidentiality(MetaConfidentiality {
        hash: AteHash { val: sealing.short_hash().val.wrapping_add(1) },
    }));
    meta.push(CoreMetadata::DataHash(AteHash::from_bytes(&payload)));
    let ev = EventData {
        header: EventHeader { key: Some(PrimaryKey::from_u128(21)), meta },
        data: Some(payload),
    };
    chain.feed(vec![ev]).unwrap();
    match load(&chain, &session, &PrimaryKey::from_u128(21)) {
        Err(LoadError::Transformation(TransformError::UnspecifiedReadability)) => {}
        other => panic!("expected unspecified readability, got ok={}", other.is_ok()),
    }
}

#[test]
fn commit_releases_the_pipe_locks() {
    // A lock taken through the transaction is queued on commit and released:
    // the local table frees the key and the caller gets the keys to unlock
    // remotely.
    let mut chain = open_mem_chain();
    let session = AteSession::new();
    let mut dio = DioMut::new(TransactionScope::Local, ts(1));
    let mut dao = dio.store(None, plain_auth(), b"v".to_vec());
    assert!(dio.try_lock(&mut chain, &mut dao).unwrap());
    dio.commit_row(&dao);
    let unlocks = dio.pipe_unlocks();
    assert_eq!(unlocks.len(), 1);
    assert_eq!(unlocks[0].val, dao.key().val);
    assert!(chain.is_locked_local(&dao.key()));
    dio.commit(&mut chain, &session).unwrap();
    assert!(!chain.is_locked_local(&dao.key()));
    assert!(dio.pipe_unlocks().is_empty());
}

#[test]
fn locked_then_delete_stages_a_tombstone() {
    let mut chain = open_mem_chain();
    let session = AteSession::new();
    let mut dio = DioMut::new(TransactionScope::Local, ts(1));
    let dao = dio.store(None, plain_auth(), b"v".to_vec());
    let k = dao.key();
    dio.commit(&mut chain, &session).unwrap();

    let mut dio2 = DioMut::new(TransactionScope::Local, ts(5));
    let mut dao2 = dio2.store_with_key(k, None, plain_auth(), b"v".to_vec());
    assert!(dio2.try_lock(&mut chain, &mut dao2).unwrap());
    dao2.state.lock = ate::dio_mut::DaoMutLock::LockedThenDelete;
    dio2.commit_row(&dao2);
    dio2.commit(&mut chain, &session).unwrap();
    match load(&chain, &session, &k) {
        Err(LoadError::AlreadyDeleted(_)) => {}
        other => panic!("expected already deleted, got ok={}", other.is_ok()),
    }
}

#[test]
fn loaded_objects_carry_their_authorization() {
    // The auth-change round trip lands on the loaded object itself.
    let mut chain = open_mem_chain();
    let session = AteSession::new();
    let mut dio = DioMut::new(TransactionScope::Local, ts(1));
    let mut dao = dio.store(None, plain_auth(), b"v".to_vec());
    let mut guard = DaoAuthGuard::new(&dao);
    guard.set_write(WriteOption::Nobody);
    guard.commit(&mut dao).unwrap();
    dio.commit_row(&dao);
    let k = dao.key();
    dio.commit(&mut chain, &session).unwrap();
    let loaded = load(&chain, &session, &k).unwrap();
    let auth = loaded.auth.expect("the stored event carries its authorization");
    assert!(matches!(auth.write, WriteOption::Nobody));
    assert!(matches!(auth.read, ReadOption::Everyone(None)));
}

#[test]
fn attach_and_detach_move_an_object_between_parents() {
    let mut chain = open_mem_chain();
    let session = AteSession::new();
    let mut dio = DioMut::new(TransactionScope::Local, ts(1));
    let parent = dio.store(None, plain_auth(), b"p".to_vec());
    let mut child = dio.store(None, plain_auth(), b"c".to_vec());
    assert!(child.parent().is_none());
    child.attach_ext(parent.key(), 7);
    assert_eq!(child.parent_id().unwrap().val, parent.key().val);
    assert_eq!(child.parent().unwrap().collection_id, 7);
    dio.commit_row(&child);
    let ck = child.key();
    dio.commit(&mut chain, &session).unwrap();
    let kids = ate::dio::children(&chain, &parent.key(), 7);
    assert_eq!(kids.len(), 1);
    assert_eq!(kids[0].val, ck.val);

    let mut dio2 = DioMut::new(TransactionScope::Local, ts(10));
    let mut child2 = dio2.store_with_key(ck, None, plain_auth(), b"c".to_vec());
    child2.attach_ext(parent.key(), 7);
    child2.detach();
    assert!(child2.parent().is_none());
    assert_eq!(child2.take(), b"c".to_vec());
}
