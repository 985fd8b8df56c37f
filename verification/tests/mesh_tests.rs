use ate::chain::{Chain, TrustMode};
use ate::dio::load;
use ate::dio_mut::{DioMut, TransactionScope};
use ate::errors::{CommitError, CommsError, LoadError};
use ate::hashing::AteHash;
use ate::header::PrimaryKey;
use ate::meta::{MetaAuthorization, ReadOption, WriteOption};
use ate::mesh::server_load_many;
use ate::session::AteSession;
use ate::time::ChainTimestamp;
use ate::mesh::{mesh_hello_exchange_receiver, mesh_hello_exchange_sender, mesh_hello_upgrade_key,
    ActiveSessionPipe, KeySize, RecoveryMode, SerializationFormat, ServerLockTable};

#[test]
fn hello_upgrade_picks_the_larger_key() {
    assert!(mesh_hello_upgrade_key(None, None).is_none());
    assert_eq!(mesh_hello_upgrade_key(Some(KeySize::Bit128), None), Some(KeySize::Bit128));
    assert_eq!(mesh_hello_upgrade_key(None, Some(KeySize::Bit192)), Some(KeySize::Bit192));
    assert_eq!(
        mesh_hello_upgrade_key(Some(KeySize::Bit128), Some(KeySize::Bit256)),
        Some(KeySize::Bit256)
    );
    assert_eq!(
        mesh_hello_upgrade_key(Some(KeySize::Bit256), Some(KeySize::Bit128)),
        Some(KeySize::Bit256)
    );
    assert_eq!(
        mesh_hello_upgrade_key(Some(KeySize::Bit192), Some(KeySize::Bit192)),
        Some(KeySize::Bit192)
    );
}

#[test]
fn hello_exchange_settles_encryption_and_format() {
    // The receiver negotiates; the sender adopts the reply.
    let reply = mesh_hello_exchange_receiver(
        String::from("/root/alice/db"),
        Some(KeySize::Bit256),
        Some(KeySize::Bit128),
        SerializationFormat::MessagePack,
    );
    assert_eq!(reply.encryption, Some(KeySize::Bit256));
    let client = mesh_hello_exchange_sender(
        String::from("/root/alice/db"),
        reply.encryption,
        reply.wire_format,
    );
    assert_eq!(client.encryption, Some(KeySize::Bit256));
    assert!(matches!(client.wire_format, SerializationFormat::MessagePack));
    assert_eq!(client.path, "/root/alice/db");
}

#[test]
fn full_scope_commit_completes_only_after_every_peer() {
    // A full-scope commit registered against two transmit peers completes on
    // the second confirmation, not the first.
    let mut pipe = ActiveSessionPipe::new(RecoveryMode::ReadOnlyOnLoss, 2);
    pipe.mark_connected();
    let id = pipe.feed(TransactionScope::Full, true, 42).unwrap().unwrap();
    assert_eq!(id, 42);
    assert!(!pipe.on_confirmed(42));
    assert!(pipe.on_confirmed(42));
    // A stray confirmation for an unknown commit does nothing.
    assert!(!pipe.on_confirmed(42));
}

#[test]
fn local_scope_needs_no_confirmation() {
    let mut pipe = ActiveSessionPipe::new(RecoveryMode::ReadOnlyOnLoss, 2);
    pipe.mark_connected();
    assert!(pipe.feed(TransactionScope::Local, true, 7).unwrap().is_none());
    assert!(pipe.feed(TransactionScope::NoneScope, true, 8).unwrap().is_none());
    assert!(pipe.feed(TransactionScope::Full, false, 9).unwrap().is_none());
}

#[test]
fn read_only_link_upgrades_every_commit_to_full_scope() {
    // After a rejected write the pipe treats the link as read-only and
    // upgrades local commits to full scope so the server stays the authority.
    let mut pipe = ActiveSessionPipe::new(RecoveryMode::ReadOnlyOnLoss, 1);
    pipe.mark_connected();
    pipe.on_read_only();
    assert!(matches!(pipe.effective_scope(TransactionScope::Local), TransactionScope::Full));
    let id = pipe.feed(TransactionScope::Local, true, 5).unwrap();
    assert_eq!(id, Some(5));
}

#[test]
fn disconnect_degrades_by_recovery_mode() {
    // While disconnected, the recovery mode decides whether a commit errors
    // out, degrades to read-only, or passes silently.
    let mut erroring = ActiveSessionPipe::new(RecoveryMode::ErrorOnLoss, 1);
    match erroring.feed(TransactionScope::Local, true, 1) {
        Err(CommitError::CommsError(CommsError::Disconnected)) => {}
        other => panic!("expected disconnected, got ok={}", other.is_ok()),
    }
    let mut readonly = ActiveSessionPipe::new(RecoveryMode::ReadOnlyOnLoss, 1);
    match readonly.feed(TransactionScope::Local, true, 2) {
        Err(CommitError::CommsError(CommsError::ReadOnly)) => {}
        other => panic!("expected read-only, got ok={}", other.is_ok()),
    }
    let mut silent = ActiveSessionPipe::new(RecoveryMode::SilentRetry, 1);
    assert!(silent.feed(TransactionScope::Local, true, 3).unwrap().is_none());
}

#[test]
fn disconnect_forces_distributed_trust_and_reconnect_restores_writes() {
    // Losing the link switches the chain to distributed integrity and kills
    // pending requests; after a reconnect, commits flow again.
    let mut chain = Chain::new(TrustMode::Centralized, Vec::new());
    let mut pipe = ActiveSessionPipe::new(RecoveryMode::ReadOnlyOnLoss, 1);
    pipe.mark_connected();
    pipe.try_lock(PrimaryKey::from_u128(8)).unwrap();
    pipe.on_disconnect(&mut chain);
    assert!(matches!(chain.integrity, TrustMode::Distributed));
    assert!(!pipe.is_connected());
    match pipe.feed(TransactionScope::Local, true, 4) {
        Err(CommitError::CommsError(CommsError::ReadOnly)) => {}
        other => panic!("expected read-only while offline, got ok={}", other.is_ok()),
    }
    pipe.mark_connected();
    let id = pipe.feed(TransactionScope::Full, true, 5).unwrap();
    assert_eq!(id, Some(5));
    assert!(pipe.on_confirmed(5));
}

#[test]
fn lock_requests_settle_or_time_out() {
    let mut pipe = ActiveSessionPipe::new(RecoveryMode::ReadOnlyOnLoss, 1);
    let k = PrimaryKey::from_u128(31);
    // Disconnected: refused outright.
    match pipe.try_lock(k) {
        Err(CommitError::LockError(CommsError::Disconnected)) => {}
        other => panic!("expected disconnected, got ok={}", other.is_ok()),
    }
    pipe.mark_connected();
    pipe.try_lock(k).unwrap();
    assert!(pipe.on_lock_reply(k, true));
    pipe.try_lock(k).unwrap();
    assert!(!pipe.on_lock_reply(k, false));
    pipe.try_lock(k).unwrap();
    match pipe.on_lock_timeout(k) {
        CommitError::LockError(CommsError::Timeout) => {}
        other => panic!("expected a timeout, got {:?}", matches!(other, CommitError::PipeError)),
    }
}

#[test]
fn distributed_lock_contention_between_two_clients() {
    // Two clients against one server: the second attempt on a held key is
    // refused until the holder releases it.
    let mut server = ServerLockTable::new();
    let k = PrimaryKey::from_u128(99);
    let client_x = 1u64;
    let client_y = 2u64;
    assert!(server.try_lock(client_x, k));
    assert!(!server.try_lock(client_y, k));
    // A release by the non-holder changes nothing.
    server.unlock(client_y, k);
    assert!(!server.try_lock(client_y, k));
    server.unlock(client_x, k);
    assert!(server.try_lock(client_y, k));
}

#[test]
fn load_requests_settle_or_time_out() {
    let mut pipe = ActiveSessionPipe::new(RecoveryMode::ReadOnlyOnLoss, 1);
    let leafs = vec![AteHash { val: 5 }, AteHash { val: 6 }];
    match pipe.load_many(12, leafs.clone()) {
        Err(LoadError::Disconnected) => {}
        other => panic!("expected disconnected, got ok={}", other.is_ok()),
    }
    pipe.mark_connected();
    pipe.load_many(12, leafs.clone()).unwrap();
    assert!(pipe.on_load_done(12, false).is_none());
    pipe.load_many(13, leafs).unwrap();
    assert_eq!(pipe.on_load_done(13, true), Some(LoadError::Timeout));
}

#[test]
fn server_answers_one_payload_per_requested_leaf() {
    // The server streams one answer per requested hash, in request order:
    // the payload where the chain holds the record, nothing where it does
    // not.
    let mut chain = Chain::new(TrustMode::Centralized, Vec::new());
    let session = AteSession::new();
    let mut dio = DioMut::new(TransactionScope::Local, ChainTimestamp { time_since_epoch_ms: 1 });
    let auth = MetaAuthorization { read: ReadOption::Everyone(None), write: WriteOption::Inherit };
    let dao = dio.store(None, auth, b"cargo".to_vec());
    let k = dao.key();
    dio.commit(&mut chain, &session).unwrap();
    let leaf = chain.indexer.lookup_primary(&k).unwrap().record;

    let answers = server_load_many(&chain, &vec![AteHash { val: 424242 }, leaf]);
    assert_eq!(answers.len(), 2);
    assert!(answers[0].is_none());
    assert_eq!(answers[1].as_ref().unwrap(), &b"cargo".to_vec());
    // An unsealed load of the same key agrees with the streamed payload.
    let loaded = load(&chain, &session, &k).unwrap();
    assert_eq!(&loaded.data, answers[1].as_ref().unwrap());
}
