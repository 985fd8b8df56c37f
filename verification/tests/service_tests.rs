use ate::chain::{Chain, TrustMode};
use ate::event::{EventData, EventHeader};
use ate::hashing::AteHash;
use ate::header::PrimaryKey;
use ate::meta::{CoreMetadata, Metadata};
use ate::service::{find_reply, ServiceHook};
use ate::time::ChainTimestamp;

fn ts(ms: u64) -> ChainTimestamp {
    ChainTimestamp { time_since_epoch_ms: ms }
}

fn type_id(name: &str) -> AteHash {
    AteHash::from_bytes(name.as_bytes())
}

fn request_event(key: PrimaryKey, tname: AteHash, data: Vec<u8>, when: u64) -> EventData {
    let mut meta = Metadata::new();
    meta.push(CoreMetadata::Timestamp(ts(when)));
    meta.push(CoreMetadata::TypeName(tname));
    meta.push(CoreMetadata::DataHash(AteHash::from_bytes(&data)));
    EventData { header: EventHeader { key: Some(key), meta }, data: Some(data) }
}

#[test]
fn service_rpc_round_trip() {
    // A server registers a handler for ping requests; a client stores a ping
    // and observes the pong reply under its request key.
    let mut chain = Chain::new(TrustMode::Centralized, Vec::new());
    let hook = ServiceHook::new(type_id("Ping"), type_id("Pong"), type_id("PingError"));

    // Client: store the request.
    let request_key = PrimaryKey::from_u128(0x50);
    let request_payload = serde_json::to_vec(&"hi").unwrap();
    let request = request_event(request_key, type_id("Ping"), request_payload, 1);
    assert!(hook.matches(&request));
    chain.feed(vec![request]).unwrap();

    // Server: the stored request matches the filter; the handler's reply is
    // appended as a reply event tagged with the request's key.
    let stored = chain
        .redo
        .read(&chain.indexer.lookup_primary(&request_key).unwrap().record)
        .unwrap();
    assert!(hook.matches(stored));
    let request_text: String = serde_json::from_slice(stored.data.as_ref().unwrap()).unwrap();
    let response_payload = serde_json::to_vec(&request_text).unwrap();
    let reply = hook.make_reply_event(request_key, true, response_payload, ts(2));
    assert!(!hook.matches(&reply));
    chain.feed(vec![reply]).unwrap();

    // Client: the reply arrives under the request key with the pong payload.
    let found = find_reply(&chain, &request_key).expect("a reply should be present");
    assert_eq!(
        found.header.meta.get_type_name().unwrap().val,
        type_id("Pong").val
    );
    let pong: String = serde_json::from_slice(found.data.as_ref().unwrap()).unwrap();
    assert_eq!(pong, "hi");
}

#[test]
fn service_filter_ignores_replies_and_other_types() {
    let hook = ServiceHook::new(type_id("Ping"), type_id("Pong"), type_id("PingError"));
    let other = request_event(PrimaryKey::from_u128(1), type_id("Other"), b"x".to_vec(), 1);
    assert!(!hook.matches(&other));
    let reply = hook.make_reply_event(PrimaryKey::from_u128(1), true, b"y".to_vec(), ts(2));
    assert!(!hook.matches(&reply));
}

#[test]
fn error_replies_carry_the_error_type() {
    let hook = ServiceHook::new(type_id("Ping"), type_id("Pong"), type_id("PingError"));
    let reply = hook.make_reply_event(PrimaryKey::from_u128(4), false, b"bad".to_vec(), ts(3));
    assert_eq!(
        reply.header.meta.get_type_name().unwrap().val,
        type_id("PingError").val
    );
    assert_eq!(reply.header.meta.get_reply().unwrap().val, 4);
}
