//! Service hooks: server-side RPC over a chain. A hook filters request
//! events by type name, and the handler's result comes back as a reply event
//! tagged with the request's key.

use vstd::prelude::*;

use crate::errors::BusError;
use crate::event::{EventData, EventHeader};
use crate::hashing::AteHash;
use crate::header::PrimaryKey;
use crate::meta::{spec_get_reply, spec_get_type_name, CoreMetadata, CoreMetadataV, Metadata};
use crate::time::ChainTimestamp;

verus! {

/// A registered service: the request it answers and the reply and error
/// types it writes back.
#[derive(Clone, Copy, Debug, PartialEq, Eq, Structural)]
pub struct ServiceHook {
    pub request_type: AteHash,
    pub response_type: AteHash,
    pub error_type: AteHash,
}

/// What a service reacts to, and how the chain tells it.
pub trait Service {
    /// Whether this event is a request for this service.
    fn filter(&self, evt: &EventData) -> bool;

    /// A matching request arrived under this key.
    fn notify(&self, key: PrimaryKey) -> Result<(), BusError>;
}

/// Whether an event asks for a service: its type name matches and it is not
/// already a reply.
pub open spec fn spec_service_filter(hook: ServiceHook, h: crate::event::EventHeaderV) -> bool {
    &&& spec_get_type_name(h.meta) == Some(hook.request_type)
    &&& spec_get_reply(h.meta) is None
}

impl ServiceHook {
    /// Register a service by its request, response and error type names.
    pub fn new(request_type: AteHash, response_type: AteHash, error_type: AteHash) -> (r:
        ServiceHook)
        ensures
            r.request_type == request_type,
            r.response_type == response_type,
            r.error_type == error_type,
    {
        ServiceHook { request_type, response_type, error_type }
    }

    /// Whether an event is a request for this service.
    pub fn matches(&self, evt: &EventData) -> (r: bool)
        ensures
            r == spec_service_filter(*self, evt@.header),
    {
        let tn = evt.header.meta.get_type_name();
        let reply = evt.header.meta.get_reply();
        match (tn, reply) {
            (Some(t), None) => t.val == self.request_type.val,
            _ => false,
        }
    }

    /// Build the reply event for a request: a fresh key, the reply marker
    /// pointing at the request, the response or error type name, and the
    /// handler's payload with its hash.
    pub fn make_reply_event(
        &self,
        request_key: PrimaryKey,
        ok: bool,
        payload: Vec<u8>,
        t: ChainTimestamp,
    ) -> (r: EventData)
        ensures
            crate::event::header_encodable(r@.header),
            spec_get_reply(r@.header.meta) == Some(request_key),
            spec_get_type_name(r@.header.meta) == Some(
                if ok {
                    self.response_type
                } else {
                    self.error_type
                },
            ),
            crate::event::data_hash_ok(r@),
            r@.data == Some(payload@),
            r@.header.key is Some,
            crate::meta::spec_get_tombstone(r@.header.meta) is None,
            !spec_service_filter(*self, r@.header),
    {
        let key = PrimaryKey::generate();
        let ph = AteHash::from_bytes(payload.as_slice());
        let mut meta = Metadata::new();
        meta.push(CoreMetadata::Reply(request_key));
        meta.push(CoreMetadata::TypeName(if ok {
            self.response_type
        } else {
            self.error_type
        }));
        meta.push(CoreMetadata::Timestamp(t));
        meta.push(CoreMetadata::DataHash(ph));
        let ev = EventData { header: EventHeader { key: Some(key), meta }, data: Some(payload) };
        proof {
            let m = ev@.header.meta;
            assert(m.len() == 4);
            let d1 = m.drop_first();
            let d2 = d1.drop_first();
            let d3 = d2.drop_first();
            assert(d1[0] == m[1] && d1.len() == 3);
            assert(d2[0] == m[2] && d2.len() == 2);
            assert(d3[0] == m[3] && d3.len() == 1);
            assert(m[0] == CoreMetadataV::Reply(request_key));
            assert(spec_get_reply(m) == Some(request_key));
            assert(spec_get_type_name(m) == spec_get_type_name(d1));
            assert(crate::meta::spec_get_data_hash(m) == crate::meta::spec_get_data_hash(d1));
            assert(crate::meta::spec_get_data_hash(d1) == crate::meta::spec_get_data_hash(d2));
            assert(crate::meta::spec_get_data_hash(d2) == crate::meta::spec_get_data_hash(d3));
            assert(crate::meta::spec_get_data_hash(d3) == Some(ph));
            assert(crate::meta::spec_get_tombstone(m) == crate::meta::spec_get_tombstone(d1));
            assert(crate::meta::spec_get_tombstone(d1) == crate::meta::spec_get_tombstone(d2));
            assert(crate::meta::spec_get_tombstone(d2) == crate::meta::spec_get_tombstone(d3));
            let d4 = d3.drop_first();
            assert(d4.len() == 0);
            assert(crate::meta::spec_get_tombstone(d4) is None);
            assert(!(d3[0] is Tombstone));
            assert(crate::meta::spec_get_tombstone(d3) is None);
        }
        ev
    }
}

/// Find the reply to a request among the chain's events: the first event
/// whose reply marker names the request key.
pub fn find_reply<'a>(chain: &'a crate::chain::Chain, request_key: &PrimaryKey) -> (r: Option<
    &'a EventData,
>)
    requires
        chain.wf(),
    ensures
        match r {
            Some(e) => chain.redo.events().contains(e@) && spec_get_reply(e@.header.meta) == Some(
                *request_key,
            ),
            None => forall|i: int|
                0 <= i < chain.redo.events().len() ==> spec_get_reply(
                    (#[trigger] chain.redo.events()[i]).header.meta,
                ) != Some(*request_key),
        },
{
    let n = chain.redo.records.len();
    proof {
        assert(chain.redo.events().len() == chain.redo.records@.len());
    }
    let mut i: usize = 0;
    while i < n
        invariant
            chain.wf(),
            n == chain.redo.records@.len(),
            i <= n,
            forall|j: int|
                0 <= j < i ==> spec_get_reply(
                    (#[trigger] chain.redo.events()[j]).header.meta,
                ) != Some(*request_key),
        decreases n - i,
    {
        proof {
            assert(chain.redo.events()[i as int] == chain.redo.records@[i as int]@);
        }
        match chain.redo.records[i].header.meta.get_reply() {
            Some(k) => {
                if k.val == request_key.val {
                    proof {
                        assert(chain.redo.events().contains(chain.redo.records@[i as int]@));
                    }
                    return Some(&chain.redo.records[i]);
                }
            },
            None => {},
        }
        i = i + 1;
    }
    None
}

} // verus!
