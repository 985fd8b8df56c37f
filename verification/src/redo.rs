//! The redo log: the append-only event record backing a chain, with its
//! hash-to-offset index, the flip (compaction) staging file, and the on-disk
//! framing. Disk reads and writes stay outside; the log moves through plain
//! bytes.

use vstd::prelude::*;

use crate::event::{header_encodable, header_hash, EventData, EventDataV, EventHeader};
use crate::hashing::AteHash;
use crate::kmap::KeyMap;

verus! {

/// Where an appended event landed: the log file index and its offset, here
/// the position in the record sequence.
#[derive(Clone, Copy, Debug, Hash, PartialEq, Eq, Structural)]
pub struct LogLookup {
    pub index: u32,
    pub offset: u64,
}

/// The digest half of a header, kept by flip summaries.
#[derive(Clone, Copy, Debug, PartialEq, Eq, Structural)]
pub struct EventHeaderRaw {
    pub event_hash: AteHash,
}

/// The index key under which an event hash is filed.
pub open spec fn hash_key(h: AteHash) -> (u128, u64) {
    (h.val as u128, 0)
}

/// An in-memory redo log: records in append order plus a hash index.
pub struct RedoLog {
    pub records: Vec<EventData>,
    pub index: KeyMap<usize>,
    pub file_index: u32,
}

impl RedoLog {
    /// The events of the log, in order.
    pub open spec fn events(self) -> Seq<EventDataV> {
        self.records.deep_view()
    }

    /// The index is sound and complete for the records.
    pub open spec fn wf(self) -> bool {
        &&& self.index.wf()
        &&& forall|k: (u128, u64)| #[trigger]
            self.index.contents().dom().contains(k) ==> self.index.contents()[k]
                < self.records@.len() && hash_key(
                header_hash(self.records@[self.index.contents()[k] as int]@.header),
            ) == k
        &&& forall|i: int|
            0 <= i < self.records@.len() ==> self.index.contents().dom().contains(
                #[trigger] hash_key(header_hash(self.records@[i]@.header)),
            )
    }

    /// An empty log.
    pub fn new() -> (r: RedoLog)
        ensures
            r.wf(),
            r.events() == Seq::<EventDataV>::empty(),
    {
        let r = RedoLog { records: Vec::new(), index: KeyMap::new(), file_index: 0 };
        proof {
            assert(r.records.deep_view() =~= Seq::<EventDataV>::empty());
            assert(r.records@.len() == 0);
        }
        r
    }

    /// How many events the log holds.
    pub fn count(&self) -> (r: usize)
        ensures
            r == self.events().len(),
    {
        proof {
            assert(self.records.deep_view().len() == self.records@.len());
        }
        self.records.len()
    }

    /// Append an event; its hash now resolves to it.
    pub fn append(&mut self, evt: EventData) -> (r: LogLookup)
        requires
            old(self).wf(),
            header_encodable(evt@.header),
        ensures
            final(self).wf(),
            final(self).events() == old(self).events().push(evt@),
            final(self).records@ == old(self).records@.push(evt),
            final(self).file_index == old(self).file_index,
            r.index == old(self).file_index,
            r.offset == old(self).events().len(),
    {
        let h = crate::event::compute_event_hash(&evt.header);
        let pos = self.records.len();
        let lookup = LogLookup { index: self.file_index, offset: pos as u64 };
        let ghost oldrec = self.records.deep_view();
        self.records.push(evt);
        self.index.insert((h.val as u128, 0), pos);
        proof {
            assert(self.records.deep_view() =~= oldrec.push(evt@));
            assert forall|k: (u128, u64)| #[trigger]
                self.index.contents().dom().contains(k) implies self.index.contents()[k]
                < self.records@.len() && hash_key(
                header_hash(self.records@[self.index.contents()[k] as int]@.header),
            ) == k by {
                if k != (h.val as u128, 0u64) {
                    assert(old(self).index.contents().dom().contains(k));
                    let i: usize = old(self).index.contents()[k];
                    assert(self.records@[i as int] == old(self).records@[i as int]);
                }
            }
            assert forall|i: int| 0 <= i < self.records@.len() implies self.index.contents(
            ).dom().contains(#[trigger] hash_key(header_hash(self.records@[i]@.header))) by {
                if i < self.records@.len() - 1 {
                    assert(self.records@[i] == old(self).records@[i]);
                }
            }
        }
        lookup
    }

    /// The event with the given hash, if the log holds one.
    pub fn read(&self, hash: &AteHash) -> (r: Option<&EventData>)
        requires
            self.wf(),
        ensures
            match r {
                Some(e) => header_hash(e@.header) == *hash && self.events().contains(e@),
                None => forall|i: int|
                    0 <= i < self.events().len() ==> header_hash(
                        (#[trigger] self.events()[i]).header,
                    ) != *hash,
            },
    {
        match self.index.get((hash.val as u128, 0)) {
            Some(pos) => {
                let p = *pos;
                proof {
                    assert(self.records.deep_view()[p as int] == self.records@[p as int]@);
                }
                Some(&self.records[p])
            },
            None => {
                proof {
                    assert forall|i: int| 0 <= i < self.events().len() implies header_hash(
                        (#[trigger] self.events()[i]).header,
                    ) != *hash by {
                        assert(self.events()[i] == self.records@[i]@);
                        assert(self.index.contents().dom().contains(
                            hash_key(header_hash(self.records@[i]@.header)),
                        ));
                    }
                }
                None
            },
        }
    }
}

/// The staging file of a flip: events copied to survive compaction, plus a
/// summary of their header digests.
pub struct FlippedLogFile {
    pub log_file: RedoLog,
    pub event_summary: Vec<EventHeaderRaw>,
}

impl FlippedLogFile {
    /// A fresh staging file, one file index past the active log.
    pub fn new(file_index: u32) -> (r: FlippedLogFile)
        ensures
            r.log_file.wf(),
            r.log_file.events() == Seq::<EventDataV>::empty(),
            r.event_summary@ == Seq::<EventHeaderRaw>::empty(),
    {
        FlippedLogFile { log_file: RedoLog { records: Vec::new(), index: KeyMap::new(), file_index }, event_summary: Vec::new() }
    }

    /// Write one surviving event into the staging file.
    pub fn write(&mut self, evt: EventData) -> (r: LogLookup)
        requires
            old(self).log_file.wf(),
            header_encodable(evt@.header),
        ensures
            final(self).log_file.wf(),
            final(self).log_file.events() == old(self).log_file.events().push(evt@),
            final(self).event_summary@ == old(self).event_summary@.push(
                EventHeaderRaw { event_hash: header_hash(evt@.header) },
            ),
            r.offset == old(self).log_file.events().len(),
            r.index == old(self).log_file.file_index,
            final(self).log_file.file_index == old(self).log_file.file_index,
    {
        let h = crate::event::compute_event_hash(&evt.header);
        let r = self.log_file.append(evt);
        self.event_summary.push(EventHeaderRaw { event_hash: h });
        r
    }

    /// How many events were copied so far.
    pub fn count(&self) -> (r: usize)
        ensures
            r == self.log_file.events().len(),
    {
        self.log_file.count()
    }

    /// Take the summary of copied headers, leaving the staging file's own
    /// records in place.
    pub fn drain_events(&mut self) -> (r: Vec<EventHeaderRaw>)
        ensures
            r@ == old(self).event_summary@,
            final(self).event_summary@ == Seq::<EventHeaderRaw>::empty(),
            final(self).log_file == old(self).log_file,
    {
        let mut ret: Vec<EventHeaderRaw> = Vec::new();
        std::mem::swap(&mut ret, &mut self.event_summary);
        ret
    }

    /// Copy the event with the given hash from another log, as flips do when
    /// a compactor keeps it.
    #[verifier::rlimit(100)]
    pub fn copy_event(&mut self, from_log: &RedoLog, from_pointer: &AteHash) -> (r: Option<
        LogLookup,
    >)
        requires
            old(self).log_file.wf(),
            from_log.wf(),
            forall|i: int| #![trigger from_log.events()[i]]
                0 <= i < from_log.events().len() ==> header_encodable(
                    from_log.events()[i].header,
                ),
        ensures
            match r {
                Some(_) => {
                    &&& final(self).log_file.wf()
                    &&& final(self).log_file.events().len() == old(self).log_file.events().len()
                        + 1
                    &&& header_hash(final(self).log_file.events().last().header) == *from_pointer
                    &&& from_log.events().contains(final(self).log_file.events().last())
                    &&& final(self).log_file.events().take(
                        old(self).log_file.events().len() as int,
                    ) == old(self).log_file.events()
                },
                None => {
                    &&& *final(self) == *old(self)
                    &&& forall|i: int|
                        0 <= i < from_log.events().len() ==> header_hash(
                            (#[trigger] from_log.events()[i]).header,
                        ) != *from_pointer
                },
            },
    {
        match from_log.read(from_pointer) {
            Some(e) => {
                let copy = EventData {
                    header: EventHeader {
                        key: e.header.key,
                        meta: crate::meta::Metadata { core: clone_meta_list(&e.header.meta.core) },
                    },
                    data: clone_opt_bytes(&e.data),
                };
                proof {
                    assert(copy@ =~= e@);
                    let i = choose|i: int|
                        0 <= i < from_log.events().len() && from_log.events()[i] == e@;
                    assert(header_encodable(from_log.events()[i].header));
                }
                let h = crate::event::compute_event_hash(&copy.header);
                let r = self.log_file.append(copy);
                self.event_summary.push(EventHeaderRaw { event_hash: h });
                proof {
                    assert(self.log_file.events().last() == copy@);
                    assert(self.log_file.events().take(old(self).log_file.events().len() as int)
                        =~= old(self).log_file.events());
                }
                Some(r)
            },
            None => None,
        }
    }
}

/// Clone a whole event, value for value.
pub fn clone_event(e: &EventData) -> (r: EventData)
    ensures
        r@ == e@,
{
    let copy = EventData {
        header: EventHeader {
            key: e.header.key,
            meta: crate::meta::Metadata { core: clone_meta_list(&e.header.meta.core) },
        },
        data: clone_opt_bytes(&e.data),
    };
    proof {
        assert(copy@ =~= e@);
    }
    copy
}

/// Clone a metadata list, value for value.
pub fn clone_meta_list(v: &Vec<crate::meta::CoreMetadata>) -> (r: Vec<crate::meta::CoreMetadata>)
    ensures
        r.deep_view() == v.deep_view(),
        r@.len() == v@.len(),
{
    let n = v.len();
    let mut out: Vec<crate::meta::CoreMetadata> = Vec::new();
    let mut i: usize = 0;
    while i < n
        invariant
            n == v@.len(),
            i <= n,
            out@.len() == i,
            forall|j: int| 0 <= j < i ==> (#[trigger] out.deep_view()[j]) == v.deep_view()[j],
        decreases n - i,
    {
        let m = clone_meta(&v[i]);
        let ghost prevd = out.deep_view();
        out.push(m);
        proof {
            assert(out.deep_view() =~= prevd.push(m@));
        }
        i = i + 1;
    }
    proof {
        assert(out.deep_view() =~= v.deep_view());
    }
    out
}

/// Clone one metadata variant, value for value.
pub fn clone_meta(m: &crate::meta::CoreMetadata) -> (r: crate::meta::CoreMetadata)
    ensures
        r@ == m@,
{
    match m {
        crate::meta::CoreMetadata::Timestamp(t) => crate::meta::CoreMetadata::Timestamp(*t),
        crate::meta::CoreMetadata::Authorization(a) => crate::meta::CoreMetadata::Authorization(
            crate::meta::MetaAuthorization { read: a.read, write: clone_write(&a.write) },
        ),
        crate::meta::CoreMetadata::Confidentiality(c) => crate::meta::CoreMetadata::Confidentiality(
            *c,
        ),
        crate::meta::CoreMetadata::Signature(s) => crate::meta::CoreMetadata::Signature(*s),
        crate::meta::CoreMetadata::SignWith(s) => crate::meta::CoreMetadata::SignWith(
            crate::meta::MetaSignWith { keys: clone_hashes(&s.keys) },
        ),
        crate::meta::CoreMetadata::PublicKey(k) => crate::meta::CoreMetadata::PublicKey(*k),
        crate::meta::CoreMetadata::Parent(p) => crate::meta::CoreMetadata::Parent(*p),
        crate::meta::CoreMetadata::Tombstone(k) => crate::meta::CoreMetadata::Tombstone(*k),
        crate::meta::CoreMetadata::Collection(c) => crate::meta::CoreMetadata::Collection(*c),
        crate::meta::CoreMetadata::InitializationVector(iv) => {
            crate::meta::CoreMetadata::InitializationVector(*iv)
        },
        crate::meta::CoreMetadata::TypeName(t) => crate::meta::CoreMetadata::TypeName(*t),
        crate::meta::CoreMetadata::DataHash(h) => crate::meta::CoreMetadata::DataHash(*h),
        crate::meta::CoreMetadata::Reply(k) => crate::meta::CoreMetadata::Reply(*k),
    }
}

/// Clone a write policy, value for value.
pub fn clone_write(w: &crate::meta::WriteOption) -> (r: crate::meta::WriteOption)
    ensures
        r@ == w@,
{
    match w {
        crate::meta::WriteOption::Inherit => crate::meta::WriteOption::Inherit,
        crate::meta::WriteOption::Nobody => crate::meta::WriteOption::Nobody,
        crate::meta::WriteOption::Specific(h) => crate::meta::WriteOption::Specific(*h),
        crate::meta::WriteOption::AnyOf(ks) => crate::meta::WriteOption::AnyOf(clone_hashes(ks)),
    }
}

/// Clone a hash list, value for value.
pub fn clone_hashes(v: &Vec<AteHash>) -> (r: Vec<AteHash>)
    ensures
        r@ == v@,
{
    let n = v.len();
    let mut out: Vec<AteHash> = Vec::new();
    let mut i: usize = 0;
    while i < n
        invariant
            n == v@.len(),
            i <= n,
            out@ == v@.take(i as int),
        decreases n - i,
    {
        out.push(v[i]);
        proof {
            assert(v@.take(i as int + 1) =~= v@.take(i as int).push(v@[i as int]));
        }
        i = i + 1;
    }
    proof {
        assert(v@.take(n as int) =~= v@);
    }
    out
}

/// Clone an optional payload, value for value.
pub fn clone_opt_bytes(d: &Option<Vec<u8>>) -> (r: Option<Vec<u8>>)
    ensures
        match d {
            Some(b) => r matches Some(c) && c@ == b@,
            None => r is None,
        },
{
    match d {
        Some(b) => {
            let n = b.len();
            let mut out: Vec<u8> = Vec::new();
            let mut i: usize = 0;
            while i < n
                invariant
                    n == b@.len(),
                    i <= n,
                    out@ == b@.take(i as int),
                decreases n - i,
            {
                out.push(b[i]);
                proof {
                    assert(b@.take(i as int + 1) =~= b@.take(i as int).push(b@[i as int]));
                }
                i = i + 1;
            }
            proof {
                assert(b@.take(n as int) =~= b@);
            }
            Some(out)
        },
        None => None,
    }
}

} // verus!
