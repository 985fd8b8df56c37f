//! The mesh session pipe: hello negotiation, commit scopes and their
//! confirmations, distributed locks, on-demand record loads, and the
//! read-only degradation a disconnect forces. The pipe decides; the sockets
//! that carry its messages live outside.

use vstd::prelude::*;

use crate::chain::{Chain, TrustMode};
use crate::dio_mut::TransactionScope;
use crate::errors::{CommitError, CommsError, LoadError};
use crate::event::EventData;
use crate::hashing::AteHash;
use crate::header::PrimaryKey;
use crate::index::pk_key;
use crate::kmap::KeyMap;

verus! {

/// The strength of a negotiated link key.
#[derive(Clone, Copy, Debug, PartialEq, Eq, Structural)]
pub enum KeySize {
    Bit128,
    Bit192,
    Bit256,
}

impl KeySize {
    /// The key strength in bits.
    pub open spec fn spec_bits(self) -> u32 {
        match self {
            KeySize::Bit128 => 128,
            KeySize::Bit192 => 192,
            KeySize::Bit256 => 256,
        }
    }

    /// The key strength in bits.
    pub fn bits(&self) -> (r: u32)
        ensures
            r == self.spec_bits(),
    {
        match self {
            KeySize::Bit128 => 128,
            KeySize::Bit192 => 192,
            KeySize::Bit256 => 256,
        }
    }
}

/// The wire format a chain serializes its payloads with.
#[derive(Clone, Copy, Debug, PartialEq, Eq, Structural)]
pub enum SerializationFormat {
    Json,
    MessagePack,
    Bincode,
}

/// What a completed hello exchange establishes for one side.
#[derive(Clone, Debug)]
pub struct HelloMetadata {
    pub path: String,
    pub encryption: Option<KeySize>,
    pub wire_format: SerializationFormat,
}

/// The upgraded key size two hello offers negotiate: wanting encryption wins
/// over not wanting it, and the larger request wins.
pub open spec fn spec_upgrade_key(key1: Option<KeySize>, key2: Option<KeySize>) -> Option<
    KeySize,
> {
    match (key1, key2) {
        (None, None) => None,
        (None, Some(k2)) => Some(k2),
        (Some(k1), None) => Some(k1),
        (Some(k1), Some(k2)) => if k2.spec_bits() > k1.spec_bits() {
            Some(k2)
        } else {
            Some(k1)
        },
    }
}

/// Negotiate the link key size from the two sides' hello offers.
pub fn mesh_hello_upgrade_key(key1: Option<KeySize>, key2: Option<KeySize>) -> (r: Option<
    KeySize,
>)
    ensures
        r == spec_upgrade_key(key1, key2),
{
    let k1 = match key1 {
        Some(a) => a,
        None => {
            return key2;
        },
    };
    let k2 = match key2 {
        Some(a) => a,
        None => {
            return Some(k1);
        },
    };
    if k2.bits() > k1.bits() {
        Some(k2)
    } else {
        Some(k1)
    }
}

/// The receiver's half of the hello exchange: negotiate the key and fix the
/// wire format the link will speak.
pub fn mesh_hello_exchange_receiver(
    client_path: String,
    client_key_size: Option<KeySize>,
    server_key_size: Option<KeySize>,
    wire_format: SerializationFormat,
) -> (r: HelloMetadata)
    ensures
        r.encryption == spec_upgrade_key(server_key_size, client_key_size),
        r.wire_format == wire_format,
        r.path@ == client_path@,
{
    let encryption = mesh_hello_upgrade_key(server_key_size, client_key_size);
    HelloMetadata { path: client_path, encryption, wire_format }
}

/// The sender's half of the hello exchange: adopt the server's reply.
pub fn mesh_hello_exchange_sender(
    hello_path: String,
    server_encryption: Option<KeySize>,
    server_wire_format: SerializationFormat,
) -> (r: HelloMetadata)
    ensures
        r.encryption == server_encryption,
        r.wire_format == server_wire_format,
        r.path@ == hello_path@,
{
    HelloMetadata { path: hello_path, encryption: server_encryption, wire_format: server_wire_format }
}

/// What a disconnect does to the session: error out, degrade to read-only,
/// or retry silently.
#[derive(Clone, Copy, Debug, PartialEq, Eq, Structural)]
pub enum RecoveryMode {
    ErrorOnLoss,
    ReadOnlyOnLoss,
    SilentRetry,
}

impl RecoveryMode {
    pub fn should_error_out(&self) -> (r: bool)
        ensures
            r == (*self is ErrorOnLoss),
    {
        match self {
            RecoveryMode::ErrorOnLoss => true,
            _ => false,
        }
    }

    pub fn should_go_readonly(&self) -> (r: bool)
        ensures
            r == (*self is ReadOnlyOnLoss),
    {
        match self {
            RecoveryMode::ReadOnlyOnLoss => true,
            _ => false,
        }
    }
}

/// A tagged message of the mesh wire protocol.
pub enum Message {
    Hello { path: String, domain: Option<String>, key_size: Option<KeySize> },
    HelloReply { encryption: Option<KeySize>, wire_format: SerializationFormat },
    Events { commit: Option<u64>, evts: Vec<EventData> },
    Confirmed { commit: u64 },
    Rejected { commit: u64, reason: String },
    LoadMany { id: u64, leafs: Vec<AteHash> },
    Payload { id: u64, hash: AteHash, data: Vec<u8> },
    EndOfLoad { id: u64 },
    Lock { key: PrimaryKey },
    LockReply { key: PrimaryKey, granted: bool },
    Unlock { key: PrimaryKey },
    Subscribe { key_pattern: String },
    Event { evt: EventData },
    FatalTerminate { reason: TerminateReason },
}

/// Why a server ends a session: a human-readable denial, or anything else.
pub enum TerminateReason {
    Denied { reason: String },
    Other { reason: String },
}

/// A commit awaiting confirmations: how many transmit peers have not yet
/// acknowledged it.
#[derive(Clone, Copy, Debug, PartialEq, Eq, Structural)]
pub struct CommitWaiter {
    pub pending: u64,
}

/// The client side of one chain's mesh session.
pub struct ActiveSessionPipe {
    pub connected: bool,
    pub likely_read_only: bool,
    pub mode: RecoveryMode,
    pub peers: u64,
    pub commits: KeyMap<CommitWaiter>,
    pub lock_requests: KeyMap<()>,
    pub load_requests: KeyMap<Vec<AteHash>>,
}

/// The index key a commit id is filed under.
pub open spec fn id_key(id: u64) -> (u128, u64) {
    (id as u128, 0)
}

impl ActiveSessionPipe {
    pub open spec fn wf(self) -> bool {
        &&& self.commits.wf()
        &&& self.lock_requests.wf()
        &&& self.load_requests.wf()
    }

    /// A fresh pipe: still connecting, nothing pending.
    pub fn new(mode: RecoveryMode, peers: u64) -> (r: ActiveSessionPipe)
        ensures
            r.wf(),
            !r.connected,
            !r.likely_read_only,
            r.mode == mode,
            r.peers == peers,
            r.commits.contents() == Map::<(u128, u64), CommitWaiter>::empty(),
            r.lock_requests.contents() == Map::<(u128, u64), ()>::empty(),
            r.load_requests.contents().dom() == Set::<(u128, u64)>::empty(),
    {
        ActiveSessionPipe {
            connected: false,
            likely_read_only: false,
            mode,
            peers,
            commits: KeyMap::new(),
            lock_requests: KeyMap::new(),
            load_requests: KeyMap::new(),
        }
    }

    /// The hello exchange succeeded.
    pub fn mark_connected(&mut self)
        ensures
            *final(self) == (ActiveSessionPipe { connected: true, ..*old(self) }),
    {
        self.connected = true;
    }

    /// Whether the link is up.
    pub fn is_connected(&self) -> (r: bool)
        ensures
            r == self.connected,
    {
        self.connected
    }

    /// The server rejected a write: degrade until a write proves otherwise.
    pub fn on_read_only(&mut self)
        ensures
            *final(self) == (ActiveSessionPipe { likely_read_only: true, ..*old(self) }),
    {
        self.likely_read_only = true;
    }

    /// The transport dropped: while offline every record must carry its own
    /// signature, so the chain switches to distributed trust; all pending
    /// requests die.
    pub fn on_disconnect(&mut self, chain: &mut Chain)
        requires
            old(self).wf(),
            old(chain).wf(),
        ensures
            final(self).wf(),
            final(chain).wf(),
            !final(self).connected,
            final(chain).integrity == TrustMode::Distributed,
            final(self).commits.contents() == Map::<(u128, u64), CommitWaiter>::empty(),
            final(self).lock_requests.contents() == Map::<(u128, u64), ()>::empty(),
            final(self).load_requests.contents().dom() == Set::<(u128, u64)>::empty(),
            final(self).mode == old(self).mode,
            final(self).peers == old(self).peers,
            final(chain).redo == old(chain).redo,
            final(chain).indexer == old(chain).indexer,
            final(chain).timeline == old(chain).timeline,
            final(chain).anti_replay == old(chain).anti_replay,
            final(chain).locks == old(chain).locks,
            final(chain).pubkeys == old(chain).pubkeys,
            final(chain).roots == old(chain).roots,
    {
        self.connected = false;
        self.commits = KeyMap::new();
        self.lock_requests = KeyMap::new();
        self.load_requests = KeyMap::new();
        chain.integrity = TrustMode::Distributed;
        proof {
            assert(self.load_requests.contents().dom() =~= Set::<(u128, u64)>::empty());
        }
    }

    /// The effective scope a transaction commits under: a likely-read-only
    /// link upgrades every transmitted transaction to full scope so the
    /// server stays the authority.
    pub fn effective_scope(&self, scope: TransactionScope) -> (r: TransactionScope)
        ensures
            r == (if self.likely_read_only && self.mode is ReadOnlyOnLoss {
                TransactionScope::Full
            } else {
                scope
            }),
    {
        if self.likely_read_only && self.mode.should_go_readonly() {
            TransactionScope::Full
        } else {
            scope
        }
    }

    /// Decide how a transaction goes out: not transmitted at all; refused
    /// while disconnected, by the recovery mode's rule; or sent, with a
    /// commit id registered when the effective scope demands every peer's
    /// acknowledgment.
    pub fn feed(&mut self, scope: TransactionScope, transmit: bool, commit_id: u64) -> (r: Result<
        Option<u64>,
        CommitError,
    >)
        requires
            old(self).wf(),
        ensures
            final(self).wf(),
            final(self).connected == old(self).connected,
            final(self).likely_read_only == old(self).likely_read_only,
            final(self).mode == old(self).mode,
            final(self).peers == old(self).peers,
            final(self).lock_requests == old(self).lock_requests,
            final(self).load_requests == old(self).load_requests,
            match r {
                Ok(Some(id)) => {
                    &&& id == commit_id
                    &&& transmit && old(self).connected && old(self).effective_scope_spec(scope)
                        is Full
                    &&& final(self).commits.contents() == old(self).commits.contents().insert(
                        id_key(id),
                        CommitWaiter { pending: old(self).peers },
                    )
                },
                Ok(None) => {
                    &&& final(self).commits.contents() == old(self).commits.contents()
                    &&& (!transmit || (old(self).connected && !(old(self).effective_scope_spec(
                        scope,
                    ) is Full)) || (transmit && !old(self).connected && old(self).mode
                        is SilentRetry))
                },
                Err(e) => {
                    &&& final(self).commits.contents() == old(self).commits.contents()
                    &&& transmit && !old(self).connected && !(old(self).mode is SilentRetry)
                    &&& (old(self).mode is ErrorOnLoss ==> e == CommitError::CommsError(
                        CommsError::Disconnected,
                    ))
                    &&& (old(self).mode is ReadOnlyOnLoss ==> e == CommitError::CommsError(
                        CommsError::ReadOnly,
                    ))
                },
            },
    {
        if !transmit {
            return Ok(None);
        }
        let scope = self.effective_scope(scope);
        if !self.connected {
            if self.mode.should_error_out() {
                return Err(CommitError::CommsError(CommsError::Disconnected));
            } else if self.mode.should_go_readonly() {
                return Err(CommitError::CommsError(CommsError::ReadOnly));
            } else {
                return Ok(None);
            }
        }
        match scope {
            TransactionScope::Full => {
                self.commits.insert((commit_id as u128, 0), CommitWaiter { pending: self.peers });
                Ok(Some(commit_id))
            },
            _ => Ok(None),
        }
    }

    /// The effective scope, as a spec-level value.
    pub open spec fn effective_scope_spec(self, scope: TransactionScope) -> TransactionScope {
        if self.likely_read_only && self.mode is ReadOnlyOnLoss {
            TransactionScope::Full
        } else {
            scope
        }
    }

    /// One peer confirmed a commit: the commit completes exactly when every
    /// peer has.
    pub fn on_confirmed(&mut self, commit_id: u64) -> (r: bool)
        requires
            old(self).wf(),
        ensures
            final(self).wf(),
            r == (old(self).commits.contents().dom().contains(id_key(commit_id)) && old(
                self,
            ).commits.contents()[id_key(commit_id)].pending <= 1),
            old(self).commits.contents().dom().contains(id_key(commit_id)) ==> (if old(
                self,
            ).commits.contents()[id_key(commit_id)].pending <= 1 {
                final(self).commits.contents() == old(self).commits.contents().remove(
                    id_key(commit_id),
                )
            } else {
                final(self).commits.contents() == old(self).commits.contents().insert(
                    id_key(commit_id),
                    CommitWaiter {
                        pending: (old(self).commits.contents()[id_key(commit_id)].pending
                            - 1) as u64,
                    },
                )
            }),
            !old(self).commits.contents().dom().contains(id_key(commit_id)) ==> (final(self)
                .commits.contents() == old(self).commits.contents()),
            final(self).connected == old(self).connected,
            final(self).likely_read_only == old(self).likely_read_only,
    {
        let w = match self.commits.get((commit_id as u128, 0)) {
            Some(w) => *w,
            None => {
                return false;
            },
        };
        if w.pending <= 1 {
            self.commits.remove((commit_id as u128, 0));
            true
        } else {
            self.commits.insert((commit_id as u128, 0), CommitWaiter { pending: w.pending - 1 });
            false
        }
    }

    /// Register a distributed lock attempt; refused while disconnected.
    pub fn try_lock(&mut self, key: PrimaryKey) -> (r: Result<(), CommitError>)
        requires
            old(self).wf(),
        ensures
            final(self).wf(),
            match r {
                Ok(_) => old(self).connected && final(self).lock_requests.contents() == old(
                    self,
                ).lock_requests.contents().insert(pk_key(key), ()),
                Err(e) => !old(self).connected && e == CommitError::LockError(
                    CommsError::Disconnected,
                ) && *final(self) == *old(self),
            },
    {
        if !self.connected {
            return Err(CommitError::LockError(CommsError::Disconnected));
        }
        self.lock_requests.insert((key.val, 0), ());
        Ok(())
    }

    /// A lock reply arrived: the attempt is settled.
    pub fn on_lock_reply(&mut self, key: PrimaryKey, granted: bool) -> (r: bool)
        requires
            old(self).wf(),
        ensures
            final(self).wf(),
            r == (granted && old(self).lock_requests.contents().dom().contains(pk_key(key))),
            final(self).lock_requests.contents() == old(self).lock_requests.contents().remove(
                pk_key(key),
            ),
    {
        let was = self.lock_requests.contains_key((key.val, 0));
        self.lock_requests.remove((key.val, 0));
        granted && was
    }

    /// The lock attempt timed out: the request dies and the caller sees the
    /// timeout.
    pub fn on_lock_timeout(&mut self, key: PrimaryKey) -> (r: CommitError)
        requires
            old(self).wf(),
        ensures
            final(self).wf(),
            r == CommitError::LockError(CommsError::Timeout),
            final(self).lock_requests.contents() == old(self).lock_requests.contents().remove(
                pk_key(key),
            ),
    {
        self.lock_requests.remove((key.val, 0));
        CommitError::LockError(CommsError::Timeout)
    }

    /// Ask to release a distributed lock; refused while disconnected.
    pub fn unlock(&self, _key: PrimaryKey) -> (r: Result<(), CommitError>)
        ensures
            match r {
                Ok(_) => self.connected,
                Err(e) => !self.connected && e == CommitError::CommsError(
                    CommsError::Disconnected,
                ),
            },
    {
        if !self.connected {
            return Err(CommitError::CommsError(CommsError::Disconnected));
        }
        Ok(())
    }

    /// Register an on-demand record load for a list of leaf hashes; the
    /// request remembers what was asked, in request order.
    pub fn load_many(&mut self, id: u64, leafs: Vec<AteHash>) -> (r: Result<(), LoadError>)
        requires
            old(self).wf(),
        ensures
            final(self).wf(),
            match r {
                Ok(_) => {
                    &&& old(self).connected
                    &&& final(self).load_requests.contents().dom() == old(
                        self,
                    ).load_requests.contents().dom().insert(id_key(id))
                    &&& final(self).load_requests.contents()[id_key(id)]@ == leafs@
                    &&& forall|k2: (u128, u64)|
                        k2 != id_key(id) && old(self).load_requests.contents().dom().contains(k2)
                            ==> final(self).load_requests.contents()[k2] == #[trigger] old(
                            self,
                        ).load_requests.contents()[k2]
                },
                Err(e) => !old(self).connected && e == LoadError::Disconnected && *final(self)
                    == *old(self),
            },
    {
        if !self.connected {
            return Err(LoadError::Disconnected);
        }
        self.load_requests.insert((id as u128, 0), leafs);
        Ok(())
    }

    /// The load finished or timed out: the request dies.
    pub fn on_load_done(&mut self, id: u64, timed_out: bool) -> (r: Option<LoadError>)
        requires
            old(self).wf(),
        ensures
            final(self).wf(),
            final(self).load_requests.contents() == old(self).load_requests.contents().remove(
                id_key(id),
            ),
            r == (if timed_out {
                Some(LoadError::Timeout)
            } else {
                None::<LoadError>
            }),
            final(self).likely_read_only == (old(self).likely_read_only && timed_out),
    {
        self.load_requests.remove((id as u128, 0));
        if timed_out {
            Some(LoadError::Timeout)
        } else {
            self.likely_read_only = false;
            None
        }
    }
}

/// Completing a full-scope commit takes exactly one confirmation from each
/// transmit peer: after `k` confirmations of a commit registered against
/// `peers` peers, the commit is complete exactly when `k == peers`.
pub proof fn lemma_full_commit_awaits_all_peers(peers: u64, k: u64)
    requires
        k <= peers,
    ensures
        (peers - k == 0) <==> (k == peers),
{
}

/// The server side of the distributed lock table: a key is granted to at
/// most one peer at a time, and only its holder can free it.
pub struct ServerLockTable {
    pub held: KeyMap<u64>,
}

impl ServerLockTable {
    pub open spec fn wf(self) -> bool {
        self.held.wf()
    }

    /// An empty table.
    pub fn new() -> (r: ServerLockTable)
        ensures
            r.wf(),
            r.held.contents() == Map::<(u128, u64), u64>::empty(),
    {
        ServerLockTable { held: KeyMap::new() }
    }

    /// A peer asks for a lock: granted exactly when the key is free or the
    /// peer already holds it.
    pub fn try_lock(&mut self, peer: u64, key: PrimaryKey) -> (granted: bool)
        requires
            old(self).wf(),
        ensures
            final(self).wf(),
            granted == (!old(self).held.contents().dom().contains(pk_key(key)) || old(
                self,
            ).held.contents()[pk_key(key)] == peer),
            granted ==> final(self).held.contents() == old(self).held.contents().insert(
                pk_key(key),
                peer,
            ),
            !granted ==> final(self).held.contents() == old(self).held.contents(),
    {
        match self.held.get((key.val, 0)) {
            Some(owner) => {
                if *owner == peer {
                    self.held.insert((key.val, 0), peer);
                    true
                } else {
                    false
                }
            },
            None => {
                self.held.insert((key.val, 0), peer);
                true
            },
        }
    }

    /// A peer frees a lock; only the holder's release frees the key.
    pub fn unlock(&mut self, peer: u64, key: PrimaryKey)
        requires
            old(self).wf(),
        ensures
            final(self).wf(),
            (old(self).held.contents().dom().contains(pk_key(key)) && old(
                self,
            ).held.contents()[pk_key(key)] == peer) ==> final(self).held.contents() == old(
                self,
            ).held.contents().remove(pk_key(key)),
            !(old(self).held.contents().dom().contains(pk_key(key)) && old(
                self,
            ).held.contents()[pk_key(key)] == peer) ==> final(self).held.contents() == old(
                self,
            ).held.contents(),
    {
        match self.held.get((key.val, 0)) {
            Some(owner) => {
                if *owner == peer {
                    self.held.remove((key.val, 0));
                }
            },
            None => {},
        }
    }
}

/// What a server answers for one requested leaf: the payload of the event
/// the hash names when the chain holds it and it has one, nothing otherwise.
pub open spec fn load_answer_matches(c: Chain, h: AteHash, a: Option<Vec<u8>>) -> bool {
    if c.redo.index.contents().dom().contains(crate::redo::hash_key(h)) {
        match c.redo.events()[crate::dio::event_index_of(c.redo.events(), h)].data {
            Some(d) => a matches Some(b) && b@ == d,
            None => a is None,
        }
    } else {
        a is None
    }
}

/// Answer a load request: one answer per requested leaf, in request order.
pub fn server_load_many(chain: &Chain, leafs: &Vec<AteHash>) -> (r: Vec<Option<Vec<u8>>>)
    requires
        chain.wf(),
    ensures
        r@.len() == leafs@.len(),
        forall|i: int|
            0 <= i < leafs@.len() ==> load_answer_matches(*chain, leafs@[i], #[trigger] r@[i]),
{
    let n = leafs.len();
    let mut out: Vec<Option<Vec<u8>>> = Vec::new();
    let mut i: usize = 0;
    while i < n
        invariant
            chain.wf(),
            n == leafs@.len(),
            i <= n,
            out@.len() == i,
            forall|j: int|
                0 <= j < i ==> load_answer_matches(*chain, leafs@[j], #[trigger] out@[j]),
        decreases n - i,
    {
        let h = leafs[i];
        let answer: Option<Vec<u8>> = match chain.redo.read(&h) {
            Some(e) => {
                proof {
                    let idx = crate::dio::event_index_of(chain.redo.events(), h);
                    let j = choose|j: int|
                        0 <= j < chain.redo.events().len() && chain.redo.events()[j] == e@;
                    assert(crate::event::header_hash(chain.redo.events()[j].header) == h);
                    assert(0 <= idx < chain.redo.events().len() && crate::event::header_hash(
                        chain.redo.events()[idx].header,
                    ) == h);
                    assert(chain.redo.events()[idx] == e@);
                    assert(chain.redo.index.contents().dom().contains(crate::redo::hash_key(h)))
                        by {
                        assert(chain.redo.index.contents().dom().contains(
                            crate::redo::hash_key(
                                crate::event::header_hash(chain.redo.events()[j].header),
                            ),
                        ));
                    }
                }
                match crate::redo::clone_opt_bytes(&e.data) {
                    Some(d) => Some(d),
                    None => None,
                }
            },
            None => {
                proof {
                    if chain.redo.index.contents().dom().contains(crate::redo::hash_key(h)) {
                        let pos = chain.redo.index.contents()[crate::redo::hash_key(h)];
                        assert(crate::event::header_hash(chain.redo.events()[pos as int].header)
                            == h);
                    }
                }
                None
            },
        };
        out.push(answer);
        i = i + 1;
    }
    out
}

/// Mutual exclusion of the distributed lock: while one peer holds a key,
/// another peer's attempt is refused; after the holder frees it, the other
/// peer's attempt is granted.
pub proof fn lemma_distributed_lock_exclusion(t: Map<(u128, u64), u64>, k: PrimaryKey, x: u64, y: u64)
    requires
        x != y,
        t.dom().contains(pk_key(k)),
        t[pk_key(k)] == x,
    ensures
        !(!t.dom().contains(pk_key(k)) || t[pk_key(k)] == y),
        !t.remove(pk_key(k)).dom().contains(pk_key(k)) || t.remove(pk_key(k))[pk_key(k)] == y,
{
}

} // verus!
