//! Core of a distributed, cryptographically-authenticated, event-sourced
//! object store.
//!
//! Clients manipulate data objects grouped into named chains; each mutation
//! becomes an immutable event appended to a redo log. Every event traverses a
//! pipeline of validators and transformers (anti-replay, signature checks,
//! tree-derived read/write authority) before it is indexed and surfaced to
//! readers. A transactional data-I/O session batches reads, writes, deletes
//! and locks, and a mesh session pipe replicates commits to peers with
//! configurable durability scopes.

pub mod anti_replay;
pub mod chain;
pub mod codec;
pub mod compact;
pub mod crypto;
pub mod dio;
pub mod dio_mut;
pub mod errors;
pub mod event;
pub mod hashing;
pub mod header;
pub mod index;
pub mod kmap;
pub mod loader;
pub mod mesh;
pub mod meta;
pub mod redo;
pub mod service;
pub mod session;
pub mod time;
pub mod timeline;
pub mod transport;
pub mod tree;
pub mod weak;
pub mod wire;
