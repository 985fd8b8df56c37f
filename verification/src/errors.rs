//! The error kinds the library surfaces. Every operation returns a result;
//! a failed event is fatal for that event only, never for the whole chain.

use vstd::prelude::*;

use crate::hashing::AteHash;
use crate::header::PrimaryKey;

verus! {

/// Failures while transforming payloads through the authority tree.
#[derive(Clone, Copy, Debug, PartialEq, Eq, Structural)]
pub enum TransformError {
    /// No explicit read policy was reachable through the parent chain.
    UnspecifiedReadability,
    /// The session lacks the read key with this hash.
    MissingReadKey(AteHash),
    /// A sealed payload arrived without an initialization vector.
    NoIvPresent,
    /// The derived key does not match the stored confidentiality hash.
    Decrypt,
}

/// Failures of the mesh link.
#[derive(Clone, Copy, Debug, PartialEq, Eq, Structural)]
pub enum CommsError {
    NoWireFormat,
    Disconnected,
    Timeout,
    ReadOnly,
    SerializationError,
}

/// Failures while committing a transaction.
#[derive(Clone, Copy, Debug, PartialEq, Eq, Structural)]
pub enum CommitError {
    LockError(CommsError),
    ValidationError,
    SerializationError,
    PipeError,
    CommsError(CommsError),
}

/// Failures while loading a data object.
#[derive(Clone, Copy, Debug, PartialEq, Eq, Structural)]
pub enum LoadError {
    NotFound(PrimaryKey),
    NotFoundByHash(AteHash),
    AlreadyDeleted(PrimaryKey),
    Tombstoned(PrimaryKey),
    ObjectStillLocked(PrimaryKey),
    NoRepository,
    MissingData,
    Disconnected,
    Timeout,
    WeakDio,
    CollectionDetached,
    VersionMismatch,
    LoadFailed,
    ChainCreation(ChainCreationError),
    SerializationError,
    Transformation(TransformError),
}

/// Failures while opening a chain.
#[derive(Clone, Copy, Debug, PartialEq, Eq, Structural)]
pub enum ChainCreationError {
    ServerRejected,
    NotFoundLocally,
    UnsupportedVersion,
    InternalError,
}

/// Failures on the service bus.
#[derive(Clone, Copy, Debug, PartialEq, Eq, Structural)]
pub enum BusError {
    ReceiveError,
    ChannelClosed,
    SaveParentFirst,
    WeakDio,
}

} // verus!
