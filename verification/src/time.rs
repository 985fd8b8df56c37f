//! Chain timestamps: milliseconds since the epoch, monotonic within a single
//! writer.

use vstd::prelude::*;

verus! {

/// A point on a chain's timeline, in milliseconds since the epoch.
#[derive(Clone, Copy, Debug, Hash, PartialEq, Eq, Structural)]
pub struct ChainTimestamp {
    pub time_since_epoch_ms: u64,
}

impl ChainTimestamp {
    /// The next instant after this one.
    pub fn inc(self) -> (r: Self)
        requires
            self.time_since_epoch_ms < u64::MAX,
        ensures
            r.time_since_epoch_ms == self.time_since_epoch_ms + 1,
    {
        ChainTimestamp { time_since_epoch_ms: self.time_since_epoch_ms + 1 }
    }
}

impl Default for ChainTimestamp {
    fn default() -> (r: Self)
        ensures
            r.time_since_epoch_ms == 0,
    {
        ChainTimestamp { time_since_epoch_ms: 0 }
    }
}

impl From<u64> for ChainTimestamp {
    fn from(val: u64) -> (r: ChainTimestamp)
        ensures
            r.time_since_epoch_ms == val,
    {
        ChainTimestamp { time_since_epoch_ms: val }
    }
}

impl vstd::std_specs::convert::FromSpecImpl<u64> for ChainTimestamp {
    open spec fn obeys_from_spec() -> bool {
        true
    }

    open spec fn from_spec(val: u64) -> ChainTimestamp {
        ChainTimestamp { time_since_epoch_ms: val }
    }
}

} // verus!
