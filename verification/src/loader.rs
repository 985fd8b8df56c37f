//! Loaders: the callbacks a chain drives while its history is read in.

use vstd::prelude::*;

use crate::errors::ChainCreationError;
use crate::event::EventData;
use crate::redo::{EventHeaderRaw, LogLookup};

verus! {

/// One record handed to a loader while the history streams in.
pub struct LoadData {
    pub lookup: LogLookup,
    pub header: EventHeaderRaw,
    pub data: EventData,
}

/// The callbacks a chain drives while loading its history.
pub trait Loader {
    /// The start of the history is being loaded, with its record count.
    fn start_of_history(&mut self, size: usize);

    /// A human message sent from the server to this process.
    fn human_message(&mut self, message: &String);

    /// Events are being processed.
    fn feed_events(&mut self, evts: &Vec<EventData>);

    /// One loaded record is being processed.
    fn feed_load_data(&mut self, data: LoadData);

    /// The last event was received.
    fn end_of_history(&mut self);

    /// The load failed; a loader may swallow the error.
    fn failed(&mut self, err: ChainCreationError) -> Option<ChainCreationError>;

    /// Whether this record was already seen and may be skipped in place.
    fn relevance_check(&mut self, header: &EventData) -> bool;
}

/// A loader that ignores everything.
pub struct DummyLoader {}

impl Loader for DummyLoader {
    fn start_of_history(&mut self, _size: usize) {
    }

    fn human_message(&mut self, _message: &String) {
    }

    fn feed_events(&mut self, _evts: &Vec<EventData>) {
    }

    fn feed_load_data(&mut self, _data: LoadData) {
    }

    fn end_of_history(&mut self) {
    }

    fn failed(&mut self, err: ChainCreationError) -> Option<ChainCreationError> {
        Some(err)
    }

    fn relevance_check(&mut self, _header: &EventData) -> bool {
        false
    }
}

/// A loader that fans every callback out to a list of loaders; a record is
/// relevant when any member says so.
pub struct CompositionLoader<L> {
    pub loaders: Vec<L>,
}

impl<L: Loader> Loader for CompositionLoader<L> {
    fn start_of_history(&mut self, size: usize) {
        let n = self.loaders.len();
        let mut i: usize = 0;
        while i < n
            invariant
                n == self.loaders@.len(),
                i <= n,
            decreases n - i,
        {
            self.loaders[i].start_of_history(size);
            i = i + 1;
        }
    }

    fn human_message(&mut self, message: &String) {
        let n = self.loaders.len();
        let mut i: usize = 0;
        while i < n
            invariant
                n == self.loaders@.len(),
                i <= n,
            decreases n - i,
        {
            self.loaders[i].human_message(message);
            i = i + 1;
        }
    }

    fn feed_events(&mut self, evts: &Vec<EventData>) {
        let n = self.loaders.len();
        let mut i: usize = 0;
        while i < n
            invariant
                n == self.loaders@.len(),
                i <= n,
            decreases n - i,
        {
            self.loaders[i].feed_events(evts);
            i = i + 1;
        }
    }

    fn feed_load_data(&mut self, data: LoadData) {
        let n = self.loaders.len();
        let mut i: usize = 0;
        while i < n
            invariant
                n == self.loaders@.len(),
                i <= n,
            decreases n - i,
        {
            let copy = LoadData {
                lookup: data.lookup,
                header: data.header,
                data: crate::redo::clone_event(&data.data),
            };
            self.loaders[i].feed_load_data(copy);
            i = i + 1;
        }
    }

    fn end_of_history(&mut self) {
        let n = self.loaders.len();
        let mut i: usize = 0;
        while i < n
            invariant
                n == self.loaders@.len(),
                i <= n,
            decreases n - i,
        {
            self.loaders[i].end_of_history();
            i = i + 1;
        }
    }

    fn failed(&mut self, err: ChainCreationError) -> Option<ChainCreationError> {
        let n = self.loaders.len();
        let mut cur = err;
        let mut i: usize = 0;
        while i < n
            invariant
                n == self.loaders@.len(),
                i <= n,
            decreases n - i,
        {
            cur = match self.loaders[i].failed(cur) {
                Some(e) => e,
                None => ChainCreationError::InternalError,
            };
            i = i + 1;
        }
        Some(cur)
    }

    fn relevance_check(&mut self, header: &EventData) -> bool {
        let n = self.loaders.len();
        let mut i: usize = 0;
        while i < n
            invariant
                n == self.loaders@.len(),
                i <= n,
            decreases n - i,
        {
            if self.loaders[i].relevance_check(header) {
                return true;
            }
            i = i + 1;
        }
        false
    }
}

} // verus!
