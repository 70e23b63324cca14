//! The changes that the notification source reports.

use vstd::prelude::*;

verus! {

/// One change that the notification source reports. Paths are absolute.
#[derive(Debug)]
pub enum ChangeEvent {
    /// A file or directory came into being.
    Created(String),
    /// The content of a file was written.
    Modified(String),
    /// A file or directory went away.
    Removed(String),
    /// An entry moved from the first path to the second.
    Renamed(String, String),
}

/// A change event as contracts see it.
pub enum Change {
    Created(Seq<char>),
    Modified(Seq<char>),
    Removed(Seq<char>),
    Renamed(Seq<char>, Seq<char>),
}

impl View for ChangeEvent {
    type V = Change;

    open spec fn view(&self) -> Change {
        match self {
            ChangeEvent::Created(path) => Change::Created(path@),
            ChangeEvent::Modified(path) => Change::Modified(path@),
            ChangeEvent::Removed(path) => Change::Removed(path@),
            ChangeEvent::Renamed(from, to) => Change::Renamed(from@, to@),
        }
    }
}

impl Change {
    /// Whether the event speaks of `path`.
    pub open spec fn touches(self, path: Seq<char>) -> bool {
        match self {
            Change::Created(p) => p == path,
            Change::Modified(p) => p == path,
            Change::Removed(p) => p == path,
            Change::Renamed(from, to) => from == path || to == path,
        }
    }
}

/// The views of a sequence of events.
pub open spec fn changes(events: Seq<ChangeEvent>) -> Seq<Change> {
    events.map_values(|e: ChangeEvent| e@)
}

} // verus!
