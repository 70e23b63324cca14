//! What can go wrong in one synchronisation cycle.

use vstd::prelude::*;

verus! {

/// Why the file system refused a mirror operation.
#[derive(Clone, Copy, Debug, PartialEq, Eq, Structural)]
pub enum IoFailure {
    /// The entry to read or delete is not there.
    NotFound,
    /// The process may not touch the entry.
    PermissionDenied,
    /// Any other refusal.
    Other,
}

/// A failure of one stage of the pipeline. None of them ends the loop.
#[derive(Clone, Copy, Debug, PartialEq, Eq, Structural)]
pub enum SyncError {
    /// A reported path has no place strictly inside the working tree.
    InvalidPath,
    /// A mirror operation failed.
    Io(IoFailure),
    /// The working tree could not be staged.
    StageFailed,
    /// The branch has no commit to build on.
    NoHeadCommit,
    /// The commit could not be created.
    CommitFailed,
    /// The remote did not take the push.
    PushRejected,
}

} // verus!
