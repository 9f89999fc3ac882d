//! Change notifications, as the watchers tell them apart.

use vstd::prelude::*;

verus! {

/// What woke a watcher up.
#[derive(Clone, Copy, Debug, PartialEq, Eq, Structural)]
pub enum WatchEvent {
    /// A regular file was created.
    CreatedFile,
    /// Something else, or something unknown, was created.
    CreatedOther,
    /// The content of a file changed.
    ContentModified,
    /// The data of a file changed in another or an unknown way (its size, say).
    DataModified,
    /// A name changed: the watched entry was renamed or moved.
    Renamed,
    /// The watched entry was removed.
    Removed,
    /// Any other notification (access, metadata, unknown kinds).
    Other,
    /// No notification came within the current wait.
    TimedOut,
}

} // verus!
