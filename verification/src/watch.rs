//! The change-source vocabulary.
//!
//! The filesystem notification mechanism reports events of many kinds; the
//! library surfaces a changed path only for a write or a creation and
//! drops everything else.  The adapter around the notification mechanism
//! translates its events into `FsEvent` and asks `change_path` which of
//! them count.

use vstd::prelude::*;

verus! {

/// One debounced filesystem event, as the change source reports it.
pub enum FsEvent {
    /// A file was written to.
    Written { path: String },
    /// A file or directory was created.
    Created { path: String },
    /// Any other kind of event (attribute change, removal, rename,
    /// rescan, error): not a content change.
    Other,
}

/// The changed path an event surfaces: a write or a creation surfaces its
/// path; every other event kind is silently dropped.
pub fn change_path(e: FsEvent) -> (r: Option<String>)
    ensures
        match e {
            FsEvent::Written { path } => r matches Some(p) && p@ == path@,
            FsEvent::Created { path } => r matches Some(p) && p@ == path@,
            FsEvent::Other => r is None,
        },
{
    match e {
        FsEvent::Written { path } => Some(path),
        FsEvent::Created { path } => Some(path),
        FsEvent::Other => None,
    }
}

} // verus!
