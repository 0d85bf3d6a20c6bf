use vstd::prelude::*;

verus! {

/// How long the change monitor waits between two scans of the watch folder, in seconds.
pub const POLL_INTERVAL_SECONDS: u64 = 3600;

/// How long the control loop waits for the next change before it wakes up
/// anyway, in seconds.
pub const WAIT_SECONDS: u64 = 60;

/// The kind of a change notification from the monitor of the watch folder.
#[derive(Clone, Copy, Debug, PartialEq, Eq, Structural)]
pub enum ChangeKind {
    /// A change of unknown kind.
    Any,
    /// Something was read or opened; nothing on disk changed.
    Access,
    /// A file or folder was created.
    Create,
    /// A file or folder was modified.
    Modify,
    /// A file or folder was removed.
    Remove,
    /// Anything else.
    Other,
}

/// Whether a change of this kind is answered with a backup cycle: creation,
/// modification and removal are, every other kind is ignored.
pub open spec fn calls_for_backup(kind: ChangeKind) -> bool {
    kind is Create || kind is Modify || kind is Remove
}

/// Decides what a change notification calls for: `true` for a backup cycle.
pub fn handle_event(kind: ChangeKind) -> (backup: bool)
    ensures
        backup == calls_for_backup(kind),
{
    match kind {
        ChangeKind::Create | ChangeKind::Modify | ChangeKind::Remove => true,
        _ => false,
    }
}

} // verus!
