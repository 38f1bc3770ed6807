//! Synchronization status: a pure decision over three timestamps.
use vstd::prelude::*;

verus! {

/// A point in time as the filesystem reports it, in nanoseconds since the Unix epoch.
pub type Timestamp = u128;

/// What must happen to bring memory and disk back in agreement.
#[derive(PartialEq, Eq, Structural, Clone, Copy, Debug)]
pub enum SyncStatus {
    /// Nothing changed since the last flush or load.
    NoSync,
    /// Only the file changed: load it into memory.
    UpSync,
    /// Only memory changed: flush it to disk.
    DownSync,
    /// Both changed independently: load and merge.
    FullSync,
}

/// The status for the time of the last in-memory change, the time of the last
/// write to (or read from) disk, and the file's current modification time.
pub open spec fn status_of(modified: int, flushed: int, on_disk: int) -> SyncStatus {
    let mem_ahead = modified > flushed;
    let disk_quiet = flushed == on_disk;
    let disk_ahead = on_disk > flushed;
    if mem_ahead && disk_quiet {
        SyncStatus::DownSync
    } else if mem_ahead {
        SyncStatus::FullSync
    } else if disk_ahead {
        SyncStatus::UpSync
    } else {
        SyncStatus::NoSync
    }
}

pub fn sync_status(modified: Timestamp, flushed: Timestamp, on_disk: Timestamp) -> (r: SyncStatus)
    ensures
        r == status_of(modified as int, flushed as int, on_disk as int),
{
    if modified > flushed {
        if flushed == on_disk {
            SyncStatus::DownSync
        } else {
            SyncStatus::FullSync
        }
    } else if on_disk > flushed {
        SyncStatus::UpSync
    } else {
        SyncStatus::NoSync
    }
}

/// From a flushed or loaded state (memory, flush and file times all `t`) the
/// status is `NoSync`; a later change in memory alone gives `DownSync`, a
/// later change of the file alone gives `UpSync`, and both give `FullSync`.
pub proof fn lemma_status_transitions(t: int, now: int, on_disk: int)
    ensures
        status_of(t, t, t) == SyncStatus::NoSync,
        now > t ==> status_of(now, t, t) == SyncStatus::DownSync,
        on_disk > t ==> status_of(t, t, on_disk) == SyncStatus::UpSync,
        now > t && on_disk > t ==> status_of(now, t, on_disk) == SyncStatus::FullSync,
{
}

} // verus!
