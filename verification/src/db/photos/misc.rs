//! The value types that a photo record is made of.
use vstd::prelude::*;

verus! {

/// The content hash of a file.
pub type FileHash = u64;

/// The primary key of a photo record.
pub type PID = u32;

/// A point in time on the UTC time line: whole seconds since the Unix epoch
/// and the nanoseconds within that second.
#[derive(Clone, Copy, Debug, PartialEq, Eq, Structural)]
pub struct Timestamp {
    pub secs: i64,
    pub nanos: u32,
}

/// Reads the clock.
///
/// Calls `chrono::Utc::now` and reads the result with `DateTime::timestamp`
/// and `DateTime::timestamp_subsec_nanos`. Nothing is stated of the time that
/// comes back. The call fails hard where the system clock stands before the
/// Unix epoch.
#[verifier::external_body]
pub(crate) fn current_time() -> (now: Timestamp) {
    let now = chrono::Utc::now();
    Timestamp { secs: now.timestamp(), nanos: now.timestamp_subsec_nanos() }
}

/// By how much a picture has to be turned to stand upright.
#[derive(Clone, Copy, Debug, PartialEq, Eq, Structural)]
pub enum PhotoOrientation {
    D0,
    D90,
    D180,
    D270,
}

/// The orientation that an EXIF orientation value stands for, where it stands
/// for one of the four rotations.
pub open spec fn orientation_of(v: u32) -> Option<PhotoOrientation> {
    if v == 0 || v == 1 {
        Some(PhotoOrientation::D0)
    } else if v == 3 {
        Some(PhotoOrientation::D180)
    } else if v == 6 {
        Some(PhotoOrientation::D90)
    } else if v == 8 {
        Some(PhotoOrientation::D270)
    } else {
        None
    }
}

impl PhotoOrientation {
    /// Reads an EXIF orientation value; `None` for a value that names no
    /// rotation.
    pub fn from_exif(v: u32) -> (orientation: Option<PhotoOrientation>)
        ensures
            orientation == orientation_of(v),
    {
        if v == 0 || v == 1 {
            Some(PhotoOrientation::D0)
        } else if v == 3 {
            Some(PhotoOrientation::D180)
        } else if v == 6 {
            Some(PhotoOrientation::D90)
        } else if v == 8 {
            Some(PhotoOrientation::D270)
        } else {
            None
        }
    }

    /// Whether the picture lies on its side, so that width and height swap
    /// when it is turned upright.
    pub fn swaps_sides(self) -> (swaps: bool)
        ensures
            swaps == (self == PhotoOrientation::D90 || self == PhotoOrientation::D270),
    {
        match self {
            PhotoOrientation::D0 | PhotoOrientation::D180 => false,
            PhotoOrientation::D90 | PhotoOrientation::D270 => true,
        }
    }
}

/// What a scan learns of a file without reading its pixels.
#[derive(Clone, Copy, Debug, PartialEq, Eq, Structural)]
pub struct PhotoMetadata {
    pub ctime: Timestamp,
    pub mtime: Timestamp,
    pub file_length: u64,
    pub etime: Option<Timestamp>,
    pub width: u32,
    pub height: u32,
    pub orientation: PhotoOrientation,
}

/// The metadata that takes over the capture time of `other`, where it has
/// none of its own.
pub open spec fn fixed_from(own: PhotoMetadata, other: PhotoMetadata) -> PhotoMetadata {
    if own.etime is Some {
        own
    } else {
        PhotoMetadata { etime: other.etime, ..own }
    }
}

impl PhotoMetadata {
    /// Whether the file may have changed since `stored` was taken: its
    /// creation time, its modification time or its length differ.
    pub open spec fn likely_changed_since(self, stored: PhotoMetadata) -> bool {
        self.ctime != stored.ctime || self.mtime != stored.mtime || self.file_length
            != stored.file_length
    }

    /// Compares what can be had cheaply of a file with what a record holds.
    pub fn differs_cheaply(&self, stored: &PhotoMetadata) -> (changed: bool)
        ensures
            changed == self.likely_changed_since(*stored),
    {
        self.ctime != stored.ctime || self.mtime != stored.mtime || self.file_length
            != stored.file_length
    }

    /// Takes over the capture time of `other`. Metadata that has a capture
    /// time stays as it is; the call then returns `false`.
    pub fn fix_from(&mut self, other: &PhotoMetadata) -> (fixed: bool)
        ensures
            *final(self) == fixed_from(*old(self), *other),
            fixed == old(self).etime is None,
    {
        if self.etime.is_some() {
            return false;
        }
        self.etime = other.etime;
        true
    }
}

/// Where a photo stands between the files on disk and the curator's verdict.
#[derive(Clone, Copy, Debug, PartialEq, Eq, Hash, Structural)]
pub enum PhotoEntryStatus {
    /// Vetted; the file was there and unchanged when it was last looked at.
    Committed,
    /// Vetted, but the file is no longer found.
    CommittedButMissing,
    /// Vetted, but the file has changed since.
    CommittedButModified,
    /// Never vetted.
    Uncommitted,
}

/// What a scan found out about the file behind a record.
#[derive(Clone, Copy, Debug, PartialEq, Eq, Structural)]
pub enum Drift {
    /// The file is there and is what the record says.
    Unchanged,
    /// The file is there but its content or metadata differ from the record.
    Modified,
    /// The file is gone.
    Missing,
}

/// The status that follows `status` once `drift` was found for the file.
///
/// A record that was never vetted stays so. A vetted record whose file is
/// gone is missing, and one whose file differs is modified. A vetted record
/// whose file is found as the record says is committed, whatever flag it
/// carried before.
pub open spec fn status_after_drift(status: PhotoEntryStatus, drift: Drift) -> PhotoEntryStatus {
    match (status, drift) {
        (PhotoEntryStatus::Uncommitted, _) => PhotoEntryStatus::Uncommitted,
        (_, Drift::Unchanged) => PhotoEntryStatus::Committed,
        (_, Drift::Missing) => PhotoEntryStatus::CommittedButMissing,
        (_, Drift::Modified) => PhotoEntryStatus::CommittedButModified,
    }
}

/// The status machine of a photo record: an explicit commit leads to
/// `Committed` from every state, and without one the scan's finding decides.
pub open spec fn next_status(
    status: PhotoEntryStatus,
    drift: Drift,
    explicit_commit: bool,
) -> PhotoEntryStatus {
    if explicit_commit {
        PhotoEntryStatus::Committed
    } else {
        status_after_drift(status, drift)
    }
}

impl PhotoEntryStatus {
    /// Whether the record was vetted at some time.
    pub open spec fn vetted(self) -> bool {
        self != PhotoEntryStatus::Uncommitted
    }

    /// Whether the record carries a flag: its file was found missing or
    /// modified.
    pub open spec fn flagged(self) -> bool {
        self == PhotoEntryStatus::CommittedButMissing || self
            == PhotoEntryStatus::CommittedButModified
    }

    /// One step of the status machine.
    pub fn next(self, drift: Drift, explicit_commit: bool) -> (status: PhotoEntryStatus)
        ensures
            status == next_status(self, drift, explicit_commit),
    {
        if explicit_commit {
            return PhotoEntryStatus::Committed;
        }
        match self {
            PhotoEntryStatus::Uncommitted => PhotoEntryStatus::Uncommitted,
            _ => match drift {
                Drift::Unchanged => PhotoEntryStatus::Committed,
                Drift::Missing => PhotoEntryStatus::CommittedButMissing,
                Drift::Modified => PhotoEntryStatus::CommittedButModified,
            },
        }
    }

    /// Records that the file is gone. Returns whether the record counts as
    /// missing from now on, which a record that was never vetted does not.
    pub fn handle_local_missing(&mut self) -> (missing: bool)
        ensures
            *final(self) == status_after_drift(*old(self), Drift::Missing),
            missing == old(self).vetted(),
    {
        match *self {
            PhotoEntryStatus::Uncommitted => false,
            _ => {
                *self = PhotoEntryStatus::CommittedButMissing;
                true
            },
        }
    }

    /// Records whether the file was found to differ from the record.
    pub fn handle_dirty_mark(&mut self, dirty: bool)
        ensures
            *final(self) == status_after_drift(
                *old(self),
                if dirty {
                    Drift::Modified
                } else {
                    Drift::Unchanged
                },
            ),
    {
        let drift = if dirty {
            Drift::Modified
        } else {
            Drift::Unchanged
        };
        *self = self.next(drift, false);
    }
}

/// The status machine has exactly one outcome for each state, finding and
/// command, and the outcomes are these: a commit command always ends in
/// `Committed`; without one, a record that was never vetted stays as it is
/// whatever was found, a vetted record whose file is missing or modified
/// takes the state that says so, and a vetted record whose file is found as
/// the record says is committed, so that a flag is cleared. The same
/// finding a second time moves nothing.
pub proof fn lemma_status_machine(status: PhotoEntryStatus, drift: Drift, explicit_commit: bool)
    ensures
        explicit_commit ==> next_status(status, drift, explicit_commit)
            == PhotoEntryStatus::Committed,
        !explicit_commit && !status.vetted() ==> next_status(status, drift, explicit_commit)
            == PhotoEntryStatus::Uncommitted,
        !explicit_commit && status.vetted() ==> next_status(status, drift, explicit_commit) == (
        match drift {
            Drift::Unchanged => PhotoEntryStatus::Committed,
            Drift::Modified => PhotoEntryStatus::CommittedButModified,
            Drift::Missing => PhotoEntryStatus::CommittedButMissing,
        }),
        next_status(status, drift, explicit_commit).vetted() == (status.vetted()
            || explicit_commit),
        next_status(status, drift, explicit_commit) == PhotoEntryStatus::Committed <==> (
        explicit_commit || (status.vetted() && drift == Drift::Unchanged)),
        !explicit_commit ==> next_status(
            next_status(status, drift, explicit_commit),
            drift,
            explicit_commit,
        ) == next_status(status, drift, explicit_commit),
{
}

} // verus!
