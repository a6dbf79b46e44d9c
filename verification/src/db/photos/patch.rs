//! Changes to a photo record: the old and the new value of each field, the
//! rules that a commit applies to them, and the patch that carries them to
//! the table.
use super::misc::{
    current_time, status_after_drift, Drift, FileHash, PhotoEntryStatus, PhotoMetadata,
    Timestamp, PID,
};
use super::records::{PhotoRecord, PhotoRecordView};
use super::table::PhotoTable;
use crate::db::helpers::patch::TableRecordPatch;
use crate::db::helpers::table::Table;
use crate::util::persist::must_write;
use vstd::prelude::*;

verus! {

/// A value that a field of a record can hold.
pub trait FieldValue: Copy {
    /// Whether two values are the same.
    fn same(&self, other: &Self) -> (same: bool)
        ensures
            same == (*self == *other),
    ;
}

impl FieldValue for FileHash {
    fn same(&self, other: &Self) -> (same: bool) {
        *self == *other
    }
}

impl FieldValue for bool {
    fn same(&self, other: &Self) -> (same: bool) {
        *self == *other
    }
}

impl FieldValue for PhotoMetadata {
    fn same(&self, other: &Self) -> (same: bool) {
        *self == *other
    }
}

impl FieldValue for PhotoEntryStatus {
    fn same(&self, other: &Self) -> (same: bool) {
        *self == *other
    }
}

impl FieldValue for Option<Timestamp> {
    fn same(&self, other: &Self) -> (same: bool) {
        match (self, other) {
            (Some(a), Some(b)) => *a == *b,
            (None, None) => true,
            _ => false,
        }
    }
}

/// The value that a field had when the diff was made, and the value that it
/// is to get, if any.
#[derive(Debug)]
pub struct Diff<T> {
    pub old: T,
    pub new: Option<T>,
}

impl<T: Copy> Clone for Diff<T> {
    fn clone(&self) -> (copy: Self)
        ensures
            copy == *self,
    {
        Diff { old: self.old, new: self.new }
    }
}

impl<T: Copy> Copy for Diff<T> {

}

impl<T: FieldValue> Diff<T> {
    /// The value that the field has as far as the diff is concerned.
    pub open spec fn now(self) -> T {
        match self.new {
            Some(v) => v,
            None => self.old,
        }
    }

    /// Whether the field is to get a value other than the old one.
    pub open spec fn differs(self) -> bool {
        self.new is Some && self.new->0 != self.old
    }

    /// The diff after the field was given a value.
    pub open spec fn with(self, v: T) -> Self {
        Diff { old: self.old, new: Some(v) }
    }

    /// What `write` leaves in a slot that held `live`.
    pub open spec fn over(self, live: T) -> T {
        if self.differs() {
            self.new->0
        } else {
            live
        }
    }

    /// A diff of a field that holds `v` and is to stay so.
    pub fn from(v: T) -> (diff: Self)
        ensures
            diff.old == v,
            diff.new is None,
    {
        Diff { old: v, new: None }
    }

    /// Writes the new value into `slot`, where there is one.
    pub fn write(&self, slot: &mut T)
        ensures
            *final(slot) == (match self.new {
                Some(v) => v,
                None => *old(slot),
            }),
    {
        match self.new {
            Some(v) => {
                *slot = v;
            },
            None => {},
        }
    }

    /// Gives the field a new value.
    pub fn set(&mut self, v: T)
        ensures
            *final(self) == old(self).with(v),
    {
        self.new = Some(v);
    }

    /// The value that the field has as far as the diff is concerned.
    pub fn current(&self) -> (v: &T)
        ensures
            *v == self.now(),
    {
        match &self.new {
            Some(v) => v,
            None => &self.old,
        }
    }

    /// A copy of the diff that borrows nothing.
    pub fn to_owned(&self) -> (copy: Self)
        ensures
            copy == *self,
    {
        Diff { old: self.old, new: self.new }
    }

    /// Whether the field is to get a value other than the old one.
    pub fn changed(&self) -> (changed: bool)
        ensures
            changed == self.differs(),
    {
        match &self.new {
            Some(v) => !v.same(&self.old),
            None => false,
        }
    }
}

/// The changes to one photo record.
#[derive(Clone, Copy, Debug)]
pub struct PhotoRecordDiff {
    pub pid: PID,
    pub is_missing: bool,
    pub metadata: Diff<PhotoMetadata>,
    pub file_hash: Diff<FileHash>,
    pub selected: Diff<bool>,
    pub status: Diff<PhotoEntryStatus>,
    pub commit_time: Diff<Option<Timestamp>>,
}

/// A diff of `rec` that changes nothing.
pub open spec fn diff_of(rec: PhotoRecordView) -> PhotoRecordDiff {
    PhotoRecordDiff {
        pid: rec.pid,
        is_missing: false,
        metadata: Diff { old: rec.metadata, new: None },
        file_hash: Diff { old: rec.file_hash, new: None },
        selected: Diff { old: rec.selected, new: None },
        status: Diff { old: rec.status, new: None },
        commit_time: Diff { old: rec.commit_time, new: None },
    }
}

impl PhotoRecordDiff {
    /// Whether the diff was started on the record `rec`: as old values it
    /// holds what the record holds.
    pub open spec fn started_on(self, rec: PhotoRecordView) -> bool {
        &&& self.pid == rec.pid
        &&& self.metadata.old == rec.metadata
        &&& self.file_hash.old == rec.file_hash
        &&& self.selected.old == rec.selected
        &&& self.status.old == rec.status
        &&& self.commit_time.old == rec.commit_time
    }

    /// Whether the content of the file is to change: its hash or its
    /// metadata.
    pub open spec fn dirty(self) -> bool {
        self.file_hash.differs() || self.metadata.differs()
    }

    /// What the scan found, as far as the diff tells: a selected photo that
    /// was marked missing is missing, else the file is modified where hash or
    /// metadata change.
    pub open spec fn drift(self) -> Drift {
        if self.selected.now() && self.is_missing {
            Drift::Missing
        } else if self.dirty() {
            Drift::Modified
        } else {
            Drift::Unchanged
        }
    }

    /// The diff as a commit adjusts it before it writes: the status takes the
    /// step that the drift calls for, and a status that thereby changes to
    /// `Committed` stamps the commit time with `now`.
    pub open spec fn adjusted(self, now: Timestamp) -> Self {
        let status = self.status.with(status_after_drift(self.status.now(), self.drift()));
        let commit_time = if status.differs() && status.now() == PhotoEntryStatus::Committed {
            self.commit_time.with(Some(now))
        } else {
            self.commit_time
        };
        PhotoRecordDiff { status, commit_time, ..self }
    }

    /// Whether any field is to get a value other than its old one.
    pub open spec fn changes_any(self) -> bool {
        ||| self.metadata.differs()
        ||| self.file_hash.differs()
        ||| self.selected.differs()
        ||| self.status.differs()
        ||| self.commit_time.differs()
    }

    /// The record that results when the changed fields are written into a
    /// record with the content `live`.
    pub open spec fn written(self, live: PhotoRecordView) -> PhotoRecordView {
        PhotoRecordView {
            metadata: self.metadata.over(live.metadata),
            file_hash: self.file_hash.over(live.file_hash),
            selected: self.selected.over(live.selected),
            status: self.status.over(live.status),
            commit_time: self.commit_time.over(live.commit_time),
            ..live
        }
    }

    /// A diff of `rec` that changes nothing yet.
    pub fn new(rec: &PhotoRecord) -> (diff: Self)
        ensures
            diff == diff_of(rec@),
    {
        PhotoRecordDiff {
            pid: rec.pid,
            is_missing: false,
            metadata: Diff::from(rec.metadata),
            file_hash: Diff::from(rec.file_hash),
            selected: Diff::from(rec.selected),
            status: Diff::from(rec.status),
            commit_time: Diff::from(rec.commit_time),
        }
    }

    /// Whether the content of the file is to change.
    pub fn is_dirty(&self) -> (dirty: bool)
        ensures
            dirty == self.dirty(),
    {
        self.file_hash.changed() || self.metadata.changed()
    }

    /// A copy of the diff that borrows nothing.
    pub fn to_owned(&self) -> (copy: Self)
        ensures
            copy == *self,
    {
        *self
    }

    /// Adjusts the diff as a commit does before it writes.
    pub fn adjust(&mut self, now: Timestamp)
        ensures
            *final(self) == old(self).adjusted(now),
    {
        let mut status = *self.status.current();
        if *self.selected.current() && self.is_missing {
            status.handle_local_missing();
        } else {
            let dirty = self.is_dirty();
            status.handle_dirty_mark(dirty);
        }
        self.status.set(status);
        if self.status.changed() && status == PhotoEntryStatus::Committed {
            self.commit_time.set(Some(now));
        }
    }

    /// Writes the changed fields into `rec` and says whether there were any.
    pub fn write(&self, rec: &mut PhotoRecord) -> (changed: bool)
        ensures
            final(rec)@ == self.written(old(rec)@),
            changed == self.changes_any(),
    {
        let mut changed = false;
        if self.metadata.changed() {
            self.metadata.write(&mut rec.metadata);
            changed = true;
        }
        if self.file_hash.changed() {
            self.file_hash.write(&mut rec.file_hash);
            changed = true;
        }
        if self.selected.changed() {
            self.selected.write(&mut rec.selected);
            changed = true;
        }
        if self.status.changed() {
            self.status.write(&mut rec.status);
            changed = true;
        }
        if self.commit_time.changed() {
            self.commit_time.write(&mut rec.commit_time);
            changed = true;
        }
        changed
    }
}

/// The record that a commit of `diff` at the time `now` makes of a record
/// with the content `live`.
pub open spec fn committed_record(
    live: PhotoRecordView,
    diff: PhotoRecordDiff,
    now: Timestamp,
) -> PhotoRecordView {
    diff.adjusted(now).written(live)
}

/// What a committed patch makes of a table: whether `after` is the table
/// `before` once the diff was committed on it at the time `now`. The record
/// is as the diff leaves it, every other record and the location index are
/// as they were, and the table has unsaved changes if it had them or the
/// diff changes a field.
pub open spec fn patched(
    before: &PhotoTable,
    diff: PhotoRecordDiff,
    now: Timestamp,
    after: &PhotoTable,
) -> bool {
    &&& after.rows() == before.rows().insert(
        diff.pid,
        committed_record(before.rows()[diff.pid], diff, now),
    )
    &&& after.unsaved() == (before.unsaved() || diff.adjusted(now).changes_any())
    &&& after.next_pid() == before.next_pid()
    &&& after.index_view().loc2pid == before.index_view().loc2pid
}

/// What a commit makes of the status and the commit time of the record
/// that the diff was started on. The status is the one that follows the
/// status of the diff under what the diff has found: missing for a selected
/// photo that was marked missing, else modified where hash or metadata
/// change, else no drift. So a commit that finds no drift commits a record
/// that carried a flag, and a commit of a diff that changes nothing leaves
/// every other record as it is. The commit time is the time of the commit
/// where the status has become `Committed`, and else what the diff says.
pub proof fn lemma_committed_status(rec: PhotoRecordView, diff: PhotoRecordDiff, now: Timestamp)
    requires
        diff.started_on(rec),
    ensures
        committed_record(rec, diff, now).status == status_after_drift(
            diff.status.now(),
            diff.drift(),
        ),
        committed_record(rec, diff, now).commit_time == (if committed_record(rec, diff, now).status
            == PhotoEntryStatus::Committed && rec.status != PhotoEntryStatus::Committed {
            Some(now)
        } else {
            diff.commit_time.now()
        }),
        committed_record(rec, diff_of(rec), now) == (if rec.status.flagged() {
            PhotoRecordView {
                status: PhotoEntryStatus::Committed,
                commit_time: Some(now),
                ..rec
            }
        } else {
            rec
        }),
{
}

/// A committed patch and the dirty flag. A patch that changes a field of
/// the record it was started on, once the status has followed, leaves a
/// table that is written, whether its file exists or not, and the record is
/// another than before. A patch that changes no field then leaves the rows
/// and the flag as they were.
pub proof fn lemma_patch_and_flag(
    before: &PhotoTable,
    diff: PhotoRecordDiff,
    now: Timestamp,
    after: &PhotoTable,
    file_exists: bool,
)
    requires
        before.wf(),
        before.rows().contains_key(diff.pid),
        diff.started_on(before.rows()[diff.pid]),
        patched(before, diff, now, after),
    ensures
        diff.adjusted(now).changes_any() ==> must_write(after.unsaved(), file_exists)
            && after.rows()[diff.pid] != before.rows()[diff.pid],
        !diff.adjusted(now).changes_any() ==> after.rows() == before.rows() && after.unsaved()
            == before.unsaved(),
{
    if !diff.adjusted(now).changes_any() {
        assert(after.rows() =~= before.rows());
    }
}

/// Changes to one photo record that wait for their commit. The patch holds
/// the table for as long as it lives.
pub struct PhotoRecordPatch<'b> {
    pub rec_diff: PhotoRecordDiff,
    pub table: &'b mut PhotoTable,
}

impl<'b> TableRecordPatch for PhotoRecordPatch<'b> {
    type Table = PhotoTable;

    open spec fn attached(&self) -> bool {
        self.table.wf() && self.table.rows().contains_key(self.rec_diff.pid)
    }

    /// Commits at the time that the clock shows.
    fn commit(self)
        ensures
            final(self.table).wf(),
            exists|now: Timestamp| #[trigger]
                patched(old(self.table), self.rec_diff, now, final(self.table)),
    {
        let ghost before = *self.table;
        let now = current_time();
        self.table.apply_diff(self.rec_diff, now);
        proof {
            assert(patched(&before, self.rec_diff, now, self.table));
        }
    }
}

impl<'b> PhotoRecordPatch<'b> {
    /// Starts a patch of the record under `key` that changes nothing yet.
    pub fn new(key: PID, table: &'b mut PhotoTable) -> (patch: Self)
        requires
            old(table).wf(),
            old(table).rows().contains_key(key),
        ensures
            patch.rec_diff == diff_of(old(table).rows()[key]),
            patch.rec_diff.pid == key,
            *patch.table == *old(table),
            *final(patch.table) == *final(table),
    {
        let rec_diff = PhotoRecordDiff::new(table.get(&key).unwrap());
        PhotoRecordPatch { rec_diff, table }
    }

    /// Commits the patch as if the clock showed `now`: the diff is adjusted,
    /// the changed fields are written, the table is marked as changed where
    /// there were any, and the index follows.
    pub fn commit_at(self, now: Timestamp)
        requires
            self.table.wf(),
            self.table.rows().contains_key(self.rec_diff.pid),
        ensures
            final(self.table).wf(),
            patched(old(self.table), self.rec_diff, now, final(self.table)),
    {
        self.table.apply_diff(self.rec_diff, now);
    }

    /// The value that the metadata has as far as the patch is concerned.
    pub fn metadata(&self) -> (v: &PhotoMetadata)
        ensures
            *v == self.rec_diff.metadata.now(),
    {
        self.rec_diff.metadata.current()
    }

    /// Gives the metadata a new value.
    pub fn set_metadata(&mut self, v: PhotoMetadata)
        ensures
            final(self).rec_diff == (PhotoRecordDiff {
                metadata: old(self).rec_diff.metadata.with(v),
                ..old(self).rec_diff
            }),
            final(self).table == old(self).table,
    {
        self.rec_diff.metadata.set(v);
    }

    /// The patch with a new value for the metadata.
    pub fn with_metadata(self, v: PhotoMetadata) -> (patch: Self)
        ensures
            patch.rec_diff == (PhotoRecordDiff {
                metadata: self.rec_diff.metadata.with(v),
                ..self.rec_diff
            }),
            *patch.table == *old(self.table),
            *final(patch.table) == *final(self.table),
    {
        let mut patch = self;
        patch.rec_diff.metadata.set(v);
        patch
    }

    /// The value that the content hash has as far as the patch is concerned.
    pub fn file_hash(&self) -> (v: &FileHash)
        ensures
            *v == self.rec_diff.file_hash.now(),
    {
        self.rec_diff.file_hash.current()
    }

    /// Gives the content hash a new value.
    pub fn set_file_hash(&mut self, v: FileHash)
        ensures
            final(self).rec_diff == (PhotoRecordDiff {
                file_hash: old(self).rec_diff.file_hash.with(v),
                ..old(self).rec_diff
            }),
            final(self).table == old(self).table,
    {
        self.rec_diff.file_hash.set(v);
    }

    /// The patch with a new value for the content hash.
    pub fn with_file_hash(self, v: FileHash) -> (patch: Self)
        ensures
            patch.rec_diff == (PhotoRecordDiff {
                file_hash: self.rec_diff.file_hash.with(v),
                ..self.rec_diff
            }),
            *patch.table == *old(self.table),
            *final(patch.table) == *final(self.table),
    {
        let mut patch = self;
        patch.rec_diff.file_hash.set(v);
        patch
    }

    /// The value that the selection mark has as far as the patch is concerned.
    pub fn selected(&self) -> (v: &bool)
        ensures
            *v == self.rec_diff.selected.now(),
    {
        self.rec_diff.selected.current()
    }

    /// Gives the selection mark a new value.
    pub fn set_selected(&mut self, v: bool)
        ensures
            final(self).rec_diff == (PhotoRecordDiff {
                selected: old(self).rec_diff.selected.with(v),
                ..old(self).rec_diff
            }),
            final(self).table == old(self).table,
    {
        self.rec_diff.selected.set(v);
    }

    /// The patch with a new value for the selection mark.
    pub fn with_selected(self, v: bool) -> (patch: Self)
        ensures
            patch.rec_diff == (PhotoRecordDiff {
                selected: self.rec_diff.selected.with(v),
                ..self.rec_diff
            }),
            *patch.table == *old(self.table),
            *final(patch.table) == *final(self.table),
    {
        let mut patch = self;
        patch.rec_diff.selected.set(v);
        patch
    }

    /// The value that the status has as far as the patch is concerned.
    pub fn status(&self) -> (v: &PhotoEntryStatus)
        ensures
            *v == self.rec_diff.status.now(),
    {
        self.rec_diff.status.current()
    }

    /// Gives the status a new value.
    pub fn set_status(&mut self, v: PhotoEntryStatus)
        ensures
            final(self).rec_diff == (PhotoRecordDiff {
                status: old(self).rec_diff.status.with(v),
                ..old(self).rec_diff
            }),
            final(self).table == old(self).table,
    {
        self.rec_diff.status.set(v);
    }

    /// The patch with a new value for the status.
    pub fn with_status(self, v: PhotoEntryStatus) -> (patch: Self)
        ensures
            patch.rec_diff == (PhotoRecordDiff {
                status: self.rec_diff.status.with(v),
                ..self.rec_diff
            }),
            *patch.table == *old(self.table),
            *final(patch.table) == *final(self.table),
    {
        let mut patch = self;
        patch.rec_diff.status.set(v);
        patch
    }

    /// The value that the commit time has as far as the patch is concerned.
    pub fn commit_time(&self) -> (v: &Option<Timestamp>)
        ensures
            *v == self.rec_diff.commit_time.now(),
    {
        self.rec_diff.commit_time.current()
    }

    /// Gives the commit time a new value.
    pub fn set_commit_time(&mut self, v: Option<Timestamp>)
        ensures
            final(self).rec_diff == (PhotoRecordDiff {
                commit_time: old(self).rec_diff.commit_time.with(v),
                ..old(self).rec_diff
            }),
            final(self).table == old(self).table,
    {
        self.rec_diff.commit_time.set(v);
    }

    /// The patch with a new value for the commit time.
    pub fn with_commit_time(self, v: Option<Timestamp>) -> (patch: Self)
        ensures
            patch.rec_diff == (PhotoRecordDiff {
                commit_time: self.rec_diff.commit_time.with(v),
                ..self.rec_diff
            }),
            *patch.table == *old(self.table),
            *final(patch.table) == *final(self.table),
    {
        let mut patch = self;
        patch.rec_diff.commit_time.set(v);
        patch
    }

    /// The patch with the changes of `diff` in place of its own. The patch
    /// stays with its own record.
    pub fn with_diff(self, diff: PhotoRecordDiff) -> (patch: Self)
        ensures
            patch.rec_diff == (PhotoRecordDiff { pid: self.rec_diff.pid, ..diff }),
            *patch.table == *old(self.table),
            *final(patch.table) == *final(self.table),
    {
        let mut patch = self;
        let pid = patch.rec_diff.pid;
        patch.rec_diff = diff;
        patch.rec_diff.pid = pid;
        patch
    }

    /// Notes that the scan did not find the file.
    pub fn mark_missing(&mut self)
        ensures
            final(self).rec_diff == (PhotoRecordDiff { is_missing: true, ..old(self).rec_diff }),
            final(self).table == old(self).table,
    {
        self.rec_diff.is_missing = true;
    }

    /// Gives the patch up and hands out its changes; the table stays as it
    /// is.
    pub fn into_diff(self) -> (diff: PhotoRecordDiff)
        ensures
            diff == self.rec_diff,
            *final(self.table) == *old(self.table),
    {
        self.rec_diff.to_owned()
    }
}

} // verus!
