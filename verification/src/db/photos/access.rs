//! Access to the photo table.
use super::misc::{current_time, PhotoEntryStatus, Timestamp, PID};
use super::patch::{committed_record, diff_of, PhotoRecordDiff, PhotoRecordPatch};
use super::records::{fresh_record, LocalPhoto, PhotoRecord, PhotoRecordView};
use super::table::PhotoTable;
use crate::db::helpers::access::{TableAccess, TableAccessMut};
use crate::db::helpers::entry::{TableEntry, TableEntryTrait};
use crate::db::helpers::handle::{Slot, TableHandle};
use crate::db::helpers::table::{Table, TableRecord};
use vstd::prelude::*;

verus! {

/// Read access to a photo table.
pub fn pt_access<'a>(table: &'a PhotoTable) -> (handle: TableAccess<'a, PhotoTable>)
    ensures
        *handle.table == *table,
{
    TableAccess { table }
}

/// Exclusive access to a photo table.
pub fn pt_access_mut<'a>(table: &'a mut PhotoTable) -> (handle: TableAccessMut<'a, PhotoTable>)
    ensures
        *handle.table == *old(table),
        *final(handle.table) == *final(table),
{
    TableAccessMut { table }
}

/// The counts that sum the collection up.
#[derive(Clone, Copy, Debug, PartialEq, Eq, Structural)]
pub struct PhotoSummary {
    /// How many photos there are.
    pub total: usize,
    /// How many of them were never vetted.
    pub unvetted: usize,
    /// How many are selected and committed.
    pub selected: usize,
    /// How many are selected but missing.
    pub selected_missing: usize,
    /// How many are selected but modified.
    pub selected_modified: usize,
}

/// The selected records of a status.
pub open spec fn selected_with(rows: Map<PID, PhotoRecordView>, status: PhotoEntryStatus) -> Set<
    PID,
> {
    Set::new(|pid: PID| rows.contains_key(pid) && rows[pid].selected && rows[pid].status == status)
}

/// The records of a status.
pub open spec fn all_with(rows: Map<PID, PhotoRecordView>, status: PhotoEntryStatus) -> Set<PID> {
    Set::new(|pid: PID| rows.contains_key(pid) && rows[pid].status == status)
}

impl<'a> TableAccess<'a, PhotoTable> {
    /// All records in the rising order of their keys.
    pub fn records(&self) -> (all: Vec<&'a PhotoRecord>)
        requires
            self.table.wf(),
        ensures
            crate::db::photos::table::listed(self.table.rows(), all@),
    {
        self.table.records()
    }

    /// How many records are selected and have a status.
    pub fn count_selected(&self, status: PhotoEntryStatus) -> (n: usize)
        requires
            self.table.wf(),
        ensures
            n == selected_with(self.table.rows(), status).len(),
    {
        let all = self.table.records();
        let ghost rows = self.table.rows();
        let ghost seen: Set<PID> = Set::empty();
        let mut n: usize = 0;
        let mut i: usize = 0;
        while i < all.len()
            invariant
                i <= all.len(),
                crate::db::photos::table::listed(rows, all@),
                seen.finite(),
                n == seen.len(),
                n <= i,
                forall|pid: PID|
                    seen.contains(pid) <==> selected_with(rows, status).contains(pid) && exists|
                        j: int,
                    | 0 <= j < i && (#[trigger] all@[j])@.pid == pid,
            decreases all.len() - i,
        {
            let rec = all[i];
            let ghost before = seen;
            if rec.selected && rec.status == status {
                proof {
                    assert(!seen.contains(rec.pid)) by {
                        if seen.contains(rec.pid) {
                            let j = choose|j: int| 0 <= j < i && (#[trigger] all@[j])@.pid == rec.pid;
                            assert(all@[j]@.pid < all@[i as int]@.pid);
                        }
                    }
                    seen = seen.insert(rec.pid);
                }
                n += 1;
            }
            proof {
                assert forall|pid: PID|
                    seen.contains(pid) <==> selected_with(rows, status).contains(pid) && exists|
                        j: int,
                    | 0 <= j < i + 1 && (#[trigger] all@[j])@.pid == pid by {
                    if before.contains(pid) {
                        let j = choose|j: int| 0 <= j < i && (#[trigger] all@[j])@.pid == pid;
                        assert(0 <= j < i + 1 && all@[j]@.pid == pid);
                    }
                    if selected_with(rows, status).contains(pid) && exists|j: int|
                        0 <= j < i + 1 && (#[trigger] all@[j])@.pid == pid {
                        let j = choose|j: int| 0 <= j < i + 1 && (#[trigger] all@[j])@.pid == pid;
                        if j < i {
                            assert(0 <= j < i && all@[j]@.pid == pid);
                        } else {
                            assert(all@[i as int]@.pid == pid);
                        }
                    }
                    if seen.contains(pid) && !before.contains(pid) {
                        assert(all@[i as int]@.pid == pid);
                    }
                }
            }
            i += 1;
        }
        proof {
            assert(seen =~= selected_with(rows, status));
        }
        n
    }

    /// The counts that sum the collection up.
    pub fn summary(&self) -> (counts: PhotoSummary)
        requires
            self.table.wf(),
        ensures
            counts.total == self.table.rows().dom().len(),
            counts.unvetted == all_with(
                self.table.rows(),
                PhotoEntryStatus::Uncommitted,
            ).len(),
            counts.selected == selected_with(self.table.rows(), PhotoEntryStatus::Committed).len(),
            counts.selected_missing == selected_with(
                self.table.rows(),
                PhotoEntryStatus::CommittedButMissing,
            ).len(),
            counts.selected_modified == selected_with(
                self.table.rows(),
                PhotoEntryStatus::CommittedButModified,
            ).len(),
    {
        proof {
            self.table.lemma_index_consistent();
            assert(self.table.index_view().with_status(PhotoEntryStatus::Uncommitted) == all_with(
                self.table.rows(),
                PhotoEntryStatus::Uncommitted,
            ));
        }
        PhotoSummary {
            total: self.table.len(),
            unvetted: self.table.index().count_status(PhotoEntryStatus::Uncommitted),
            selected: self.count_selected(PhotoEntryStatus::Committed),
            selected_missing: self.count_selected(PhotoEntryStatus::CommittedButMissing),
            selected_modified: self.count_selected(PhotoEntryStatus::CommittedButModified),
        }
    }
}

impl<'b> TableEntryTrait<'b, PhotoTable> for TableEntry<'b, PhotoTable> {
    type Patch = PhotoRecordPatch<'b>;
}

impl<'b> TableEntry<'b, PhotoTable> {
    /// A patch of the record that was found; without a record the entry
    /// comes back.
    pub fn modify(self) -> (patch: Result<PhotoRecordPatch<'b>, Self>)
        requires
            self.table.wf(),
            self.found() matches Some(k) ==> self.table.rows().contains_key(k),
        ensures
            patch is Ok == self.found() is Some,
            match patch {
                Ok(p) => {
                    &&& Some(p.rec_diff.pid) == self.found()
                    &&& p.rec_diff == diff_of(old(self.table).rows()[p.rec_diff.pid])
                    &&& *p.table == *old(self.table)
                    &&& *final(p.table) == *final(self.table)
                },
                Err(e) => {
                    &&& e.handle == self.handle
                    &&& *e.table == *old(self.table)
                    &&& *final(e.table) == *final(self.table)
                },
            },
    {
        let TableEntry { handle, table } = self;
        match handle.0 {
            Some(Slot::Occupied(key)) => Ok(PhotoRecordPatch::new(key, table)),
            other => Err(TableEntry { handle: TableHandle(other), table }),
        }
    }

    /// A patch of the record that was found. Without a record, `make` makes
    /// one, which is entered in the table under the next primary key before
    /// it is patched; where the table does not take it, because its
    /// location has a record or the keys are used up, the entry comes back
    /// and the table stays as it is.
    pub fn or_insert_with<F: FnOnce() -> PhotoRecord>(self, make: F) -> (patch: Result<
        PhotoRecordPatch<'b>,
        Self,
    >)
        requires
            self.table.wf(),
            self.found() matches Some(k) ==> self.table.rows().contains_key(k),
            self.found() is None ==> make.requires(()),
        ensures
            match self.found() {
                Some(k) => {
                    &&& patch matches Ok(p)
                    &&& p.rec_diff == diff_of(old(self.table).rows()[k])
                    &&& *p.table == *old(self.table)
                    &&& *final(p.table) == *final(self.table)
                },
                None => exists|rec: PhotoRecord| #[trigger]
                    make.ensures((), rec) && (match patch {
                        Ok(p) => {
                            &&& old(self.table).accepts(rec@)
                            &&& p.rec_diff == diff_of(old(self.table).stored_as(rec@))
                            &&& p.table.wf()
                            &&& p.table.rows() == old(self.table).rows().insert(
                                old(self.table).next_pid(),
                                old(self.table).stored_as(rec@),
                            )
                            &&& p.table.next_pid() == old(self.table).next_pid() + 1
                            &&& p.table.unsaved()
                            &&& *final(p.table) == *final(self.table)
                        },
                        Err(e) => {
                            &&& !old(self.table).accepts(rec@)
                            &&& e.handle == self.handle
                            &&& *e.table == *old(self.table)
                            &&& *final(e.table) == *final(self.table)
                        },
                    }),
            },
    {
        match self.modify() {
            Ok(patch) => Ok(patch),
            Err(entry) => {
                let rec = make();
                let ghost content = rec@;
                let TableEntry { handle, table } = entry;
                proof {
                    assert(PhotoRecord::key_of(table.stored_as(content)) == table.next_pid());
                }
                if table.peek_pid() == u32::MAX || table.pid_at(
                    rec.location.mpid,
                    rec.location.filename.as_slice(),
                ).is_some() {
                    return Err(TableEntry { handle, table });
                }
                match table.insert(rec) {
                    Some(key) => {
                        table.set_modified(true);
                        Ok(PhotoRecordPatch::new(key, table))
                    },
                    None => Err(TableEntry { handle, table }),
                }
            },
        }
    }
}

/// What becomes of a record that stays, given what the rule hands back for
/// it: with a diff, what a commit of that diff at the time `now` makes of
/// the record; without one, the record as it is.
pub open spec fn kept_record(
    rec: PhotoRecordView,
    choice: Option<PhotoRecordDiff>,
    now: Timestamp,
) -> PhotoRecordView {
    match choice {
        Some(diff) => committed_record(rec, PhotoRecordDiff { pid: rec.pid, ..diff }, now),
        None => rec,
    }
}

/// What `retain` has made of one record, given the verdict of the rule on it:
/// a record that stays is what the rule's choice makes of it, and a record
/// that does not stay is gone.
pub open spec fn retained_as(
    rec: PhotoRecordView,
    choice: Option<PhotoRecordDiff>,
    keep: bool,
    now: Timestamp,
    after: Map<PID, PhotoRecordView>,
) -> bool {
    if keep {
        after.contains_key(rec.pid) && after[rec.pid] == kept_record(rec, choice, now)
    } else {
        !after.contains_key(rec.pid)
    }
}

/// Whether a verdict changes its record: the record is sent away, or a diff
/// is committed that changes a field.
pub open spec fn verdict_stirs(
    pid: PID,
    choice: Option<PhotoRecordDiff>,
    keep: bool,
    now: Timestamp,
) -> bool {
    !keep || (choice matches Some(diff) && (PhotoRecordDiff { pid, ..diff }).adjusted(
        now,
    ).changes_any())
}

/// What `retain` has made of the rows `before` with the rule `f` at the time
/// `now`: each record is what the rule's verdict on it calls for.
pub open spec fn retained_all<F: Fn(PID, PhotoRecordDiff) -> (Option<PhotoRecordDiff>, bool)>(
    f: F,
    before: Map<PID, PhotoRecordView>,
    after: Map<PID, PhotoRecordView>,
    now: Timestamp,
) -> bool {
    forall|pid: PID| #[trigger]
        before.contains_key(pid) ==> exists|choice: Option<PhotoRecordDiff>, keep: bool|
            {
                &&& #[trigger] f.ensures((pid, diff_of(before[pid])), (choice, keep))
                &&& retained_as(before[pid], choice, keep, now, after)
            }
}

/// Whether the rule `f`, run over the rows `before` at the time `now`, can
/// have changed anything: it has a verdict on a record that sends the record
/// away or commits a change to it.
pub open spec fn stirred<F: Fn(PID, PhotoRecordDiff) -> (Option<PhotoRecordDiff>, bool)>(
    f: F,
    before: Map<PID, PhotoRecordView>,
    now: Timestamp,
) -> bool {
    exists|pid: PID, choice: Option<PhotoRecordDiff>, keep: bool|
        {
            &&& before.contains_key(pid)
            &&& #[trigger] f.ensures((pid, diff_of(before[pid])), (choice, keep))
            &&& verdict_stirs(pid, choice, keep, now)
        }
}

impl<'a> TableAccessMut<'a, PhotoTable> {
    /// Goes through all records with a rule. The rule gets the primary key
    /// and a diff of each record. It hands back the diff, with whatever
    /// changes it wants, or nothing, and whether the record is to stay. A
    /// diff that comes back is committed at the time `now`, as a patch
    /// would be, which also lets the status follow; where none comes back
    /// the patch is given up and the record stays as it is. Then the
    /// records that are not to stay leave the table and the index in one
    /// pass.
    pub fn retain_at<F: Fn(PID, PhotoRecordDiff) -> (Option<PhotoRecordDiff>, bool)>(
        &mut self,
        f: &F,
        now: Timestamp,
    )
        requires
            old(self).table.wf(),
            forall|pid: PID, diff: PhotoRecordDiff| f.requires((pid, diff)),
        ensures
            *final(final(self).table) == *final(old(self).table),
            final(self).table.wf(),
            final(self).table.next_pid() == old(self).table.next_pid(),
            forall|pid: PID|
                final(self).table.rows().contains_key(pid) ==> old(self).table.rows().contains_key(
                    pid,
                ),
            retained_all(*f, old(self).table.rows(), final(self).table.rows(), now),
            old(self).table.unsaved() ==> final(self).table.unsaved(),
            final(self).table.rows() != old(self).table.rows() ==> final(self).table.unsaved(),
            final(self).table.unsaved() ==> old(self).table.unsaved() || stirred(
                *f,
                old(self).table.rows(),
                now,
            ),
    {
        let ghost rows0 = self.table.rows();
        let ghost was_unsaved = self.table.unsaved();
        let ghost verdicts: Map<PID, (Option<PhotoRecordDiff>, bool)> = Map::empty();
        let keys = self.table.pids();
        let mut to_remove: Vec<PID> = Vec::new();
        let mut i: usize = 0;
        while i < keys.len()
            invariant
                i <= keys.len(),
                keys@.no_duplicates(),
                forall|pid: PID| keys@.contains(pid) <==> rows0.contains_key(pid),
                forall|pid: PID, diff: PhotoRecordDiff| f.requires((pid, diff)),
                *final(self.table) == *final(old(self).table),
                self.table.wf(),
                self.table.next_pid() == old(self).table.next_pid(),
                PhotoTable::rows_ok(rows0, self.table.next_pid()),
                self.table.rows().dom() == rows0.dom(),
                forall|j: int|
                    i <= j < keys.len() ==> self.table.rows()[#[trigger] keys@[j]]
                        == rows0[keys@[j]],
                forall|j: int| 0 <= j < i ==> verdicts.contains_key(#[trigger] keys@[j]),
                forall|pid: PID| #[trigger]
                    verdicts.contains_key(pid) ==> {
                        &&& exists|j: int| 0 <= j < i && keys@[j] == pid
                        &&& f.ensures((pid, diff_of(rows0[pid])), verdicts[pid])
                        &&& self.table.rows()[pid] == kept_record(rows0[pid], verdicts[pid].0, now)
                        &&& verdicts[pid].1 == !to_remove@.contains(pid)
                    },
                forall|pid: PID| to_remove@.contains(pid) ==> verdicts.contains_key(pid),
                old(self).table.unsaved() ==> self.table.unsaved(),
                self.table.rows() != rows0 ==> self.table.unsaved(),
                was_unsaved == old(self).table.unsaved(),
                self.table.unsaved() ==> was_unsaved || stirred(*f, rows0, now),
            decreases keys.len() - i,
        {
            let pid = keys[i];
            let ghost before = self.table.rows();
            let ghost removing = to_remove@;
            proof {
                assert(keys@.contains(keys@[i as int]));
                if verdicts.contains_key(pid) {
                    let j = choose|j: int| 0 <= j < i && keys@[j] == pid;
                    assert(keys@[j] == keys@[i as int]);
                }
                assert(before.dom().contains(pid));
            }
            let diff = PhotoRecordDiff::new(self.table.get(&pid).unwrap());
            let (choice, keep) = f(pid, diff);
            match choice {
                Some(changed) => {
                    let mut own = changed;
                    own.pid = pid;
                    self.table.apply_diff(own, now);
                    proof {
                        assert(rows0[pid].pid == pid);
                        assert(own == (PhotoRecordDiff { pid, ..changed }));
                    }
                },
                None => {},
            }
            if !keep {
                to_remove.push(pid);
            }
            proof {
                assert(rows0[pid].pid == pid);
                if self.table.unsaved() && !was_unsaved && !stirred(*f, rows0, now) {
                    assert(rows0.contains_key(pid) && f.ensures(
                        (pid, diff_of(rows0[pid])),
                        (choice, keep),
                    ) && verdict_stirs(pid, choice, keep, now));
                }
                let earlier = verdicts;
                verdicts = verdicts.insert(pid, (choice, keep));
                assert(self.table.rows().dom() =~= rows0.dom());
                if kept_record(before[pid], choice, now) == before[pid] {
                    assert(self.table.rows() =~= before);
                }
                assert forall|p: PID| to_remove@.contains(p) implies removing.contains(p) || (p
                    == pid && !keep) by {
                    let k = choose|k: int| 0 <= k < to_remove@.len() && to_remove@[k] == p;
                    if k < removing.len() {
                        assert(removing[k] == p);
                    }
                }
                assert forall|p: PID| removing.contains(p) implies to_remove@.contains(p) by {
                    let k = choose|k: int| 0 <= k < removing.len() && removing[k] == p;
                    assert(to_remove@[k] == p);
                }
                if !keep {
                    assert(to_remove@[to_remove@.len() - 1] == pid);
                }
                assert forall|p: PID| #[trigger] verdicts.contains_key(p) implies {
                    &&& exists|j: int| 0 <= j < i + 1 && keys@[j] == p
                    &&& f.ensures((p, diff_of(rows0[p])), verdicts[p])
                    &&& self.table.rows()[p] == kept_record(rows0[p], verdicts[p].0, now)
                    &&& verdicts[p].1 == !to_remove@.contains(p)
                } by {
                    if p == pid {
                        assert(keys@[i as int] == p);
                    } else {
                        assert(earlier.contains_key(p));
                        let j = choose|j: int| 0 <= j < i && keys@[j] == p;
                        assert(0 <= j < i + 1 && keys@[j] == p);
                    }
                }
                assert forall|j: int| i + 1 <= j < keys.len() implies self.table.rows()[#[trigger] keys@[j]]
                    == rows0[keys@[j]] by {
                    assert(keys@[j] != keys@[i as int]);
                }
            }
            i += 1;
        }
        let ghost rows1 = self.table.rows();
        let ghost gone: Set<PID> = Set::empty();
        proof {
            assert forall|pid: PID| to_remove@.contains(pid) implies rows0.contains_key(pid) by {
                assert(verdicts.contains_key(pid));
                let at = choose|at: int| 0 <= at < i && keys@[at] == pid;
                assert(keys@.contains(keys@[at]));
            }
        }
        let mut j: usize = 0;
        while j < to_remove.len()
            invariant
                j <= to_remove.len(),
                *final(self.table) == *final(old(self).table),
                self.table.wf(),
                self.table.next_pid() == old(self).table.next_pid(),
                rows1.dom() == rows0.dom(),
                forall|pid: PID, diff: PhotoRecordDiff| f.requires((pid, diff)),
                keys@.no_duplicates(),
                forall|pid: PID| keys@.contains(pid) <==> rows0.contains_key(pid),
                PhotoTable::rows_ok(rows0, self.table.next_pid()),
                forall|k: int| 0 <= k < keys.len() ==> verdicts.contains_key(#[trigger] keys@[k]),
                forall|pid: PID| #[trigger]
                    verdicts.contains_key(pid) ==> {
                        &&& f.ensures((pid, diff_of(rows0[pid])), verdicts[pid])
                        &&& rows1[pid] == kept_record(rows0[pid], verdicts[pid].0, now)
                        &&& verdicts[pid].1 == !to_remove@.contains(pid)
                    },
                forall|k: int| 0 <= k < j ==> gone.contains(#[trigger] to_remove@[k]),
                forall|pid: PID| gone.contains(pid) ==> to_remove@.contains(pid),
                forall|pid: PID|
                    to_remove@.contains(pid) ==> verdicts.contains_key(pid) && rows0.contains_key(
                        pid,
                    ),
                self.table.rows().dom() == rows1.dom().difference(gone),
                forall|pid: PID| #[trigger]
                    self.table.rows().contains_key(pid) ==> self.table.rows()[pid] == rows1[pid],
                old(self).table.unsaved() ==> self.table.unsaved(),
                self.table.rows() != rows0 ==> self.table.unsaved(),
                j > 0 ==> self.table.unsaved(),
                was_unsaved == old(self).table.unsaved(),
                self.table.unsaved() ==> was_unsaved || stirred(*f, rows0, now),
            decreases to_remove.len() - j,
        {
            let pid = to_remove[j];
            let ghost before = self.table.rows();
            let ghost left = gone;
            self.table.remove(&pid);
            self.table.set_modified(true);
            proof {
                gone = gone.insert(pid);
                assert(to_remove@.contains(to_remove@[j as int]));
                assert(rows0.contains_key(pid) && f.ensures(
                    (pid, diff_of(rows0[pid])),
                    (verdicts[pid].0, verdicts[pid].1),
                ) && verdict_stirs(pid, verdicts[pid].0, verdicts[pid].1, now));
                assert(self.table.rows() == before.remove(pid));
                assert(self.table.rows().dom() =~= rows1.dom().difference(gone));
                assert forall|p: PID| #[trigger]
                    self.table.rows().contains_key(p) implies self.table.rows()[p] == rows1[p] by {
                    assert(before.contains_key(p));
                }
            }
            j += 1;
        }
        proof {
            assert forall|pid: PID| #[trigger] rows0.contains_key(pid) implies exists|
                choice: Option<PhotoRecordDiff>,
                keep: bool,
            |
                {
                    &&& #[trigger] f.ensures((pid, diff_of(rows0[pid])), (choice, keep))
                    &&& retained_as(rows0[pid], choice, keep, now, self.table.rows())
                } by {
                assert(keys@.contains(pid));
                let at = choose|at: int| 0 <= at < keys@.len() && keys@[at] == pid;
                assert(verdicts.contains_key(keys@[at]));
                let verdict = verdicts[pid];
                assert(rows0[pid].pid == pid);
                assert(rows1.dom().contains(pid));
                if verdict.1 {
                    assert(!to_remove@.contains(pid));
                    assert(!gone.contains(pid));
                    assert(self.table.rows().contains_key(pid));
                } else {
                    assert(to_remove@.contains(pid));
                    let k = choose|k: int| 0 <= k < to_remove@.len() && to_remove@[k] == pid;
                    assert(gone.contains(to_remove@[k]));
                    assert(!self.table.rows().contains_key(pid));
                }
                assert(f.ensures((pid, diff_of(rows0[pid])), (verdict.0, verdict.1)));
            }
            assert forall|pid: PID| self.table.rows().contains_key(pid) implies rows0.contains_key(
                pid,
            ) by {
                assert(rows1.dom().contains(pid));
            }
        }
    }

    /// Goes through all records with a rule, as `retain_at` does, at the
    /// time that the clock shows.
    pub fn retain<F: Fn(PID, PhotoRecordDiff) -> (Option<PhotoRecordDiff>, bool)>(&mut self, f: F)
        requires
            old(self).table.wf(),
            forall|pid: PID, diff: PhotoRecordDiff| f.requires((pid, diff)),
        ensures
            *final(final(self).table) == *final(old(self).table),
            final(self).table.wf(),
            final(self).table.next_pid() == old(self).table.next_pid(),
            forall|pid: PID|
                final(self).table.rows().contains_key(pid) ==> old(self).table.rows().contains_key(
                    pid,
                ),
            exists|now: Timestamp|
                {
                    &&& #[trigger] retained_all(
                        f,
                        old(self).table.rows(),
                        final(self).table.rows(),
                        now,
                    )
                    &&& final(self).table.unsaved() ==> old(self).table.unsaved() || stirred(
                        f,
                        old(self).table.rows(),
                        now,
                    )
                },
            old(self).table.unsaved() ==> final(self).table.unsaved(),
            final(self).table.rows() != old(self).table.rows() ==> final(self).table.unsaved(),
    {
        let now = current_time();
        self.retain_at(&f, now);
    }

    /// A patch of the record that `diff` was made for, with the changes of
    /// `diff`.
    pub fn take_diff<'b>(&'b mut self, diff: PhotoRecordDiff) -> (patch: PhotoRecordPatch<'b>)
        requires
            old(self).table.wf(),
            old(self).table.rows().contains_key(diff.pid),
        ensures
            patch.rec_diff == diff,
            *patch.table == *old(self).table,
            *final(patch.table) == *final(self).table,
            *final(final(self).table) == *final(old(self).table),
    {
        PhotoRecordPatch::new(diff.pid, &mut *self.table).with_diff(diff)
    }

    /// Enters a photo that a scan found as a new record and returns its
    /// primary key; `None`, with the table unchanged, where the table has a
    /// record at that location already or has no key left.
    pub fn insert_lphoto(&mut self, file: LocalPhoto) -> (pid: Option<PID>)
        requires
            old(self).table.wf(),
            file@.file_hash is Some,
        ensures
            *final(final(self).table) == *final(old(self).table),
            final(self).table.wf(),
            pid is Some == old(self).table.accepts(fresh_record(0, file@)),
            pid matches Some(p) ==> {
                &&& p == old(self).table.next_pid()
                &&& final(self).table.rows() == old(self).table.rows().insert(
                    p,
                    fresh_record(p, file@),
                )
                &&& final(self).table.unsaved()
                &&& final(self).table.next_pid() == p + 1
            },
            pid is None ==> {
                &&& final(self).table.rows() == old(self).table.rows()
                &&& final(self).table.unsaved() == old(self).table.unsaved()
                &&& final(self).table.next_pid() == old(self).table.next_pid()
            },
    {
        let rec = PhotoRecord::new(0, file);
        let pid = self.table.insert(rec);
        if pid.is_some() {
            self.table.set_modified(true);
        }
        pid
    }
}

} // verus!
