//! The scan: every file that was found is brought in step with its record,
//! or gets one, and the records whose files were not found are marked
//! missing or dropped.
use crate::db::helpers::access::{TableAccess, TableAccessMut};
use crate::db::helpers::table::{Table, TableKey};
use crate::db::locations::FileLocationView;
use crate::db::mounts::table::{id_in_use, MountPointTable};
use crate::db::photos::access::{retained_all, retained_as, stirred, verdict_stirs};
use crate::db::photos::image::{record_views, PhotoTableImage};
use crate::db::photos::index::{lemma_indexed_location, lemma_indexed_record};
use crate::db::photos::misc::{
    current_time, status_after_drift, Drift, PhotoEntryStatus, Timestamp, PID,
};
use crate::db::photos::patch::{committed_record, diff_of, PhotoRecordDiff};
use crate::db::photos::records::{
    fresh_record, LocalPhoto, LocalPhotoView, PhotoRecordView, SyncError,
};
use crate::db::photos::synchronizer::{
    must_hash, settled_stub, stub_of, sync_diff, DBStub, LocalSyncer, Stage, SyncerQuery,
};
use crate::db::photos::table::PhotoTable;
use crate::util::keyed::KeyedMap;
use crate::util::persist::TableIO;
use std::collections::HashSet;
use vstd::prelude::*;

verus! {

broadcast use vstd::std_specs::hash::group_hash_axioms;

/// The views of a list of files.
pub open spec fn views(files: Seq<LocalPhoto>) -> Seq<LocalPhotoView> {
    files.map_values(|f: LocalPhoto| f@)
}

/// Whether a file of the scan lies at a location.
pub open spec fn located(files: Seq<LocalPhotoView>, loc: FileLocationView) -> bool {
    exists|i: int| 0 <= i < files.len() && (#[trigger] files[i]).location == loc
}

/// The stub of a file after the first stage: that of its record, where the
/// table has one at its location.
pub open spec fn first_stub(table: &PhotoTable, file: LocalPhotoView) -> Option<DBStub> {
    if table.index_view().loc2pid.contains_key(file.location) {
        Some(stub_of(table.rows()[table.index_view().loc2pid[file.location]], file))
    } else {
        None
    }
}

/// How many of the first `n` files have no record.
pub open spec fn fresh_before(table: &PhotoTable, files: Seq<LocalPhotoView>, n: int) -> nat
    decreases n,
{
    if n <= 0 {
        0
    } else {
        fresh_before(table, files, n - 1) + if first_stub(table, files[n - 1]) is None {
            1nat
        } else {
            0nat
        }
    }
}

/// What is wrong with the file at place `i`, if anything: its mount point is
/// not mounted, its content is needed for a hash and was not loaded, or an
/// earlier file of the scan lies at the same location.
pub open spec fn file_error(
    table: &PhotoTable,
    mounts: &MountPointTable,
    files: Seq<LocalPhotoView>,
    i: int,
) -> Option<SyncError> {
    if !id_in_use(mounts.rows(), files[i].location.0) {
        Some(SyncError::NotMounted)
    } else if must_hash(first_stub(table, files[i])) && !files[i].hashable() {
        Some(SyncError::NotPrefetched)
    } else if located(files.subrange(0, i), files[i].location) {
        Some(SyncError::DuplicateLocation)
    } else {
        None
    }
}

/// The first error among the first `n` files.
pub open spec fn error_before(
    table: &PhotoTable,
    mounts: &MountPointTable,
    files: Seq<LocalPhotoView>,
    n: int,
) -> Option<SyncError>
    decreases n,
{
    if n <= 0 {
        None
    } else {
        match error_before(table, mounts, files, n - 1) {
            Some(e) => Some(e),
            None => file_error(table, mounts, files, n - 1),
        }
    }
}

/// Why a scan of these files fails, if it does: the first error of a file, or
/// else that the table has fewer primary keys left than there are new files.
pub open spec fn scan_error(
    table: &PhotoTable,
    mounts: &MountPointTable,
    files: Seq<LocalPhotoView>,
) -> Option<SyncError> {
    match error_before(table, mounts, files, files.len() as int) {
        Some(e) => Some(e),
        None => if table.next_pid() + fresh_before(table, files, files.len() as int) > u32::MAX {
            Some(SyncError::KeysExhausted)
        } else {
            None
        },
    }
}

/// Whether a file differs from its record: the cheap comparison raised doubt
/// and the content hash is another one.
pub open spec fn file_differs(rec: PhotoRecordView, file: LocalPhotoView) -> bool {
    file.metadata.likely_changed_since(rec.metadata) && file.settled_hash() != rec.file_hash
}

/// The record of a file that was found again, after the scan at the time
/// `now`: hash and metadata are those of the file where it differs, and the
/// status has taken the step that this calls for. Where the file differs, a
/// vetted record is flagged as modified. Where it does not, a record that
/// carried a flag is committed again, with `now` as its commit time, and any
/// other record stays as it is.
pub open spec fn synced_record(
    rec: PhotoRecordView,
    file: LocalPhotoView,
    now: Timestamp,
) -> PhotoRecordView {
    committed_record(
        rec,
        if file_differs(rec, file) {
            PhotoRecordDiff {
                metadata: diff_of(rec).metadata.with(file.metadata),
                file_hash: diff_of(rec).file_hash.with(file.settled_hash()),
                ..diff_of(rec)
            }
        } else {
            diff_of(rec)
        },
        now,
    )
}

/// The record of a file that was not found, after the scan at the time `now`.
pub open spec fn missed_record(rec: PhotoRecordView, now: Timestamp) -> PhotoRecordView {
    committed_record(rec, PhotoRecordDiff { is_missing: true, ..diff_of(rec) }, now)
}

/// The record that a new file gets under the primary key `pid`.
pub open spec fn found_record(pid: PID, file: LocalPhotoView) -> PhotoRecordView {
    fresh_record(pid, LocalPhotoView { file_hash: Some(file.settled_hash()), ..file })
}

/// Whether the file at place `i` has, in the table `after`, the record that a
/// scan at the time `now` owes it: its old record brought in step with it,
/// or a new record under the primary key that falls to it among the new
/// files.
pub open spec fn file_settled(
    before: &PhotoTable,
    files: Seq<LocalPhotoView>,
    now: Timestamp,
    after: &PhotoTable,
    i: int,
) -> bool {
    match first_stub(before, files[i]) {
        Some(stub) => after.rows().contains_key(stub.pid) && after.rows()[stub.pid]
            == synced_record(before.rows()[stub.pid], files[i], now),
        None => {
            let pid = (before.next_pid() + fresh_before(before, files, i)) as PID;
            after.rows().contains_key(pid) && after.rows()[pid] == found_record(pid, files[i])
        },
    }
}

/// Whether the file at place `i` is new and `pid` is the primary key that
/// falls to it.
pub open spec fn fresh_at(before: &PhotoTable, files: Seq<LocalPhotoView>, i: int, pid: PID) -> bool {
    first_stub(before, files[i]) is None && pid == before.next_pid() + fresh_before(
        before,
        files,
        i,
    )
}

/// What a scan at the time `now` that found `files` has made of the table
/// `before`.
///
/// A record whose file was found is brought in step with it, and is not
/// touched again at the end of the scan, so that a flag that the scan has
/// raised on it stays. A record whose file was not found is marked missing
/// where it is selected, and is gone where it is not. Every file without a
/// record has got one, the new primary keys going to the new files in their
/// order.
pub open spec fn scanned(
    before: &PhotoTable,
    files: Seq<LocalPhotoView>,
    now: Timestamp,
    after: &PhotoTable,
) -> bool {
    &&& after.next_pid() == before.next_pid() + fresh_before(before, files, files.len() as int)
    &&& forall|pid: PID| #[trigger]
        before.rows().contains_key(pid) && !located(files, before.rows()[pid].location) ==> (
        if before.rows()[pid].selected {
            after.rows().contains_key(pid) && after.rows()[pid] == missed_record(
                before.rows()[pid],
                now,
            )
        } else {
            !after.rows().contains_key(pid)
        })
    &&& forall|i: int|
        0 <= i < files.len() ==> #[trigger] file_settled(before, files, now, after, i)
    &&& forall|pid: PID| #[trigger]
        after.rows().contains_key(pid) ==> before.rows().contains_key(pid) || before.next_pid()
            <= pid < after.next_pid()
}

/// Whether `syncers` are the files `files` after the first two stages against
/// `table`.
pub open spec fn classified(
    table: &PhotoTable,
    files: Seq<LocalPhotoView>,
    syncers: Seq<LocalSyncer>,
) -> bool {
    &&& syncers.len() == files.len()
    &&& forall|i: int|
        0 <= i < files.len() ==> {
            let syncer = #[trigger] syncers[i];
            &&& syncer.stage == Stage::Stage2
            &&& syncer.stub == settled_stub(first_stub(table, files[i]), files[i])
            &&& syncer.local_entry@.location == files[i].location
            &&& syncer.local_entry@.metadata == files[i].metadata
            &&& must_hash(first_stub(table, files[i])) ==> syncer.local_entry@.file_hash == Some(
                files[i].settled_hash(),
            )
        }
}

/// An error among the first files is the error of every longer list.
pub proof fn lemma_error_stays(
    table: &PhotoTable,
    mounts: &MountPointTable,
    files: Seq<LocalPhotoView>,
    k: int,
    n: int,
)
    requires
        0 <= k <= n,
        error_before(table, mounts, files, k) is Some,
    ensures
        error_before(table, mounts, files, n) == error_before(table, mounts, files, k),
    decreases n - k,
{
    if k < n {
        lemma_error_stays(table, mounts, files, k, n - 1);
    }
}

/// No two of the files lie at the same location.
pub open spec fn no_duplicates(files: Seq<LocalPhotoView>) -> bool {
    forall|i: int, j: int|
        0 <= i < j < files.len() ==> (#[trigger] files[i]).location != (#[trigger] files[j]).location
}

/// Files without an error lie at different locations.
pub proof fn lemma_no_error_no_duplicates(
    table: &PhotoTable,
    mounts: &MountPointTable,
    files: Seq<LocalPhotoView>,
    n: int,
)
    requires
        0 <= n <= files.len(),
        error_before(table, mounts, files, n) is None,
    ensures
        no_duplicates(files.subrange(0, n)),
    decreases n,
{
    if n > 0 {
        lemma_no_error_no_duplicates(table, mounts, files, n - 1);
        let head = files.subrange(0, n - 1);
        let more = files.subrange(0, n);
        assert(file_error(table, mounts, files, n - 1) is None);
        assert(!located(head, files[n - 1].location));
        assert forall|i: int, j: int| 0 <= i < j < more.len() implies (#[trigger] more[i]).location
            != (#[trigger] more[j]).location by {
            if j < n - 1 {
                assert(head[i] == more[i]);
                assert(head[j] == more[j]);
            } else {
                assert(head[i].location == more[i].location);
            }
        }
    }
}

/// The count of new files grows with the number of files that are counted.
pub proof fn lemma_fresh_grows(table: &PhotoTable, files: Seq<LocalPhotoView>, k: int, n: int)
    requires
        0 <= k <= n,
    ensures
        fresh_before(table, files, k) <= fresh_before(table, files, n),
        fresh_before(table, files, n) <= n,
    decreases n,
{
    if n > 0 {
        if k < n {
            lemma_fresh_grows(table, files, k, n - 1);
        } else {
            lemma_fresh_grows(table, files, n - 1, n - 1);
        }
    }
}

/// How far the last stage has come after the first `k` files: what it has
/// made of the table `before`.
pub open spec fn applied(
    before: &PhotoTable,
    files: Seq<LocalPhotoView>,
    now: Timestamp,
    k: int,
    after: &PhotoTable,
) -> bool {
    &&& after.next_pid() == before.next_pid() + fresh_before(before, files, k)
    &&& forall|pid: PID| #[trigger]
        before.rows().contains_key(pid) ==> after.rows().contains_key(pid) && (!located(
            files.subrange(0, k),
            before.rows()[pid].location,
        ) ==> after.rows()[pid] == before.rows()[pid])
    &&& forall|i: int| 0 <= i < k ==> #[trigger] file_settled(before, files, now, after, i)
    &&& forall|pid: PID| #[trigger]
        after.rows().contains_key(pid) ==> before.rows().contains_key(pid) || (exists|i: int|
            0 <= i < k && #[trigger] fresh_at(before, files, i, pid))
}

/// The primary keys of the records that belong to the first `k` files.
pub open spec fn touched_by(
    before: &PhotoTable,
    files: Seq<LocalPhotoView>,
    k: int,
) -> Set<PID> {
    Set::new(
        |pid: PID|
            (before.rows().contains_key(pid) && located(
                files.subrange(0, k),
                before.rows()[pid].location,
            )) || (before.next_pid() <= pid < before.next_pid() + fresh_before(before, files, k)),
    )
}

/// The scan of the files below the mount points of one table into one photo
/// table.
pub struct Scanner<'b> {
    pub pt: &'b mut PhotoTable,
    pub mpt: &'b MountPointTable,
}

impl<'b> Scanner<'b> {
    /// A scan into the photo table behind `pt` of files below the mount
    /// points of the table behind `mpt`.
    pub fn new<'a, 'm>(
        pt: &'b mut TableAccessMut<'a, PhotoTable>,
        mpt: &'b TableAccess<'m, MountPointTable>,
    ) -> (scanner: Self)
        ensures
            *scanner.pt == *old(pt).table,
            *final(scanner.pt) == *final(pt).table,
            *final(final(pt).table) == *final(old(pt).table),
            *scanner.mpt == *mpt.table,
    {
        Scanner { pt: &mut *pt.table, mpt: mpt.table }
    }

    /// Says of every file whether its content has to be loaded before the
    /// scan: the file is new, or the cheap comparison with its record raises
    /// doubt, and its hash is not known yet.
    pub fn plan(pt: &PhotoTable, files: &Vec<LocalPhoto>) -> (needed: Vec<bool>)
        requires
            pt.wf(),
        ensures
            needed@.len() == files@.len(),
            forall|i: int|
                0 <= i < files@.len() ==> #[trigger] needed@[i] == (must_hash(
                    first_stub(pt, files@[i]@),
                ) && files@[i]@.file_hash is None),
    {
        let access = TableAccess { table: pt };
        let mut needed: Vec<bool> = Vec::new();
        let mut i: usize = 0;
        while i < files.len()
            invariant
                i <= files.len(),
                pt.wf(),
                access.table == pt,
                needed@.len() == i,
                forall|j: int|
                    0 <= j < i ==> #[trigger] needed@[j] == (must_hash(
                        first_stub(pt, files@[j]@),
                    ) && files@[j]@.file_hash is None),
            decreases files.len() - i,
        {
            let file = &files[i];
            let doubt = match access.query(&file.location) {
                Some(rec) => file.metadata.differs_cheaply(&rec.metadata),
                None => true,
            };
            proof {
                if first_stub(pt, file@) is Some {
                    lemma_indexed_location(pt.index_view(), pt.rows(), file@.location);
                }
            }
            needed.push(doubt && file.file_hash.is_none());
            i += 1;
        }
        needed
    }

    /// The first two stages for every file: the cheap comparison with the
    /// record, and the hash where that is called for. Nothing is changed in
    /// the table.
    pub fn classify(pt: &PhotoTable, mpt: &MountPointTable, files: Vec<LocalPhoto>) -> (sorted:
        Result<Vec<LocalSyncer>, SyncError>)
        requires
            pt.wf(),
            mpt.wf(),
        ensures
            match sorted {
                Ok(syncers) => {
                    &&& error_before(pt, mpt, views(files@), files@.len() as int) is None
                    &&& classified(pt, views(files@), syncers@)
                },
                Err(e) => error_before(pt, mpt, views(files@), files@.len() as int) == Some(e),
            },
    {
        let ghost all = views(files@);
        let access = TableAccess { table: pt };
        let mut syncers: Vec<LocalSyncer> = Vec::new();
        let mut seen: KeyedMap<bool> = KeyedMap::new();
        for file in it: files
            invariant
                all == views(it.seq()),
                access.table == pt,
                pt.wf(),
                mpt.wf(),
                seen.wf(),
                forall|loc: FileLocationView|
                    seen@.contains_key(loc) <==> located(all.subrange(0, it.index()), loc),
                error_before(pt, mpt, all, it.index()) is None,
                classified(pt, all.subrange(0, it.index()), syncers@),
        {
            let ghost i = it.index();
            let ghost shown = file@;
            proof {
                assert(all[i] == shown);
                mpt.lemma_index_ids(file.location.mpid);
            }
            if mpt.path_of(file.location.mpid).is_none() {
                proof {
                    lemma_error_stays(pt, mpt, all, i + 1, all.len() as int);
                }
                return Err(SyncError::NotMounted);
            }
            let syncer = LocalSyncer::new(file).run_stage1(&access);
            proof {
                assert(syncer.stub == first_stub(pt, shown));
            }
            let syncer = match syncer.run_stage2() {
                Ok(syncer) => syncer,
                Err(e) => {
                    proof {
                        lemma_error_stays(pt, mpt, all, i + 1, all.len() as int);
                    }
                    return Err(e);
                },
            };
            let mpid = syncer.local_entry.location.mpid;
            if seen.contains_key(mpid, syncer.local_entry.location.filename.as_slice()) {
                proof {
                    lemma_error_stays(pt, mpt, all, i + 1, all.len() as int);
                }
                return Err(SyncError::DuplicateLocation);
            }
            let name = crate::util::bytes::copy_bytes(
                syncer.local_entry.location.filename.as_slice(),
            );
            seen.insert(mpid, name, true);
            syncers.push(syncer);
            proof {
                let head = all.subrange(0, i);
                let more = all.subrange(0, i + 1);
                assert forall|loc: FileLocationView| seen@.contains_key(loc) <==> located(
                    more,
                    loc,
                ) by {
                    if located(more, loc) {
                        let j = choose|j: int| 0 <= j < more.len() && (#[trigger] more[j]).location == loc;
                        if j < i {
                            assert(head[j].location == loc);
                        }
                    }
                    if located(head, loc) {
                        let j = choose|j: int| 0 <= j < head.len() && (#[trigger] head[j]).location == loc;
                        assert(more[j].location == loc);
                    }
                    if loc == shown.location {
                        assert(more[i].location == loc);
                    }
                }
                assert forall|j: int| 0 <= j < more.len() implies {
                    let syncer = #[trigger] syncers@[j];
                    &&& syncer.stage == Stage::Stage2
                    &&& syncer.stub == settled_stub(first_stub(pt, more[j]), more[j])
                    &&& syncer.local_entry@.location == more[j].location
                    &&& syncer.local_entry@.metadata == more[j].metadata
                    &&& must_hash(first_stub(pt, more[j])) ==> syncer.local_entry@.file_hash
                        == Some(more[j].settled_hash())
                } by {
                    if j < i {
                        assert(head[j] == more[j]);
                    }
                }
            }
        }
        proof {
            assert(all.subrange(0, all.len() as int) =~= all);
        }
        Ok(syncers)
    }

    /// The last stage for every file, in the order of the files. Returns the
    /// primary keys of the records that belong to the files.
    fn finish_all(
        table: &mut PhotoTable,
        syncers: Vec<LocalSyncer>,
        now: Timestamp,
        Ghost(files): Ghost<Seq<LocalPhotoView>>,
    ) -> (touched: HashSet<PID>)
        requires
            old(table).wf(),
            classified(old(table), files, syncers@),
            no_duplicates(files),
            old(table).next_pid() + fresh_before(old(table), files, files.len() as int)
                <= u32::MAX,
        ensures
            final(table).wf(),
            applied(old(table), files, now, files.len() as int, final(table)),
            touched@ == touched_by(old(table), files, files.len() as int),
            old(table).unsaved() ==> final(table).unsaved(),
            final(table).rows() != old(table).rows() ==> final(table).unsaved(),
            final(table).unsaved() && !old(table).unsaved() ==> exists|pid: PID|
                touched@.contains(pid) && final(table).rows().contains_key(pid) && !(old(
                    table,
                ).rows().contains_key(pid) && final(table).rows()[pid] == old(table).rows()[pid]),
    {
        let ghost before = *table;
        let mut touched: HashSet<PID> = HashSet::new();
        let ghost witness: Option<PID> = None;
        proof {
            assert(touched@ =~= touched_by(&before, files, 0));
            reveal(progress);
        }
        for syncer in it: syncers
            invariant
                table.wf(),
                progress(&before, files, now, it.index(), table, touched@, it.seq()),
                before.unsaved() ==> table.unsaved(),
                table.rows() != before.rows() ==> table.unsaved(),
                table.unsaved() && !before.unsaved() ==> witness is Some,
                witness matches Some(pid) ==> touched@.contains(pid) && table.rows().contains_key(
                    pid,
                ) && !(before.rows().contains_key(pid) && table.rows()[pid] == before.rows()[pid]),
        {
            let ghost k = it.index();
            let ghost cur = *table;
            let ghost was = touched@;
            proof {
                assert(syncer == it.seq()[k]);
                lemma_before_finish(&before, files, now, k, &cur, was, it.seq());
            }
            let done = syncer.finish_at(table, now);
            proof {
                lemma_after_finish(&before, files, now, k, &cur, table, was, it.seq(), done);
                let pid = done->Ok_0;
                if table.unsaved() && !cur.unsaved() {
                    witness = Some(pid);
                }
            }
            match done {
                Ok(pid) => {
                    touched.insert(pid);
                },
                Err(_) => {},
            }
        }
        proof {
            reveal(progress);
        }
        touched
    }

    /// How many of the files have no record.
    fn count_fresh(
        syncers: &Vec<LocalSyncer>,
        Ghost(table): Ghost<&PhotoTable>,
        Ghost(files): Ghost<Seq<LocalPhotoView>>,
    ) -> (count: usize)
        requires
            classified(table, files, syncers@),
        ensures
            count == fresh_before(table, files, files.len() as int),
    {
        let mut count: usize = 0;
        let mut i: usize = 0;
        while i < syncers.len()
            invariant
                i <= syncers.len(),
                classified(table, files, syncers@),
                count == fresh_before(table, files, i as int),
                count <= i,
            decreases syncers.len() - i,
        {
            proof {
                assert(syncers@[i as int].stub is None == first_stub(table, files[i as int])
                    is None);
            }
            if syncers[i].stub.is_none() {
                count += 1;
            }
            i += 1;
        }
        count
    }

    /// The end of a scan: every record that belongs to none of the files is
    /// marked missing where it is selected and leaves the table where it is
    /// not. A record that belongs to a file stays as it is.
    fn prune(table: &mut PhotoTable, touched: &HashSet<PID>, now: Timestamp)
        requires
            old(table).wf(),
        ensures
            final(table).wf(),
            pruned(old(table), touched@, now, final(table)),
            final(table).unsaved() == (old(table).unsaved() || final(table).rows() != old(
                table,
            ).rows()),
    {
        let ghost before = *table;
        let rule = |pid: PID, diff: PhotoRecordDiff| -> (verdict: (Option<PhotoRecordDiff>, bool))
            ensures
                verdict == prune_verdict(touched@, pid, diff),
            {
                if touched.contains(&pid) {
                    (None, true)
                } else {
                    let mut marked = diff;
                    marked.is_missing = true;
                    (Some(marked), *marked.selected.current())
                }
            };
        let mut access = TableAccessMut { table: &mut *table };
        access.retain_at(&rule, now);
        proof {
            let after = *table;
            assert(retained_all(rule, before.rows(), after.rows(), now));
            assert forall|pid: PID| #[trigger] before.rows().contains_key(pid) implies (if touched@.contains(
                pid,
            ) {
                after.rows().contains_key(pid) && after.rows()[pid] == before.rows()[pid]
            } else if before.rows()[pid].selected {
                after.rows().contains_key(pid) && after.rows()[pid] == missed_record(
                    before.rows()[pid],
                    now,
                )
            } else {
                !after.rows().contains_key(pid)
            }) by {
                let rec = before.rows()[pid];
                let (choice, keep) = choose|choice: Option<PhotoRecordDiff>, keep: bool|
                    {
                        &&& #[trigger] rule.ensures((pid, diff_of(rec)), (choice, keep))
                        &&& retained_as(rec, choice, keep, now, after.rows())
                    };
                assert((choice, keep) == prune_verdict(touched@, pid, diff_of(rec)));
                assert(rec.pid == pid);
            }
            if stirred(rule, before.rows(), now) {
                let (pid, choice, keep) = choose|
                    pid: PID,
                    choice: Option<PhotoRecordDiff>,
                    keep: bool,
                |
                    {
                        &&& before.rows().contains_key(pid)
                        &&& #[trigger] rule.ensures(
                            (pid, diff_of(before.rows()[pid])),
                            (choice, keep),
                        )
                        &&& verdict_stirs(pid, choice, keep, now)
                    };
                let rec = before.rows()[pid];
                assert(before.rows().contains_key(pid));
                assert(rec.pid == pid);
                assert((choice, keep) == prune_verdict(touched@, pid, diff_of(rec)));
                assert(!(after.rows().contains_key(pid) && after.rows()[pid] == rec));
            }
        }
    }

    /// Runs the scan at the time `now` on the files that were found below the
    /// mount points. Either every file is brought in step with the table and
    /// the records without a file are marked or dropped, or the table stays
    /// as it is and the error says what is wrong with the files.
    pub fn run_at(self, files: Vec<LocalPhoto>, now: Timestamp) -> (done: Result<(), SyncError>)
        requires
            self.pt.wf(),
            self.mpt.wf(),
        ensures
            final(self.pt).wf(),
            match done {
                Ok(()) => {
                    &&& scan_error(old(self.pt), self.mpt, views(files@)) is None
                    &&& scanned(old(self.pt), views(files@), now, final(self.pt))
                },
                Err(e) => {
                    &&& scan_error(old(self.pt), self.mpt, views(files@)) == Some(e)
                    &&& *final(self.pt) == *old(self.pt)
                },
            },
            final(self.pt).unsaved() == (old(self.pt).unsaved() || final(self.pt).rows() != old(
                self.pt,
            ).rows()),
    {
        let ghost all = views(files@);
        let ghost before = *self.pt;
        let syncers = match Scanner::classify(&*self.pt, self.mpt, files) {
            Ok(syncers) => syncers,
            Err(e) => {
                return Err(e);
            },
        };
        let fresh = Scanner::count_fresh(&syncers, Ghost(&before), Ghost(all));
        if fresh > (u32::MAX - self.pt.peek_pid()) as usize {
            return Err(SyncError::KeysExhausted);
        }
        proof {
            lemma_no_error_no_duplicates(&before, self.mpt, all, all.len() as int);
            assert(all.subrange(0, all.len() as int) =~= all);
        }
        let touched = Scanner::finish_all(self.pt, syncers, now, Ghost(all));
        let ghost mid = *self.pt;
        Scanner::prune(self.pt, &touched, now);
        proof {
            lemma_scanned(&before, all, now, &mid, self.pt, touched@);
            if mid.unsaved() && !before.unsaved() {
                let pid = choose|pid: PID|
                    touched@.contains(pid) && mid.rows().contains_key(pid) && !(
                    before.rows().contains_key(pid) && mid.rows()[pid] == before.rows()[pid]);
                assert(self.pt.rows().contains_key(pid) && self.pt.rows()[pid] == mid.rows()[pid]);
            }
        }
        Ok(())
    }

    /// Runs the scan at the time that the clock shows.
    pub fn run(self, files: Vec<LocalPhoto>) -> (done: Result<(), SyncError>)
        requires
            self.pt.wf(),
            self.mpt.wf(),
        ensures
            final(self.pt).wf(),
            match done {
                Ok(()) => {
                    &&& scan_error(old(self.pt), self.mpt, views(files@)) is None
                    &&& exists|now: Timestamp| #[trigger]
                        scanned(old(self.pt), views(files@), now, final(self.pt))
                },
                Err(e) => {
                    &&& scan_error(old(self.pt), self.mpt, views(files@)) == Some(e)
                    &&& *final(self.pt) == *old(self.pt)
                },
            },
            final(self.pt).unsaved() == (old(self.pt).unsaved() || final(self.pt).rows() != old(
                self.pt,
            ).rows()),
    {
        let now = current_time();
        self.run_at(files, now)
    }
}

/// What the rule of a scan says of a record. One that belongs to a file
/// stays as the last stage left it: no patch is committed on it, so that a
/// flag that was raised for its file in this scan is not cleared again. Any
/// other is marked missing and stays only if it is selected.
pub open spec fn prune_verdict(touched: Set<PID>, pid: PID, diff: PhotoRecordDiff) -> (
    Option<PhotoRecordDiff>,
    bool,
) {
    if touched.contains(pid) {
        (None, true)
    } else {
        (Some(PhotoRecordDiff { is_missing: true, ..diff }), diff.selected.now())
    }
}

/// What the end of a scan at the time `now` has made of the table `before`,
/// where `touched` are the records that belong to files.
pub open spec fn pruned(
    before: &PhotoTable,
    touched: Set<PID>,
    now: Timestamp,
    after: &PhotoTable,
) -> bool {
    &&& after.next_pid() == before.next_pid()
    &&& forall|pid: PID| #[trigger]
        before.rows().contains_key(pid) ==> (if touched.contains(pid) {
            after.rows().contains_key(pid) && after.rows()[pid] == before.rows()[pid]
        } else if before.rows()[pid].selected {
            after.rows().contains_key(pid) && after.rows()[pid] == missed_record(
                before.rows()[pid],
                now,
            )
        } else {
            !after.rows().contains_key(pid)
        })
    &&& forall|pid: PID| #[trigger]
        after.rows().contains_key(pid) ==> before.rows().contains_key(pid)
}

/// The last stage for all files and the pruning that follows make a scan.
proof fn lemma_scanned(
    before: &PhotoTable,
    files: Seq<LocalPhotoView>,
    now: Timestamp,
    mid: &PhotoTable,
    after: &PhotoTable,
    touched: Set<PID>,
)
    requires
        before.wf(),
        applied(before, files, now, files.len() as int, mid),
        touched == touched_by(before, files, files.len() as int),
        pruned(mid, touched, now, after),
    ensures
        scanned(before, files, now, after),
{
    let n = files.len() as int;
    lemma_stubs_sound(before, files);
    assert(files.subrange(0, n) =~= files);
    assert forall|i: int| 0 <= i < files.len() implies #[trigger] file_settled(
        before,
        files,
        now,
        after,
        i,
    ) by {
        lemma_fresh_grows(before, files, i + 1, n);
        assert(file_settled(before, files, now, mid, i));
        assert(stub_sound(before, files, i));
        match first_stub(before, files[i]) {
            Some(stub) => {
                assert(mid.rows().contains_key(stub.pid));
                assert(files[i].location == before.rows()[stub.pid].location);
                assert(located(files, before.rows()[stub.pid].location));
                assert(touched.contains(stub.pid));
            },
            None => {
                let pid = (before.next_pid() + fresh_before(before, files, i)) as PID;
                assert(mid.rows().contains_key(pid));
                assert(touched.contains(pid));
            },
        }
    }
    assert forall|pid: PID| #[trigger]
        before.rows().contains_key(pid) && !located(files, before.rows()[pid].location) implies (
    if before.rows()[pid].selected {
        after.rows().contains_key(pid) && after.rows()[pid] == missed_record(
            before.rows()[pid],
            now,
        )
    } else {
        !after.rows().contains_key(pid)
    }) by {
        assert(mid.rows().contains_key(pid));
        assert(!touched.contains(pid));
    }
    assert forall|pid: PID| #[trigger] after.rows().contains_key(pid) implies before.rows().contains_key(
        pid,
    ) || before.next_pid() <= pid < after.next_pid() by {
        assert(mid.rows().contains_key(pid));
        if !before.rows().contains_key(pid) {
            let i = choose|i: int| 0 <= i < n && #[trigger] fresh_at(before, files, i, pid);
            lemma_fresh_grows(before, files, i + 1, n);
        }
    }
}

/// What holds after the last stage of the first `k` files.
#[verifier::opaque]
pub open spec fn progress(
    before: &PhotoTable,
    files: Seq<LocalPhotoView>,
    now: Timestamp,
    k: int,
    cur: &PhotoTable,
    touched: Set<PID>,
    syncers: Seq<LocalSyncer>,
) -> bool {
    &&& before.wf()
    &&& 0 <= k <= files.len()
    &&& classified(before, files, syncers)
    &&& no_duplicates(files)
    &&& before.next_pid() + fresh_before(before, files, files.len() as int) <= u32::MAX
    &&& applied(before, files, now, k, cur)
    &&& touched == touched_by(before, files, k)
}

/// The table is ready for the last stage of the file at place `k`.
proof fn lemma_before_finish(
    before: &PhotoTable,
    files: Seq<LocalPhotoView>,
    now: Timestamp,
    k: int,
    cur: &PhotoTable,
    touched: Set<PID>,
    syncers: Seq<LocalSyncer>,
)
    requires
        cur.wf(),
        0 <= k < syncers.len(),
        progress(before, files, now, k, cur, touched, syncers),
    ensures
        k < files.len(),
        syncers[k].stage == Stage::Stage2,
        syncers[k].stub matches Some(s) ==> cur.rows().contains_key(s.pid) && (s.local_has_changed
            ==> syncers[k].local_entry@.file_hash is Some),
        syncers[k].stub is None ==> syncers[k].local_entry@.file_hash is Some,
{
    reveal(progress);
    lemma_ready(before, files, now, k, cur);
}

/// The last stage of the file at place `k` takes the scan one file further.
proof fn lemma_after_finish(
    before: &PhotoTable,
    files: Seq<LocalPhotoView>,
    now: Timestamp,
    k: int,
    cur: &PhotoTable,
    next: &PhotoTable,
    touched: Set<PID>,
    syncers: Seq<LocalSyncer>,
    done: Result<PID, SyncError>,
)
    requires
        cur.wf(),
        0 <= k < syncers.len(),
        progress(before, files, now, k, cur, touched, syncers),
        crate::db::photos::synchronizer::finished(
            cur,
            syncers[k].stub,
            syncers[k].local_entry@,
            now,
            next,
            done,
        ),
    ensures
        done is Ok,
        progress(before, files, now, k + 1, next, touched.insert(done->Ok_0), syncers),
        !touched.contains(done->Ok_0),
        forall|pid: PID|
            pid != done->Ok_0 && #[trigger] cur.rows().contains_key(pid) ==> next.rows()[pid]
                == cur.rows()[pid],
        forall|pid: PID|
            pid != done->Ok_0 && #[trigger] next.rows().contains_key(pid)
                ==> cur.rows().contains_key(pid),
        forall|pid: PID| #[trigger] before.rows().contains_key(pid) ==> cur.rows().contains_key(pid),
        next.rows() != cur.rows() ==> !(before.rows().contains_key(done->Ok_0)
            && next.rows()[done->Ok_0] == before.rows()[done->Ok_0]),
{
    reveal(progress);
    let file = files[k];
    lemma_ready(before, files, now, k, cur);
    lemma_stubs_sound(before, files);
    lemma_not_located(files, k);
    lemma_fresh_grows(before, files, k, k);
    assert(stub_sound(before, files, k));
    match first_stub(before, file) {
        Some(first) => {
            lemma_synced(before.rows()[first.pid], file, syncers[k].local_entry@, now);
            lemma_step_known(before, files, now, k, cur, next, first.pid);
            if next.rows()[first.pid] == before.rows()[first.pid] {
                assert(next.rows() =~= cur.rows());
            }
        },
        None => {
            lemma_step_fresh(before, files, now, k, cur, next, cur.next_pid());
        },
    }
}

/// Whether a location is among those of the first `k + 1` files comes down
/// to the first `k` files and the file at place `k`.
proof fn lemma_located_step(files: Seq<LocalPhotoView>, k: int, loc: FileLocationView)
    requires
        0 <= k < files.len(),
    ensures
        located(files.subrange(0, k + 1), loc) <==> located(files.subrange(0, k), loc) || loc
            == files[k].location,
{
    let head = files.subrange(0, k);
    let more = files.subrange(0, k + 1);
    if located(more, loc) {
        let j = choose|j: int| 0 <= j < more.len() && (#[trigger] more[j]).location == loc;
        if j < k {
            assert(head[j].location == loc);
        }
    }
    if located(head, loc) {
        let j = choose|j: int| 0 <= j < head.len() && (#[trigger] head[j]).location == loc;
        assert(more[j].location == loc);
    }
    if loc == files[k].location {
        assert(more[k].location == loc);
    }
}

/// Among files at different locations, none of the first `k` lies where the
/// file at place `k` lies.
proof fn lemma_not_located(files: Seq<LocalPhotoView>, k: int)
    requires
        0 <= k < files.len(),
        no_duplicates(files),
    ensures
        !located(files.subrange(0, k), files[k].location),
{
    let head = files.subrange(0, k);
    if located(head, files[k].location) {
        let j = choose|j: int|
            0 <= j < head.len() && (#[trigger] head[j]).location == files[k].location;
        assert(files[j].location == files[k].location);
    }
}

/// Whether the stub of the file at place `i` names the record at the
/// location of the file, and that record is the only one there.
pub open spec fn stub_sound(before: &PhotoTable, files: Seq<LocalPhotoView>, i: int) -> bool {
    match first_stub(before, files[i]) {
        Some(stub) => {
            &&& before.rows().contains_key(stub.pid)
            &&& before.rows()[stub.pid].location == files[i].location
            &&& stub == stub_of(before.rows()[stub.pid], files[i])
            &&& sole_owner(before, files[i].location, Some(stub.pid))
        },
        None => sole_owner(before, files[i].location, None),
    }
}

/// What the scan relies on in the table it starts from: the stub of every
/// file is sound, and every primary key was handed out by the counter.
pub open spec fn stubs_sound(before: &PhotoTable, files: Seq<LocalPhotoView>) -> bool {
    &&& forall|i: int| 0 <= i < files.len() ==> #[trigger] stub_sound(before, files, i)
    &&& forall|pid: PID| #[trigger] before.rows().contains_key(pid) ==> pid < before.next_pid()
}

/// Whether the record `owner`, if any, is the only one at a location.
pub open spec fn sole_owner(before: &PhotoTable, loc: FileLocationView, owner: Option<PID>) -> bool {
    forall|pid: PID| #[trigger]
        before.rows().contains_key(pid) && before.rows()[pid].location == loc ==> owner == Some(
            pid,
        )
}

/// A table that is in order gives sound stubs.
proof fn lemma_stubs_sound(before: &PhotoTable, files: Seq<LocalPhotoView>)
    requires
        before.wf(),
    ensures
        stubs_sound(before, files),
{
    assert forall|i: int| 0 <= i < files.len() implies #[trigger] stub_sound(before, files, i) by {
        let loc = files[i].location;
        if first_stub(before, files[i]) is Some {
            lemma_indexed_location(before.index_view(), before.rows(), loc);
        }
        assert forall|pid: PID| #[trigger]
            before.rows().contains_key(pid) && before.rows()[pid].location == loc implies (
        match first_stub(before, files[i]) {
            Some(stub) => Some(stub.pid),
            None => None,
        }) == Some(pid) by {
            lemma_indexed_record(before.index_view(), before.rows(), pid);
        }
    }
}

/// After the first `k` files every record of the table is at the location
/// where it was.
proof fn lemma_locations_kept(
    before: &PhotoTable,
    files: Seq<LocalPhotoView>,
    now: Timestamp,
    k: int,
    after: &PhotoTable,
)
    requires
        stubs_sound(before, files),
        0 <= k <= files.len(),
        applied(before, files, now, k, after),
    ensures
        forall|pid: PID| #[trigger]
            before.rows().contains_key(pid) ==> after.rows()[pid].location
                == before.rows()[pid].location,
{
    assert forall|pid: PID| #[trigger] before.rows().contains_key(pid) implies after.rows()[pid].location
        == before.rows()[pid].location by {
        let loc = before.rows()[pid].location;
        let head = files.subrange(0, k);
        if located(head, loc) {
            let i = choose|i: int| 0 <= i < head.len() && (#[trigger] head[i]).location == loc;
            assert(files[i].location == loc);
            assert(stub_sound(before, files, i));
            assert(file_settled(before, files, now, after, i));
        }
    }
}

/// Before the last stage of the file at place `k`, the table is ready for
/// it: the record of the file is as it was before the scan, and for a file
/// without a record the table has a key left and no record at its location.
proof fn lemma_ready(
    before: &PhotoTable,
    files: Seq<LocalPhotoView>,
    now: Timestamp,
    k: int,
    cur: &PhotoTable,
)
    requires
        before.wf(),
        cur.wf(),
        0 <= k < files.len(),
        no_duplicates(files),
        before.next_pid() + fresh_before(before, files, files.len() as int) <= u32::MAX,
        applied(before, files, now, k, cur),
    ensures
        match first_stub(before, files[k]) {
            Some(first) => {
                &&& before.rows().contains_key(first.pid)
                &&& before.rows()[first.pid].location == files[k].location
                &&& cur.rows().contains_key(first.pid)
                &&& cur.rows()[first.pid] == before.rows()[first.pid]
            },
            None => {
                &&& cur.next_pid() < u32::MAX
                &&& !cur.index_view().loc2pid.contains_key(files[k].location)
            },
        },
{
    let file = files[k];
    lemma_stubs_sound(before, files);
    lemma_not_located(files, k);
    lemma_fresh_grows(before, files, k + 1, files.len() as int);
    lemma_locations_kept(before, files, now, k, cur);
    assert(stub_sound(before, files, k));
    match first_stub(before, file) {
        Some(first) => {},
        None => {
            if cur.index_view().loc2pid.contains_key(file.location) {
                lemma_indexed_location(cur.index_view(), cur.rows(), file.location);
                let p = cur.index_view().loc2pid[file.location];
                if !before.rows().contains_key(p) {
                    let i = choose|i: int| 0 <= i < k && #[trigger] fresh_at(before, files, i, p);
                    assert(file_settled(before, files, now, cur, i));
                    assert(files[i].location == files[k].location);
                }
            }
        },
    }
}

/// The last stage of an existing file at place `k` takes the table from what
/// the first `k` files have made of it to what the first `k + 1` have made of
/// it.
proof fn lemma_step_known(
    before: &PhotoTable,
    files: Seq<LocalPhotoView>,
    now: Timestamp,
    k: int,
    cur: &PhotoTable,
    next: &PhotoTable,
    pid0: PID,
)
    requires
        0 <= k < files.len(),
        no_duplicates(files),
        stubs_sound(before, files),
        applied(before, files, now, k, cur),
        first_stub(before, files[k]) is Some,
        pid0 == first_stub(before, files[k])->0.pid,
        next.next_pid() == cur.next_pid(),
        next.rows() == cur.rows().insert(pid0, synced_record(before.rows()[pid0], files[k], now)),
    ensures
        applied(before, files, now, k + 1, next),
        touched_by(before, files, k + 1) == touched_by(before, files, k).insert(pid0),
{
    let file = files[k];
    assert(stub_sound(before, files, k));
    assert forall|loc: FileLocationView|
        located(files.subrange(0, k + 1), loc) <==> located(files.subrange(0, k), loc) || loc
            == file.location by {
        lemma_located_step(files, k, loc);
    }
    lemma_not_located(files, k);
    assert forall|i: int| 0 <= i < k + 1 implies #[trigger] file_settled(
        before,
        files,
        now,
        next,
        i,
    ) by {
        if i < k {
            assert(file_settled(before, files, now, cur, i));
            assert(stub_sound(before, files, i));
            lemma_fresh_grows(before, files, i + 1, k);
        }
    }
    assert forall|pid: PID| #[trigger] next.rows().contains_key(pid) implies before.rows().contains_key(
        pid,
    ) || (exists|i: int| 0 <= i < k + 1 && #[trigger] fresh_at(before, files, i, pid)) by {
        if !before.rows().contains_key(pid) {
            assert(cur.rows().contains_key(pid));
            let i = choose|i: int| 0 <= i < k && #[trigger] fresh_at(before, files, i, pid);
            assert(0 <= i < k + 1 && fresh_at(before, files, i, pid));
        }
    }
    assert forall|pid: PID| #[trigger] before.rows().contains_key(pid) implies next.rows().contains_key(
        pid,
    ) && (!located(files.subrange(0, k + 1), before.rows()[pid].location) ==> next.rows()[pid]
        == before.rows()[pid]) by {
        if pid != pid0 {
            assert(cur.rows().contains_key(pid));
        }
    }
    assert(touched_by(before, files, k).insert(pid0) =~= touched_by(before, files, k + 1));
}

/// The last stage of a new file at place `k` takes the table from what the
/// first `k` files have made of it to what the first `k + 1` have made of it.
proof fn lemma_step_fresh(
    before: &PhotoTable,
    files: Seq<LocalPhotoView>,
    now: Timestamp,
    k: int,
    cur: &PhotoTable,
    next: &PhotoTable,
    pid1: PID,
)
    requires
        0 <= k < files.len(),
        no_duplicates(files),
        stubs_sound(before, files),
        applied(before, files, now, k, cur),
        first_stub(before, files[k]) is None,
        pid1 == cur.next_pid(),
        next.next_pid() == cur.next_pid() + 1,
        next.rows() == cur.rows().insert(pid1, found_record(pid1, files[k])),
    ensures
        applied(before, files, now, k + 1, next),
        touched_by(before, files, k + 1) == touched_by(before, files, k).insert(pid1),
{
    let file = files[k];
    assert(stub_sound(before, files, k));
    lemma_fresh_grows(before, files, k, k);
    assert forall|loc: FileLocationView|
        located(files.subrange(0, k + 1), loc) <==> located(files.subrange(0, k), loc) || loc
            == file.location by {
        lemma_located_step(files, k, loc);
    }
    lemma_not_located(files, k);
    assert forall|i: int| 0 <= i < k + 1 implies #[trigger] file_settled(
        before,
        files,
        now,
        next,
        i,
    ) by {
        if i < k {
            assert(file_settled(before, files, now, cur, i));
            assert(stub_sound(before, files, i));
            lemma_fresh_grows(before, files, i + 1, k);
        }
    }
    assert forall|pid: PID| #[trigger] next.rows().contains_key(pid) implies before.rows().contains_key(
        pid,
    ) || (exists|i: int| 0 <= i < k + 1 && #[trigger] fresh_at(before, files, i, pid)) by {
        if !before.rows().contains_key(pid) {
            if pid == pid1 {
                assert(fresh_at(before, files, k, pid));
            } else {
                assert(cur.rows().contains_key(pid));
                let i = choose|i: int| 0 <= i < k && #[trigger] fresh_at(before, files, i, pid);
                assert(0 <= i < k + 1 && fresh_at(before, files, i, pid));
            }
        }
    }
    assert forall|pid: PID| #[trigger] before.rows().contains_key(pid) implies next.rows().contains_key(
        pid,
    ) && (!located(files.subrange(0, k + 1), before.rows()[pid].location) ==> next.rows()[pid]
        == before.rows()[pid]) by {
        assert(cur.rows().contains_key(pid));
        assert(pid != pid1);
    }
    assert(touched_by(before, files, k).insert(pid1) =~= touched_by(before, files, k + 1));
}

/// What the stub of a file after the second stage makes the last stage
/// commit is what the scan owes the record of the file.
proof fn lemma_synced(
    rec: PhotoRecordView,
    file: LocalPhotoView,
    entry: LocalPhotoView,
    now: Timestamp,
)
    requires
        entry.metadata == file.metadata,
        file.metadata.likely_changed_since(rec.metadata) ==> entry.file_hash == Some(
            file.settled_hash(),
        ),
    ensures
        committed_record(
            rec,
            sync_diff(rec, settled_stub(Some(stub_of(rec, file)), file)->0, entry),
            now,
        ) == synced_record(rec, file, now),
{
}

/// Every number below the count of new files is the count before one of
/// them.
proof fn lemma_fresh_onto(table: &PhotoTable, files: Seq<LocalPhotoView>, n: int, pid: PID)
    requires
        0 <= n <= files.len(),
        table.next_pid() <= pid < table.next_pid() + fresh_before(table, files, n),
    ensures
        exists|i: int| 0 <= i < n && #[trigger] fresh_at(table, files, i, pid),
    decreases n,
{
    if n > 0 {
        if pid < table.next_pid() + fresh_before(table, files, n - 1) {
            lemma_fresh_onto(table, files, n - 1, pid);
            let i = choose|i: int| 0 <= i < n - 1 && #[trigger] fresh_at(table, files, i, pid);
            assert(0 <= i < n && fresh_at(table, files, i, pid));
        } else {
            assert(fresh_at(table, files, n - 1, pid));
        }
    }
}

/// Where every file has a record, none is new.
proof fn lemma_none_fresh(table: &PhotoTable, files: Seq<LocalPhotoView>, n: int)
    requires
        0 <= n <= files.len(),
        forall|i: int| 0 <= i < files.len() ==> first_stub(table, #[trigger] files[i]) is Some,
    ensures
        fresh_before(table, files, n) == 0,
    decreases n,
{
    if n > 0 {
        lemma_none_fresh(table, files, n - 1);
    }
}

/// The record once its flag was cleared at the time `later`: committed, with
/// that time as its commit time.
pub open spec fn cleared(rec: PhotoRecordView, later: Timestamp) -> PhotoRecordView {
    PhotoRecordView { status: PhotoEntryStatus::Committed, commit_time: Some(later), ..rec }
}

/// What a second scan makes of a record that the first has left, where it
/// finds the file of the record as the first did: it clears a flag, and
/// leaves a record without a flag as it is.
pub open spec fn rescanned(rec: PhotoRecordView, found: bool, later: Timestamp) -> PhotoRecordView {
    if found && rec.status.flagged() {
        cleared(rec, later)
    } else {
        rec
    }
}

/// A file that was brought in step with its record does not differ from it
/// any more. A second scan that finds the same file clears the flag of the
/// record, if it carries one, and changes nothing else; a third changes
/// nothing at all.
pub proof fn lemma_synced_settled(
    rec: PhotoRecordView,
    file: LocalPhotoView,
    now: Timestamp,
    later: Timestamp,
    third: Timestamp,
)
    ensures
        !file_differs(synced_record(rec, file, now), file),
        synced_record(synced_record(rec, file, now), file, later) == rescanned(
            synced_record(rec, file, now),
            true,
            later,
        ),
        synced_record(rescanned(synced_record(rec, file, now), true, later), file, third)
            == rescanned(synced_record(rec, file, now), true, later),
        synced_record(rec, file, now).location == rec.location,
        synced_record(rec, file, now).pid == rec.pid,
{
}

/// A new record is in step with its file, and a second scan leaves it as it
/// is.
pub proof fn lemma_found_settled(pid: PID, file: LocalPhotoView, later: Timestamp)
    ensures
        synced_record(found_record(pid, file), file, later) == found_record(pid, file),
        found_record(pid, file).location == file.location,
{
}

/// A record that was marked missing is marked missing again by a second scan
/// without any change, and stays where it is and as selected as it was.
pub proof fn lemma_missed_settled(rec: PhotoRecordView, now: Timestamp, later: Timestamp)
    ensures
        missed_record(missed_record(rec, now), later) == missed_record(rec, now),
        missed_record(rec, now).location == rec.location,
        missed_record(rec, now).selected == rec.selected,
{
}

/// After a scan every file has the record that the scan owes it, at its
/// location, and a second scan finds that record for the file.
proof fn lemma_files_recorded(
    t0: &PhotoTable,
    files: Seq<LocalPhotoView>,
    now: Timestamp,
    t1: &PhotoTable,
    i: int,
) -> (pid: PID)
    requires
        t0.wf(),
        t1.wf(),
        scanned(t0, files, now, t1),
        0 <= i < files.len(),
    ensures
        t1.rows().contains_key(pid),
        t1.rows()[pid].location == files[i].location,
        first_stub(t1, files[i]) == Some(stub_of(t1.rows()[pid], files[i])),
        match first_stub(t0, files[i]) {
            Some(stub) => pid == stub.pid && t0.rows().contains_key(pid) && t1.rows()[pid]
                == synced_record(t0.rows()[pid], files[i], now),
            None => fresh_at(t0, files, i, pid) && !t0.rows().contains_key(pid) && t1.rows()[pid]
                == found_record(pid, files[i]),
        },
{
    lemma_stubs_sound(t0, files);
    lemma_fresh_grows(t0, files, i, files.len() as int);
    assert(stub_sound(t0, files, i));
    assert(file_settled(t0, files, now, t1, i));
    let pid = match first_stub(t0, files[i]) {
        Some(stub) => stub.pid,
        None => (t0.next_pid() + fresh_before(t0, files, i)) as PID,
    };
    lemma_indexed_record(t1.index_view(), t1.rows(), pid);
    if first_stub(t0, files[i]) is None && t0.rows().contains_key(pid) {
        assert(pid < t0.next_pid());
    }
    pid
}

/// A second scan keeps every record of the first, clears the flag of each
/// whose file it finds, and changes nothing else.
proof fn lemma_rescanned_record(
    t0: &PhotoTable,
    files: Seq<LocalPhotoView>,
    now: Timestamp,
    t1: &PhotoTable,
    later: Timestamp,
    t2: &PhotoTable,
    pid: PID,
)
    requires
        t0.wf(),
        t1.wf(),
        no_duplicates(files),
        scanned(t0, files, now, t1),
        scanned(t1, files, later, t2),
        t1.rows().contains_key(pid),
    ensures
        t2.rows().contains_key(pid),
        t2.rows()[pid] == rescanned(
            t1.rows()[pid],
            located(files, t1.rows()[pid].location),
            later,
        ),
{
    let n = files.len() as int;
    let rec = t1.rows()[pid];
    lemma_indexed_record(t1.index_view(), t1.rows(), pid);
    if located(files, rec.location) {
        let i = choose|i: int| 0 <= i < files.len() && (#[trigger] files[i]).location
            == rec.location;
        let q = lemma_files_recorded(t0, files, now, t1, i);
        lemma_indexed_record(t1.index_view(), t1.rows(), q);
        assert(q == pid);
        assert(file_settled(t1, files, later, t2, i));
        match first_stub(t0, files[i]) {
            Some(stub) => {
                lemma_synced_settled(t0.rows()[pid], files[i], now, later, later);
            },
            None => {
                lemma_found_settled(pid, files[i], later);
            },
        }
    } else {
        if t0.rows().contains_key(pid) {
            lemma_missed_settled(t0.rows()[pid], now, later);
            if located(files, t0.rows()[pid].location) {
                let i = choose|i: int| 0 <= i < files.len() && (#[trigger] files[i]).location
                    == t0.rows()[pid].location;
                let q = lemma_files_recorded(t0, files, now, t1, i);
                lemma_indexed_record(t0.index_view(), t0.rows(), pid);
                assert(q == pid);
                lemma_synced_settled(t0.rows()[pid], files[i], now, later, later);
                assert(false);
            }
        } else {
            lemma_fresh_onto(t0, files, n, pid);
            let i = choose|i: int| 0 <= i < n && #[trigger] fresh_at(t0, files, i, pid);
            let q = lemma_files_recorded(t0, files, now, t1, i);
            assert(q == pid);
            assert(files[i].location == rec.location);
            assert(false);
        }
    }
}

/// Whether no record that one of the files belongs to carries a flag.
pub open spec fn flags_clear(table: &PhotoTable, files: Seq<LocalPhotoView>) -> bool {
    forall|pid: PID| #[trigger]
        table.rows().contains_key(pid) && located(files, table.rows()[pid].location)
            ==> !table.rows()[pid].status.flagged()
}

/// What a second scan of the same files does. Where a scan of `files` has
/// made `t1` of `t0` without an error, and a scan of the same files, at the
/// time `later`, makes `t2` of `t1`, the table holds the same records under
/// the same keys afterwards, but for the flags of the records whose files
/// were found: these are cleared, with `later` as the commit time. The next
/// new record would get the same key.
pub proof fn lemma_rescan(
    t0: &PhotoTable,
    mounts: &MountPointTable,
    files: Seq<LocalPhotoView>,
    now: Timestamp,
    t1: &PhotoTable,
    later: Timestamp,
    t2: &PhotoTable,
)
    requires
        t0.wf(),
        t1.wf(),
        scan_error(t0, mounts, files) is None,
        scanned(t0, files, now, t1),
        scanned(t1, files, later, t2),
    ensures
        t2.rows().dom() == t1.rows().dom(),
        forall|pid: PID| #[trigger]
            t1.rows().contains_key(pid) ==> t2.rows()[pid] == rescanned(
                t1.rows()[pid],
                located(files, t1.rows()[pid].location),
                later,
            ),
        t2.next_pid() == t1.next_pid(),
        flags_clear(t2, files),
{
    let n = files.len() as int;
    lemma_no_error_no_duplicates(t0, mounts, files, n);
    assert(files.subrange(0, n) =~= files);
    assert forall|i: int| 0 <= i < files.len() implies first_stub(t1, #[trigger] files[i])
        is Some by {
        let pid = lemma_files_recorded(t0, files, now, t1, i);
    }
    lemma_none_fresh(t1, files, n);
    assert forall|pid: PID| #[trigger] t1.rows().contains_key(pid) implies t2.rows().contains_key(
        pid,
    ) && t2.rows()[pid] == rescanned(
        t1.rows()[pid],
        located(files, t1.rows()[pid].location),
        later,
    ) by {
        lemma_rescanned_record(t0, files, now, t1, later, t2, pid);
    }
    assert(t2.rows().dom() =~= t1.rows().dom());
}

/// A second scan that finds the same files changes nothing, where the first
/// has left no flag on a record whose file it found. Where a scan of `files`
/// has made `t1` of `t0` without an error, and a scan of the same files, at
/// whatever time, makes `t2` of `t1`, the table holds the same records under
/// the same keys afterwards, and the next new record would get the same key.
pub proof fn lemma_scan_idempotent(
    t0: &PhotoTable,
    mounts: &MountPointTable,
    files: Seq<LocalPhotoView>,
    now: Timestamp,
    t1: &PhotoTable,
    later: Timestamp,
    t2: &PhotoTable,
)
    requires
        t0.wf(),
        t1.wf(),
        scan_error(t0, mounts, files) is None,
        scanned(t0, files, now, t1),
        scanned(t1, files, later, t2),
        flags_clear(t1, files),
    ensures
        t2.rows() == t1.rows(),
        t2.next_pid() == t1.next_pid(),
{
    lemma_rescan(t0, mounts, files, now, t1, later, t2);
    assert(t2.rows() =~= t1.rows());
}

/// A flag that the first scan has left on a record whose file it found is
/// what keeps a second scan from changing nothing: the second scan clears
/// it.
pub proof fn lemma_rescan_clears(
    t0: &PhotoTable,
    mounts: &MountPointTable,
    files: Seq<LocalPhotoView>,
    now: Timestamp,
    t1: &PhotoTable,
    later: Timestamp,
    t2: &PhotoTable,
)
    requires
        t0.wf(),
        t1.wf(),
        scan_error(t0, mounts, files) is None,
        scanned(t0, files, now, t1),
        scanned(t1, files, later, t2),
        !flags_clear(t1, files),
    ensures
        t2.rows() != t1.rows(),
{
    lemma_rescan(t0, mounts, files, now, t1, later, t2);
    let pid = choose|pid: PID| #[trigger]
        t1.rows().contains_key(pid) && located(files, t1.rows()[pid].location)
            && t1.rows()[pid].status.flagged();
    assert(t1.rows().contains_key(pid));
    assert(t2.rows()[pid].status != t1.rows()[pid].status);
}

/// From the second scan on, a scan that finds the same files changes
/// nothing: where scans of `files` have made `t1` of `t0`, `t2` of `t1` and
/// `t3` of `t2`, the first of them without an error, the third leaves the
/// records, their keys and the next key as the second left them.
pub proof fn lemma_scan_settles(
    t0: &PhotoTable,
    mounts: &MountPointTable,
    files: Seq<LocalPhotoView>,
    now: Timestamp,
    t1: &PhotoTable,
    later: Timestamp,
    t2: &PhotoTable,
    third: Timestamp,
    t3: &PhotoTable,
)
    requires
        t0.wf(),
        t1.wf(),
        t2.wf(),
        scan_error(t0, mounts, files) is None,
        scanned(t0, files, now, t1),
        scanned(t1, files, later, t2),
        scanned(t2, files, third, t3),
    ensures
        t3.rows() == t2.rows(),
        t3.next_pid() == t2.next_pid(),
{
    let n = files.len() as int;
    lemma_no_error_no_duplicates(t0, mounts, files, n);
    assert(files.subrange(0, n) =~= files);
    lemma_rescan(t0, mounts, files, now, t1, later, t2);
    assert forall|i: int| 0 <= i < files.len() implies first_stub(t2, #[trigger] files[i])
        is Some by {
        let pid = lemma_files_recorded(t1, files, later, t2, i);
    }
    lemma_none_fresh(t2, files, n);
    assert forall|pid: PID| #[trigger] t2.rows().contains_key(pid) implies t3.rows().contains_key(
        pid,
    ) && t3.rows()[pid] == t2.rows()[pid] by {
        lemma_rescanned_record(t1, files, later, t2, third, t3, pid);
    }
    assert(t3.rows() =~= t2.rows());
}

/// A second scan that finds the same files leaves what is written as it
/// was, where the first has left no flag on a record whose file it found:
/// the table is saved as the same image, record for record, after the
/// second scan as after the first.
pub proof fn lemma_rescan_saved_alike(
    t0: &PhotoTable,
    mounts: &MountPointTable,
    files: Seq<LocalPhotoView>,
    now: Timestamp,
    t1: &PhotoTable,
    later: Timestamp,
    t2: &PhotoTable,
    first: &PhotoTableImage,
    second: &PhotoTableImage,
)
    requires
        t0.wf(),
        t1.wf(),
        scan_error(t0, mounts, files) is None,
        scanned(t0, files, now, t1),
        scanned(t1, files, later, t2),
        flags_clear(t1, files),
        t1.saved_as(first),
        t2.saved_as(second),
    ensures
        first.counter == second.counter,
        record_views(first.records@) == record_views(second.records@),
{
    lemma_scan_idempotent(t0, mounts, files, now, t1, later, t2);
    t1.lemma_saved_alike(first, t2, second);
}

/// Every record after a scan is accounted for: it is the old record of a
/// file that was found, brought in step with the file; or the old record of
/// a selected photo whose file was not found, marked missing; or the new
/// record of a file that had none.
pub proof fn lemma_scanned_row(
    before: &PhotoTable,
    mounts: &MountPointTable,
    files: Seq<LocalPhotoView>,
    now: Timestamp,
    after: &PhotoTable,
    pid: PID,
)
    requires
        before.wf(),
        after.wf(),
        scan_error(before, mounts, files) is None,
        scanned(before, files, now, after),
        after.rows().contains_key(pid),
    ensures
        if !before.rows().contains_key(pid) {
            exists|i: int|
                0 <= i < files.len() && #[trigger] fresh_at(before, files, i, pid)
                    && after.rows()[pid] == found_record(pid, files[i])
        } else if located(files, before.rows()[pid].location) {
            exists|i: int|
                0 <= i < files.len() && (#[trigger] files[i]).location
                    == before.rows()[pid].location && after.rows()[pid] == synced_record(
                    before.rows()[pid],
                    files[i],
                    now,
                )
        } else {
            before.rows()[pid].selected && after.rows()[pid] == missed_record(
                before.rows()[pid],
                now,
            )
        },
{
    let n = files.len() as int;
    if !before.rows().contains_key(pid) {
        lemma_fresh_onto(before, files, n, pid);
        let i = choose|i: int| 0 <= i < n && #[trigger] fresh_at(before, files, i, pid);
        let q = lemma_files_recorded(before, files, now, after, i);
        assert(q == pid);
    } else if located(files, before.rows()[pid].location) {
        let i = choose|i: int|
            0 <= i < files.len() && (#[trigger] files[i]).location
                == before.rows()[pid].location;
        let q = lemma_files_recorded(before, files, now, after, i);
        lemma_indexed_record(before.index_view(), before.rows(), pid);
        assert(q == pid);
    }
}

/// A scan keeps the commit times in step with the status: where every
/// record has a commit time exactly if it was vetted, every record has
/// afterwards.
pub proof fn lemma_scan_keeps_stamps(
    before: &PhotoTable,
    mounts: &MountPointTable,
    files: Seq<LocalPhotoView>,
    now: Timestamp,
    after: &PhotoTable,
)
    requires
        before.wf(),
        after.wf(),
        scan_error(before, mounts, files) is None,
        scanned(before, files, now, after),
        forall|pid: PID| #[trigger]
            before.rows().contains_key(pid) ==> before.rows()[pid].stamped(),
    ensures
        forall|pid: PID| #[trigger] after.rows().contains_key(pid) ==> after.rows()[pid].stamped(),
{
    assert forall|pid: PID| #[trigger] after.rows().contains_key(pid) implies after.rows()[pid].stamped() by {
        lemma_scanned_row(before, mounts, files, now, after, pid);
    }
}

/// Whether two lists hold the same files, in whatever order.
pub open spec fn same_files(a: Seq<LocalPhotoView>, b: Seq<LocalPhotoView>) -> bool {
    &&& forall|i: int| 0 <= i < a.len() ==> b.contains(#[trigger] a[i])
    &&& forall|j: int| 0 <= j < b.len() ==> a.contains(#[trigger] b[j])
}

/// The order in which the files are found does not matter to the records
/// that the table holds already: two scans of the same files, in whatever
/// order, keep the same of them and leave each as the other does.
pub proof fn lemma_order_free(
    before: &PhotoTable,
    mounts: &MountPointTable,
    files: Seq<LocalPhotoView>,
    other: Seq<LocalPhotoView>,
    now: Timestamp,
    a: &PhotoTable,
    b: &PhotoTable,
    pid: PID,
)
    requires
        before.wf(),
        a.wf(),
        b.wf(),
        same_files(files, other),
        scan_error(before, mounts, files) is None,
        scan_error(before, mounts, other) is None,
        scanned(before, files, now, a),
        scanned(before, other, now, b),
        before.rows().contains_key(pid),
    ensures
        a.rows().contains_key(pid) == b.rows().contains_key(pid),
        a.rows().contains_key(pid) ==> a.rows()[pid] == b.rows()[pid],
{
    let rec = before.rows()[pid];
    lemma_no_error_no_duplicates(before, mounts, files, files.len() as int);
    assert(files.subrange(0, files.len() as int) =~= files);
    lemma_indexed_record(before.index_view(), before.rows(), pid);
    if located(files, rec.location) {
        let i = choose|i: int| 0 <= i < files.len() && (#[trigger] files[i]).location
            == rec.location;
        assert(other.contains(files[i]));
        let j = choose|j: int| 0 <= j < other.len() && other[j] == files[i];
        let p = lemma_files_recorded(before, files, now, a, i);
        let q = lemma_files_recorded(before, other, now, b, j);
        assert(p == pid && q == pid);
    } else {
        if located(other, rec.location) {
            let j = choose|j: int| 0 <= j < other.len() && (#[trigger] other[j]).location
                == rec.location;
            assert(files.contains(other[j]));
            let i = choose|i: int| 0 <= i < files.len() && files[i] == other[j];
            assert(files[i].location == rec.location);
        }
    }
}

/// The locations of those of the first `n` files that have no record.
pub open spec fn fresh_places(table: &PhotoTable, files: Seq<LocalPhotoView>, n: int) -> Set<
    FileLocationView,
> {
    Set::new(
        |loc: FileLocationView|
            exists|i: int|
                0 <= i < n && (#[trigger] files[i]).location == loc && first_stub(table, files[i])
                    is None,
    )
}

/// Files at different locations that have no record are as many as their
/// locations.
pub proof fn lemma_fresh_places(table: &PhotoTable, files: Seq<LocalPhotoView>, n: int)
    requires
        0 <= n <= files.len(),
        no_duplicates(files),
    ensures
        fresh_places(table, files, n).finite(),
        fresh_places(table, files, n).len() == fresh_before(table, files, n),
    decreases n,
{
    if n <= 0 {
        assert(fresh_places(table, files, n) =~= Set::<FileLocationView>::empty());
    } else {
        lemma_fresh_places(table, files, n - 1);
        let fewer = fresh_places(table, files, n - 1);
        let last = files[n - 1];
        if first_stub(table, last) is None {
            assert(!fewer.contains(last.location));
            assert(fresh_places(table, files, n) =~= fewer.insert(last.location)) by {
                assert forall|loc: FileLocationView|
                    fewer.insert(last.location).contains(loc) implies fresh_places(
                    table,
                    files,
                    n,
                ).contains(loc) by {
                    if loc == last.location {
                        assert(files[n - 1].location == loc);
                    } else {
                        let i = choose|i: int|
                            0 <= i < n - 1 && (#[trigger] files[i]).location == loc
                                && first_stub(table, files[i]) is None;
                        assert(0 <= i < n && files[i].location == loc);
                    }
                }
            }
        } else {
            assert(fresh_places(table, files, n) =~= fewer) by {
                assert forall|loc: FileLocationView| fewer.contains(loc) implies fresh_places(
                    table,
                    files,
                    n,
                ).contains(loc) by {
                    let i = choose|i: int|
                        0 <= i < n - 1 && (#[trigger] files[i]).location == loc && first_stub(
                            table,
                            files[i],
                        ) is None;
                    assert(0 <= i < n && files[i].location == loc);
                }
            }
        }
    }
}

/// The order in which the files are found does not matter to the number
/// of new records: two scans of the same files, in whatever order, leave
/// the same primary key for the next new record.
pub proof fn lemma_order_free_keys(
    before: &PhotoTable,
    mounts: &MountPointTable,
    files: Seq<LocalPhotoView>,
    other: Seq<LocalPhotoView>,
    now: Timestamp,
    a: &PhotoTable,
    b: &PhotoTable,
)
    requires
        same_files(files, other),
        scan_error(before, mounts, files) is None,
        scan_error(before, mounts, other) is None,
        scanned(before, files, now, a),
        scanned(before, other, now, b),
    ensures
        a.next_pid() == b.next_pid(),
{
    let n = files.len() as int;
    let m = other.len() as int;
    lemma_no_error_no_duplicates(before, mounts, files, n);
    lemma_no_error_no_duplicates(before, mounts, other, m);
    assert(files.subrange(0, n) =~= files);
    assert(other.subrange(0, m) =~= other);
    lemma_fresh_places(before, files, n);
    lemma_fresh_places(before, other, m);
    assert(fresh_places(before, files, n) =~= fresh_places(before, other, m)) by {
        assert forall|loc: FileLocationView|
            fresh_places(before, files, n).contains(loc) implies fresh_places(
            before,
            other,
            m,
        ).contains(loc) by {
            let i = choose|i: int|
                0 <= i < n && (#[trigger] files[i]).location == loc && first_stub(
                    before,
                    files[i],
                ) is None;
            assert(other.contains(files[i]));
            let j = choose|j: int| 0 <= j < m && other[j] == files[i];
            assert(other[j].location == loc);
        }
        assert forall|loc: FileLocationView|
            fresh_places(before, other, m).contains(loc) implies fresh_places(
            before,
            files,
            n,
        ).contains(loc) by {
            let j = choose|j: int|
                0 <= j < m && (#[trigger] other[j]).location == loc && first_stub(
                    before,
                    other[j],
                ) is None;
            assert(files.contains(other[j]));
            let i = choose|i: int| 0 <= i < n && files[i] == other[j];
            assert(files[i].location == loc);
        }
    }
}

/// What a scan makes of a record whose file was not found: a selected record
/// stays, at its place and with its content, and only its status takes the
/// step to missing, which a record that was never vetted does not take; a
/// record that is not selected is gone.
pub proof fn lemma_missing_pruned(
    before: &PhotoTable,
    files: Seq<LocalPhotoView>,
    now: Timestamp,
    after: &PhotoTable,
    pid: PID,
)
    requires
        scanned(before, files, now, after),
        before.rows().contains_key(pid),
        !located(files, before.rows()[pid].location),
    ensures
        after.rows().contains_key(pid) == before.rows()[pid].selected,
        before.rows()[pid].selected ==> after.rows()[pid] == (PhotoRecordView {
            status: status_after_drift(before.rows()[pid].status, Drift::Missing),
            ..before.rows()[pid]
        }),
{
}

/// What a scan makes of a record whose file was found with the content hash
/// that the record holds, whatever the metadata of the file say: hash,
/// metadata, selection and place stay as they are; a record without a flag
/// stays as it is altogether, and a flag is cleared, with the time of the
/// scan as the commit time.
pub proof fn lemma_same_content_untouched(
    before: &PhotoTable,
    files: Seq<LocalPhotoView>,
    now: Timestamp,
    after: &PhotoTable,
    i: int,
)
    requires
        before.wf(),
        scanned(before, files, now, after),
        0 <= i < files.len(),
        first_stub(before, files[i]) is Some,
        files[i].settled_hash() == first_stub(before, files[i])->0.file_hash,
    ensures
        after.rows().contains_key(first_stub(before, files[i])->0.pid),
        after.rows()[first_stub(before, files[i])->0.pid] == rescanned(
            before.rows()[first_stub(before, files[i])->0.pid],
            true,
            now,
        ),
{
    lemma_stubs_sound(before, files);
    assert(stub_sound(before, files, i));
    assert(file_settled(before, files, now, after, i));
}

} // verus!
