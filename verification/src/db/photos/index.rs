//! The index of the photo table: the record of each location, the selected
//! records, the records of each status and the selected records of each
//! mount point.
use super::misc::{PhotoEntryStatus, PID};
use super::records::{PhotoRecord, PhotoRecordView};
use crate::db::helpers::index::TableIndex;
use crate::db::helpers::table::TableRecord;
use crate::db::locations::FileLocationView;
use crate::db::mounts::records::MountId;
use crate::util::bytes::copy_bytes;
use crate::util::keyed::KeyedMap;
use std::collections::HashMap;
use std::collections::HashSet;
use vstd::prelude::*;

verus! {

broadcast use vstd::std_specs::hash::group_hash_axioms;

/// What the index of the photo table holds.
pub struct PhotoTableIndexView {
    pub loc2pid: Map<FileLocationView, PID>,
    pub selected: Set<PID>,
    pub committed: Set<PID>,
    pub missing: Set<PID>,
    pub modified: Set<PID>,
    pub uncommitted: Set<PID>,
    pub mount_selected: Map<MountId, Set<PID>>,
}

impl PhotoTableIndexView {
    /// The records of one status.
    pub open spec fn with_status(self, status: PhotoEntryStatus) -> Set<PID> {
        match status {
            PhotoEntryStatus::Committed => self.committed,
            PhotoEntryStatus::CommittedButMissing => self.missing,
            PhotoEntryStatus::CommittedButModified => self.modified,
            PhotoEntryStatus::Uncommitted => self.uncommitted,
        }
    }

    /// The selected records of one mount point.
    pub open spec fn selected_in(self, mpid: MountId) -> Set<PID> {
        if self.mount_selected.contains_key(mpid) {
            self.mount_selected[mpid]
        } else {
            Set::empty()
        }
    }

    /// The index after the record `pid` of mount point `mpid` was entered
    /// into the selection, or taken out of it.
    pub open spec fn curated(self, pid: PID, mpid: MountId, target: bool) -> Self {
        if target {
            PhotoTableIndexView {
                selected: self.selected.insert(pid),
                mount_selected: self.mount_selected.insert(
                    mpid,
                    self.selected_in(mpid).insert(pid),
                ),
                ..self
            }
        } else {
            PhotoTableIndexView {
                selected: self.selected.remove(pid),
                mount_selected: self.mount_selected.insert(
                    mpid,
                    self.selected_in(mpid).remove(pid),
                ),
                ..self
            }
        }
    }

    /// The index with another set of records for one status.
    pub open spec fn set_status(self, status: PhotoEntryStatus, pids: Set<PID>) -> Self {
        match status {
            PhotoEntryStatus::Committed => PhotoTableIndexView { committed: pids, ..self },
            PhotoEntryStatus::CommittedButMissing => PhotoTableIndexView { missing: pids, ..self },
            PhotoEntryStatus::CommittedButModified => PhotoTableIndexView {
                modified: pids,
                ..self
            },
            PhotoEntryStatus::Uncommitted => PhotoTableIndexView { uncommitted: pids, ..self },
        }
    }

    /// The index after the record `pid` went from one status to another.
    pub open spec fn moved(self, pid: PID, from: PhotoEntryStatus, to: PhotoEntryStatus) -> Self {
        let out = self.set_status(from, self.with_status(from).remove(pid));
        out.set_status(to, out.with_status(to).insert(pid))
    }

    /// The index after a record joined the table.
    pub open spec fn built_for(self, rec: PhotoRecordView) -> Self {
        let located = PhotoTableIndexView {
            loc2pid: self.loc2pid.insert(rec.location, rec.pid),
            ..self
        };
        let curated = located.curated(rec.pid, rec.location.0, rec.selected);
        curated.set_status(rec.status, curated.with_status(rec.status).insert(rec.pid))
    }

    /// The index after a record left the table.
    pub open spec fn dropped_for(self, rec: PhotoRecordView) -> Self {
        let located = PhotoTableIndexView { loc2pid: self.loc2pid.remove(rec.location), ..self };
        let curated = located.curated(rec.pid, rec.location.0, false);
        curated.set_status(rec.status, curated.with_status(rec.status).remove(rec.pid))
    }
}

/// Whether an index content is what the rows call for: every lookup
/// structure holds exactly the primary keys of the records that belong in
/// it.
#[verifier::opaque]
pub open spec fn index_matches(index: PhotoTableIndexView, rows: Map<PID, PhotoRecordView>) -> bool {
    &&& forall|loc: FileLocationView| #[trigger]
        index.loc2pid.contains_key(loc) ==> rows.contains_key(index.loc2pid[loc])
            && rows[index.loc2pid[loc]].location == loc
    &&& forall|pid: PID| #[trigger]
        rows.contains_key(pid) ==> index.loc2pid.contains_key(rows[pid].location)
            && index.loc2pid[rows[pid].location] == pid
    &&& forall|pid: PID|
        index.selected.contains(pid) <==> rows.contains_key(pid) && rows[pid].selected
    &&& forall|pid: PID, status: PhotoEntryStatus|
        index.with_status(status).contains(pid) <==> rows.contains_key(pid) && rows[pid].status
            == status
    &&& forall|pid: PID, mpid: MountId|
        index.selected_in(mpid).contains(pid) <==> rows.contains_key(pid) && rows[pid].selected
            && rows[pid].location.0 == mpid
}

/// Two indices that match the same rows hold the same: the same record for
/// every location, the same selection, and the same records for every status
/// and every mount point.
pub proof fn lemma_index_determined(
    a: PhotoTableIndexView,
    b: PhotoTableIndexView,
    rows: Map<PID, PhotoRecordView>,
)
    requires
        index_matches(a, rows),
        index_matches(b, rows),
    ensures
        a.loc2pid == b.loc2pid,
        a.selected == b.selected,
        forall|status: PhotoEntryStatus| a.with_status(status) == b.with_status(status),
        forall|mpid: MountId| a.selected_in(mpid) == b.selected_in(mpid),
{
    reveal(index_matches);
    assert forall|loc: FileLocationView| a.loc2pid.contains_key(loc) == b.loc2pid.contains_key(
        loc,
    ) by {
        if a.loc2pid.contains_key(loc) {
            assert(rows.contains_key(a.loc2pid[loc]));
        }
        if b.loc2pid.contains_key(loc) {
            assert(rows.contains_key(b.loc2pid[loc]));
        }
    }
    assert forall|loc: FileLocationView| a.loc2pid.contains_key(loc) implies a.loc2pid[loc]
        == b.loc2pid[loc] by {
        assert(rows.contains_key(a.loc2pid[loc]));
    }
    assert(a.loc2pid =~= b.loc2pid);
    assert(a.selected =~= b.selected);
    assert forall|status: PhotoEntryStatus| a.with_status(status) == b.with_status(status) by {
        assert(a.with_status(status) =~= b.with_status(status));
    }
    assert forall|mpid: MountId| a.selected_in(mpid) == b.selected_in(mpid) by {
        assert(a.selected_in(mpid) =~= b.selected_in(mpid));
    }
}

/// Entering a record whose key and location are new keeps the index in step
/// with the rows.
pub proof fn lemma_built_matches(
    index: PhotoTableIndexView,
    rows: Map<PID, PhotoRecordView>,
    rec: PhotoRecordView,
)
    requires
        index_matches(index, rows),
        !rows.contains_key(rec.pid),
        !index.loc2pid.contains_key(rec.location),
    ensures
        index_matches(index.built_for(rec), rows.insert(rec.pid, rec)),
{
    reveal(index_matches);
    let next = index.built_for(rec);
    let grown = rows.insert(rec.pid, rec);
    assert forall|loc: FileLocationView| #[trigger] next.loc2pid.contains_key(loc) implies grown.contains_key(
        next.loc2pid[loc],
    ) && grown[next.loc2pid[loc]].location == loc by {
        if loc != rec.location {
            assert(index.loc2pid.contains_key(loc));
        }
    }
    assert forall|pid: PID| #[trigger] grown.contains_key(pid) implies next.loc2pid.contains_key(
        grown[pid].location,
    ) && next.loc2pid[grown[pid].location] == pid by {
        if pid != rec.pid {
            assert(rows.contains_key(pid));
        }
    }
    assert forall|pid: PID, status: PhotoEntryStatus|
        next.with_status(status).contains(pid) <==> grown.contains_key(pid) && grown[pid].status
            == status by {
        assert(index.with_status(status).contains(pid) <==> rows.contains_key(pid)
            && rows[pid].status == status);
    }
    assert forall|pid: PID, mpid: MountId|
        next.selected_in(mpid).contains(pid) <==> grown.contains_key(pid) && grown[pid].selected
            && grown[pid].location.0 == mpid by {
        assert(index.selected_in(mpid).contains(pid) <==> rows.contains_key(pid)
            && rows[pid].selected && rows[pid].location.0 == mpid);
    }
}

/// Taking a record out keeps the index in step with the rows.
pub proof fn lemma_dropped_matches(
    index: PhotoTableIndexView,
    rows: Map<PID, PhotoRecordView>,
    rec: PhotoRecordView,
)
    requires
        index_matches(index, rows),
        rows.contains_key(rec.pid),
        rows[rec.pid] == rec,
    ensures
        index_matches(index.dropped_for(rec), rows.remove(rec.pid)),
{
    reveal(index_matches);
    let next = index.dropped_for(rec);
    let less = rows.remove(rec.pid);
    assert forall|loc: FileLocationView| #[trigger] next.loc2pid.contains_key(loc) implies less.contains_key(
        next.loc2pid[loc],
    ) && less[next.loc2pid[loc]].location == loc by {
        assert(index.loc2pid.contains_key(loc));
    }
    assert forall|pid: PID| #[trigger] less.contains_key(pid) implies next.loc2pid.contains_key(
        less[pid].location,
    ) && next.loc2pid[less[pid].location] == pid by {
        assert(rows.contains_key(pid));
    }
    assert forall|pid: PID, status: PhotoEntryStatus|
        next.with_status(status).contains(pid) <==> less.contains_key(pid) && less[pid].status
            == status by {
        assert(index.with_status(status).contains(pid) <==> rows.contains_key(pid)
            && rows[pid].status == status);
    }
    assert forall|pid: PID, mpid: MountId|
        next.selected_in(mpid).contains(pid) <==> less.contains_key(pid) && less[pid].selected
            && less[pid].location.0 == mpid by {
        assert(index.selected_in(mpid).contains(pid) <==> rows.contains_key(pid)
            && rows[pid].selected && rows[pid].location.0 == mpid);
    }
}

/// Replacing a record by one with the same key and location keeps the index
/// in step with the rows, once the selection and the status sets have
/// followed the record.
pub proof fn lemma_patched_matches(
    index: PhotoTableIndexView,
    rows: Map<PID, PhotoRecordView>,
    rec: PhotoRecordView,
)
    requires
        index_matches(index, rows),
        rows.contains_key(rec.pid),
        rows[rec.pid].location == rec.location,
    ensures
        index_matches(
            index.curated(rec.pid, rec.location.0, rec.selected).moved(
                rec.pid,
                rows[rec.pid].status,
                rec.status,
            ),
            rows.insert(rec.pid, rec),
        ),
{
    reveal(index_matches);
    let next = index.curated(rec.pid, rec.location.0, rec.selected).moved(
        rec.pid,
        rows[rec.pid].status,
        rec.status,
    );
    let changed = rows.insert(rec.pid, rec);
    assert forall|loc: FileLocationView| #[trigger] next.loc2pid.contains_key(loc) implies changed.contains_key(
        next.loc2pid[loc],
    ) && changed[next.loc2pid[loc]].location == loc by {
        assert(index.loc2pid.contains_key(loc));
    }
    assert forall|pid: PID| #[trigger] changed.contains_key(pid) implies next.loc2pid.contains_key(
        changed[pid].location,
    ) && next.loc2pid[changed[pid].location] == pid by {
        assert(rows.contains_key(pid));
    }
    assert forall|pid: PID, status: PhotoEntryStatus|
        next.with_status(status).contains(pid) <==> changed.contains_key(pid)
            && changed[pid].status == status by {
        assert(index.with_status(status).contains(pid) <==> rows.contains_key(pid)
            && rows[pid].status == status);
    }
    assert forall|pid: PID, mpid: MountId|
        next.selected_in(mpid).contains(pid) <==> changed.contains_key(pid)
            && changed[pid].selected && changed[pid].location.0 == mpid by {
        assert(index.selected_in(mpid).contains(pid) <==> rows.contains_key(pid)
            && rows[pid].selected && rows[pid].location.0 == mpid);
    }
}

/// What the index says of a location that it knows: the record that it
/// names is in the table and lies there.
pub proof fn lemma_indexed_location(
    index: PhotoTableIndexView,
    rows: Map<PID, PhotoRecordView>,
    loc: FileLocationView,
)
    requires
        index_matches(index, rows),
        index.loc2pid.contains_key(loc),
    ensures
        rows.contains_key(index.loc2pid[loc]),
        rows[index.loc2pid[loc]].location == loc,
{
    reveal(index_matches);
}

/// What the index says of a record of the table: it is the record that the
/// index names for its location, it is in the selection exactly if it is
/// selected, in the set of its status and of no other, and in the selection
/// of its mount point exactly if it is selected.
pub proof fn lemma_indexed_record(
    index: PhotoTableIndexView,
    rows: Map<PID, PhotoRecordView>,
    pid: PID,
)
    requires
        index_matches(index, rows),
        rows.contains_key(pid),
    ensures
        index.loc2pid.contains_key(rows[pid].location),
        index.loc2pid[rows[pid].location] == pid,
        index.selected.contains(pid) == rows[pid].selected,
        forall|status: PhotoEntryStatus|
            index.with_status(status).contains(pid) == (rows[pid].status == status),
        forall|mpid: MountId|
            index.selected_in(mpid).contains(pid) == (rows[pid].selected && rows[pid].location.0
                == mpid),
{
    reveal(index_matches);
}

/// Every lookup structure of a matching index holds exactly the primary keys
/// of the records that belong in it.
pub proof fn lemma_index_consistent(index: PhotoTableIndexView, rows: Map<PID, PhotoRecordView>)
    requires
        index_matches(index, rows),
    ensures
        index.loc2pid.dom() == Set::new(
            |loc: FileLocationView|
                exists|pid: PID| #[trigger] rows.contains_key(pid) && rows[pid].location == loc,
        ),
        index.selected == Set::new(|pid: PID| rows.contains_key(pid) && rows[pid].selected),
        forall|status: PhotoEntryStatus| #[trigger]
            index.with_status(status) == Set::new(
                |pid: PID| rows.contains_key(pid) && rows[pid].status == status,
            ),
        forall|mpid: MountId| #[trigger]
            index.selected_in(mpid) == Set::new(
                |pid: PID|
                    rows.contains_key(pid) && rows[pid].selected && rows[pid].location.0 == mpid,
            ),
{
    reveal(index_matches);
    assert(index.loc2pid.dom() =~= Set::new(
        |loc: FileLocationView|
            exists|pid: PID| #[trigger] rows.contains_key(pid) && rows[pid].location == loc,
    )) by {
        assert forall|loc: FileLocationView| index.loc2pid.contains_key(loc) implies exists|
            pid: PID,
        | #[trigger] rows.contains_key(pid) && rows[pid].location == loc by {
            assert(rows.contains_key(index.loc2pid[loc]));
        }
    }
    assert(index.selected =~= Set::new(|pid: PID| rows.contains_key(pid) && rows[pid].selected));
    assert forall|status: PhotoEntryStatus| #[trigger]
        index.with_status(status) == Set::new(
            |pid: PID| rows.contains_key(pid) && rows[pid].status == status,
        ) by {
        assert(index.with_status(status) =~= Set::new(
            |pid: PID| rows.contains_key(pid) && rows[pid].status == status,
        ));
    }
    assert forall|mpid: MountId| #[trigger]
        index.selected_in(mpid) == Set::new(
            |pid: PID| rows.contains_key(pid) && rows[pid].selected && rows[pid].location.0 == mpid,
        ) by {
        assert(index.selected_in(mpid) =~= Set::new(
            |pid: PID| rows.contains_key(pid) && rows[pid].selected && rows[pid].location.0 == mpid,
        ));
    }
}

/// Whether two index contents answer every lookup alike.
pub open spec fn same_lookups(a: PhotoTableIndexView, b: PhotoTableIndexView) -> bool {
    &&& a.loc2pid == b.loc2pid
    &&& a.selected == b.selected
    &&& forall|status: PhotoEntryStatus| a.with_status(status) == b.with_status(status)
    &&& forall|mpid: MountId| a.selected_in(mpid) == b.selected_in(mpid)
}

/// An index that answers every lookup as a matching index does matches too.
pub proof fn lemma_same_lookups_match(
    a: PhotoTableIndexView,
    b: PhotoTableIndexView,
    rows: Map<PID, PhotoRecordView>,
)
    requires
        index_matches(a, rows),
        same_lookups(a, b),
    ensures
        index_matches(b, rows),
{
    reveal(index_matches);
    assert forall|pid: PID, status: PhotoEntryStatus|
        b.with_status(status).contains(pid) <==> rows.contains_key(pid) && rows[pid].status
            == status by {
        assert(a.with_status(status) == b.with_status(status));
    }
    assert forall|pid: PID, mpid: MountId|
        b.selected_in(mpid).contains(pid) <==> rows.contains_key(pid) && rows[pid].selected
            && rows[pid].location.0 == mpid by {
        assert(a.selected_in(mpid) == b.selected_in(mpid));
    }
}

/// Entering a record into the selection that it is in already, or taking out
/// one that is not in it, changes no lookup.
pub proof fn lemma_curated_settled(
    index: PhotoTableIndexView,
    rows: Map<PID, PhotoRecordView>,
    pid: PID,
)
    requires
        index_matches(index, rows),
        rows.contains_key(pid),
    ensures
        same_lookups(index.curated(pid, rows[pid].location.0, rows[pid].selected), index),
{
    reveal(index_matches);
    let mpid = rows[pid].location.0;
    let next = index.curated(pid, mpid, rows[pid].selected);
    assert(next.selected =~= index.selected);
    assert forall|m: MountId| next.selected_in(m) == index.selected_in(m) by {
        assert(index.selected_in(mpid).contains(pid) <==> rows.contains_key(pid)
            && rows[pid].selected && rows[pid].location.0 == mpid);
        assert(next.selected_in(m) =~= index.selected_in(m));
    }
    assert forall|status: PhotoEntryStatus| next.with_status(status) == index.with_status(
        status,
    ) by {}
}

/// The lookup structures of the photo table.
pub struct PhotoTableIndex {
    pub(super) loc2pid: KeyedMap<PID>,
    selected_pids: HashSet<PID>,
    committed: HashSet<PID>,
    missing: HashSet<PID>,
    modified: HashSet<PID>,
    uncommitted: HashSet<PID>,
    mpid2selected_pids: HashMap<MountId, HashSet<PID>>,
}

impl View for PhotoTableIndex {
    type V = PhotoTableIndexView;

    closed spec fn view(&self) -> PhotoTableIndexView {
        PhotoTableIndexView {
            loc2pid: self.loc2pid@,
            selected: self.selected_pids@,
            committed: self.committed@,
            missing: self.missing@,
            modified: self.modified@,
            uncommitted: self.uncommitted@,
            mount_selected: self.mpid2selected_pids@.map_values(|pids: HashSet<PID>| pids@),
        }
    }
}

impl PhotoTableIndex {
    /// The locations are stored in order.
    pub closed spec fn inv(&self) -> bool {
        self.loc2pid.wf()
    }

    /// An index of no records.
    pub fn new() -> (index: Self)
        ensures
            index.inv(),
            index_matches(index@, Map::<PID, PhotoRecordView>::empty()),
    {
        let index = PhotoTableIndex {
            loc2pid: KeyedMap::new(),
            selected_pids: HashSet::new(),
            committed: HashSet::new(),
            missing: HashSet::new(),
            modified: HashSet::new(),
            uncommitted: HashSet::new(),
            mpid2selected_pids: HashMap::new(),
        };
        proof {
            reveal(index_matches);
            assert(index@.mount_selected =~= Map::<MountId, Set<PID>>::empty());
        }
        index
    }

    /// The record at a location.
    pub fn pid_of(&self, mpid: MountId, filename: &[u8]) -> (pid: Option<PID>)
        requires
            self.inv(),
        ensures
            pid is Some == self@.loc2pid.contains_key((mpid, filename@)),
            pid matches Some(p) ==> p == self@.loc2pid[(mpid, filename@)],
    {
        match self.loc2pid.get(mpid, filename) {
            Some(pid) => Some(*pid),
            None => None,
        }
    }

    /// Enters a record into the selection, or takes it out.
    pub(super) fn curate_selected(&mut self, rec: &PhotoRecord, target: bool)
        requires
            old(self).inv(),
        ensures
            final(self).inv(),
            final(self)@ == old(self)@.curated(rec.pid, rec.location.mpid, target),
    {
        let pid = rec.pid;
        let mpid = rec.location.mpid;
        let mut of_mount = match self.mpid2selected_pids.remove(&mpid) {
            Some(pids) => pids,
            None => HashSet::new(),
        };
        if target {
            self.selected_pids.insert(pid);
            of_mount.insert(pid);
        } else {
            self.selected_pids.remove(&pid);
            of_mount.remove(&pid);
        }
        self.mpid2selected_pids.insert(mpid, of_mount);
        proof {
            assert(self@.mount_selected =~= old(self)@.curated(pid, mpid, target).mount_selected);
        }
    }

    /// The hook for a record that joins the table.
    pub(super) fn build_for(&mut self, rec: &PhotoRecord)
        requires
            old(self).inv(),
        ensures
            final(self).inv(),
            final(self)@ == old(self)@.built_for(rec@),
    {
        let pid = rec.pid;
        self.loc2pid.insert(rec.location.mpid, copy_bytes(rec.location.filename.as_slice()), pid);
        self.curate_selected(rec, rec.selected);
        match rec.status {
            PhotoEntryStatus::Committed => {
                self.committed.insert(pid);
            },
            PhotoEntryStatus::CommittedButMissing => {
                self.missing.insert(pid);
            },
            PhotoEntryStatus::CommittedButModified => {
                self.modified.insert(pid);
            },
            PhotoEntryStatus::Uncommitted => {
                self.uncommitted.insert(pid);
            },
        }
    }

    /// The hook for a record that leaves the table.
    pub(super) fn drop_for(&mut self, rec: &PhotoRecord)
        requires
            old(self).inv(),
        ensures
            final(self).inv(),
            final(self)@ == old(self)@.dropped_for(rec@),
    {
        let pid = rec.pid;
        self.loc2pid.remove(rec.location.mpid, rec.location.filename.as_slice());
        self.curate_selected(rec, false);
        match rec.status {
            PhotoEntryStatus::Committed => {
                self.committed.remove(&pid);
            },
            PhotoEntryStatus::CommittedButMissing => {
                self.missing.remove(&pid);
            },
            PhotoEntryStatus::CommittedButModified => {
                self.modified.remove(&pid);
            },
            PhotoEntryStatus::Uncommitted => {
                self.uncommitted.remove(&pid);
            },
        }
    }

    fn status_remove(&mut self, pid: PID, status: PhotoEntryStatus)
        requires
            old(self).inv(),
        ensures
            final(self).inv(),
            final(self)@ == old(self)@.set_status(
                status,
                old(self)@.with_status(status).remove(pid),
            ),
    {
        match status {
            PhotoEntryStatus::Committed => {
                self.committed.remove(&pid);
            },
            PhotoEntryStatus::CommittedButMissing => {
                self.missing.remove(&pid);
            },
            PhotoEntryStatus::CommittedButModified => {
                self.modified.remove(&pid);
            },
            PhotoEntryStatus::Uncommitted => {
                self.uncommitted.remove(&pid);
            },
        }
    }

    fn status_insert(&mut self, pid: PID, status: PhotoEntryStatus)
        requires
            old(self).inv(),
        ensures
            final(self).inv(),
            final(self)@ == old(self)@.set_status(
                status,
                old(self)@.with_status(status).insert(pid),
            ),
    {
        match status {
            PhotoEntryStatus::Committed => {
                self.committed.insert(pid);
            },
            PhotoEntryStatus::CommittedButMissing => {
                self.missing.insert(pid);
            },
            PhotoEntryStatus::CommittedButModified => {
                self.modified.insert(pid);
            },
            PhotoEntryStatus::Uncommitted => {
                self.uncommitted.insert(pid);
            },
        }
    }

    /// The hook for a record whose status has changed.
    pub(super) fn mutate_status(
        &mut self,
        pid: PID,
        old_status: PhotoEntryStatus,
        new_status: PhotoEntryStatus,
    )
        requires
            old(self).inv(),
        ensures
            final(self).inv(),
            final(self)@ == old(self)@.moved(pid, old_status, new_status),
    {
        self.status_remove(pid, old_status);
        self.status_insert(pid, new_status);
    }

    /// The hook for a record whose selection has changed: the index takes
    /// over what the record says.
    pub(super) fn flip_selected(&mut self, rec: &PhotoRecord)
        requires
            old(self).inv(),
        ensures
            final(self).inv(),
            final(self)@ == old(self)@.curated(rec.pid, rec.location.mpid, rec.selected),
    {
        self.curate_selected(rec, rec.selected);
    }

    /// How many records have a status.
    pub fn count_status(&self, status: PhotoEntryStatus) -> (n: usize)
        ensures
            n == self@.with_status(status).len(),
    {
        match status {
            PhotoEntryStatus::Committed => self.committed.len(),
            PhotoEntryStatus::CommittedButMissing => self.missing.len(),
            PhotoEntryStatus::CommittedButModified => self.modified.len(),
            PhotoEntryStatus::Uncommitted => self.uncommitted.len(),
        }
    }

    /// Whether a record is selected.
    pub fn is_selected(&self, pid: PID) -> (selected: bool)
        ensures
            selected == self@.selected.contains(pid),
    {
        self.selected_pids.contains(&pid)
    }

    /// Whether a record is among those of a status.
    pub fn has_status(&self, pid: PID, status: PhotoEntryStatus) -> (yes: bool)
        ensures
            yes == self@.with_status(status).contains(pid),
    {
        match status {
            PhotoEntryStatus::Committed => self.committed.contains(&pid),
            PhotoEntryStatus::CommittedButMissing => self.missing.contains(&pid),
            PhotoEntryStatus::CommittedButModified => self.modified.contains(&pid),
            PhotoEntryStatus::Uncommitted => self.uncommitted.contains(&pid),
        }
    }

    /// Whether a record is among the selected ones of a mount point.
    pub fn is_selected_in(&self, mpid: MountId, pid: PID) -> (yes: bool)
        ensures
            yes == self@.selected_in(mpid).contains(pid),
    {
        match self.mpid2selected_pids.get(&mpid) {
            Some(pids) => pids.contains(&pid),
            None => false,
        }
    }

    /// How many records are selected.
    pub fn count_selected(&self) -> (n: usize)
        ensures
            n == self@.selected.len(),
    {
        self.selected_pids.len()
    }
}

impl Default for PhotoTableIndex {
    fn default() -> (index: Self)
        ensures
            index.inv(),
            index_matches(index@, Map::<PID, PhotoRecordView>::empty()),
    {
        PhotoTableIndex::new()
    }
}

impl TableIndex for PhotoTableIndex {
    type Record = PhotoRecord;

    open spec fn reflects(&self, rows: Map<PID, PhotoRecordView>) -> bool {
        self.inv() && index_matches(self@, rows)
    }

    open spec fn admits(rows: Map<PID, PhotoRecordView>, content: PhotoRecordView) -> bool {
        forall|pid: PID| #[trigger] rows.contains_key(pid) ==> rows[pid].location != content.location
    }

    fn insert(&mut self, rec: &PhotoRecord, Ghost(rows): Ghost<Map<PID, PhotoRecordView>>) {
        proof {
            assert(self.reflects(rows));
            assert(index_matches(self@, rows));
            assert(Self::admits(rows, rec@));
            assert(PhotoRecord::key_of(rec@) == rec@.pid);
            if self@.loc2pid.contains_key(rec@.location) {
                lemma_indexed_location(self@, rows, rec@.location);
            }
            lemma_built_matches(self@, rows, rec@);
        }
        self.build_for(rec);
    }

    fn remove(&mut self, rec: &PhotoRecord, Ghost(rows): Ghost<Map<PID, PhotoRecordView>>) {
        proof {
            assert(self.reflects(rows));
            assert(index_matches(self@, rows));
            assert(PhotoRecord::key_of(rec@) == rec@.pid);
            lemma_dropped_matches(self@, rows, rec@);
        }
        self.drop_for(rec);
    }
}

} // verus!
