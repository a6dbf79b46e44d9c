//! The photo table itself.
use super::index::{
    index_matches, lemma_curated_settled, lemma_indexed_location, lemma_indexed_record,
    lemma_patched_matches, lemma_same_lookups_match, same_lookups, PhotoTableIndex,
    PhotoTableIndexView,
};
use super::misc::{PhotoEntryStatus, Timestamp, PID};
use super::patch::{committed_record, PhotoRecordDiff};
use super::records::{PhotoRecord, PhotoRecordView};
use crate::db::helpers::index::TableIndex;
use crate::db::helpers::table::{Table, TableRecord};
use crate::util::sync::AtomicCounter;
use crate::util::sync::AtomicFlag;
use std::collections::BTreeMap;
use vstd::prelude::*;
use vstd::std_specs::iter::IteratorSpec;

verus! {

broadcast use vstd::std_specs::btree::group_btree_axioms;

/// The photo records by primary key, the counter that the next key comes
/// from, and the index.
pub struct PhotoTable {
    pub(super) modified: AtomicFlag,
    pub(super) counter: AtomicCounter,
    pub(super) pid2rec: BTreeMap<PID, PhotoRecord>,
    pub(super) index: PhotoTableIndex,
}

impl PhotoTable {
    /// What the index holds.
    pub closed spec fn index_view(&self) -> PhotoTableIndexView {
        self.index@
    }

    /// The primary key that the next new record gets.
    pub closed spec fn next_pid(&self) -> PID {
        self.counter@
    }

    /// What holds inside the index.
    pub closed spec fn inv(&self) -> bool {
        self.index.inv()
    }

    /// Every record is stored under its own key, and every key was handed out
    /// by the counter.
    pub open spec fn rows_ok(rows: Map<PID, PhotoRecordView>, next_pid: PID) -> bool {
        forall|pid: PID| #[trigger] rows.contains_key(pid) ==> rows[pid].pid == pid && pid < next_pid
    }

    /// An empty table without unsaved changes, whose first key is zero.
    pub fn new() -> (table: Self)
        ensures
            table.wf(),
            table.rows() == Map::<PID, PhotoRecordView>::empty(),
            table.next_pid() == 0,
            !table.unsaved(),
    {
        let table = PhotoTable {
            modified: AtomicFlag::new(),
            counter: AtomicCounter::new(0),
            pid2rec: BTreeMap::new(),
            index: PhotoTableIndex::new(),
        };
        proof {
            assert(table.rows() =~= Map::<PID, PhotoRecordView>::empty());
        }
        table
    }

    /// Moves the counter of a table without records.
    pub(super) fn set_counter(&mut self, counter: PID)
        requires
            old(self).wf(),
            old(self).rows() == Map::<PID, PhotoRecordView>::empty(),
        ensures
            final(self).wf(),
            final(self).rows() == old(self).rows(),
            final(self).unsaved() == old(self).unsaved(),
            final(self).next_pid() == counter,
    {
        self.counter = AtomicCounter::new(counter);
    }

    /// Stores a record under the key that it carries, which must be free and
    /// handed out, at a location that must be free.
    pub(super) fn put(&mut self, rec: PhotoRecord)
        requires
            old(self).wf(),
            rec@.pid < old(self).next_pid(),
            !old(self).rows().contains_key(rec@.pid),
            !old(self).index_view().loc2pid.contains_key(rec@.location),
        ensures
            final(self).wf(),
            final(self).rows() == old(self).rows().insert(rec@.pid, rec@),
            final(self).unsaved() == old(self).unsaved(),
            final(self).next_pid() == old(self).next_pid(),
    {
        let ghost rows = self.rows();
        let ghost content = rec@;
        proof {
            assert(PhotoRecord::key_of(content) == content.pid);
            assert forall|p: PID| #[trigger] rows.contains_key(p) implies rows[p].location
                != content.location by {
                lemma_indexed_record(self.index_view(), rows, p);
            }
        }
        self.index.insert(&rec, Ghost(rows));
        self.pid2rec.insert(rec.pid, rec);
        proof {
            assert(self.rows() =~= rows.insert(content.pid, content));
        }
    }

    /// The index, for lookups.
    pub fn index(&self) -> (index: &PhotoTableIndex)
        ensures
            index@ == self.index_view(),
    {
        &self.index
    }

    /// Every lookup structure of the index of a table that is in order holds
    /// exactly the primary keys of the records that belong in it: the
    /// locations are those of the records, the selection holds the selected
    /// records, the set of each status the records of that status, and the
    /// selection of each mount point the selected records below it.
    pub proof fn lemma_index_consistent(&self)
        requires
            self.wf(),
        ensures
            self.index_view().loc2pid.dom() == Set::new(
                |loc: crate::db::locations::FileLocationView|
                    exists|pid: PID| #[trigger]
                        self.rows().contains_key(pid) && self.rows()[pid].location == loc,
            ),
            forall|pid: PID| #[trigger]
                self.rows().contains_key(pid) ==> self.index_view().loc2pid[self.rows()[pid].location]
                    == pid,
            self.index_view().selected == Set::new(
                |pid: PID| self.rows().contains_key(pid) && self.rows()[pid].selected,
            ),
            forall|status: PhotoEntryStatus| #[trigger]
                self.index_view().with_status(status) == Set::new(
                    |pid: PID| self.rows().contains_key(pid) && self.rows()[pid].status == status,
                ),
            forall|mpid: u128| #[trigger]
                self.index_view().selected_in(mpid) == Set::new(
                    |pid: PID|
                        self.rows().contains_key(pid) && self.rows()[pid].selected
                            && self.rows()[pid].location.0 == mpid,
                ),
    {
        crate::db::photos::index::lemma_index_consistent(self.index_view(), self.rows());
        assert forall|pid: PID| #[trigger] self.rows().contains_key(pid) implies self.index_view().loc2pid[self.rows()[pid].location]
            == pid by {
            lemma_indexed_record(self.index_view(), self.rows(), pid);
        }
    }

    /// The primary key that the next new record gets.
    pub fn peek_pid(&self) -> (pid: PID)
        ensures
            pid == self.next_pid(),
    {
        self.counter.get()
    }

    /// The record at a location, found through the index.
    pub fn pid_at(&self, mpid: u128, filename: &[u8]) -> (pid: Option<PID>)
        requires
            self.wf(),
        ensures
            pid is Some == self.index_view().loc2pid.contains_key((mpid, filename@)),
            pid matches Some(p) ==> p == self.index_view().loc2pid[(mpid, filename@)]
                && self.rows().contains_key(p) && self.rows()[p].location == (mpid, filename@),
    {
        proof {
            if self.index_view().loc2pid.contains_key((mpid, filename@)) {
                lemma_indexed_location(self.index_view(), self.rows(), (mpid, filename@));
            }
        }
        self.index.pid_of(mpid, filename)
    }

    /// Commits a diff at the time `now`: adjusts it, writes the changed
    /// fields into the record, notes the change and lets the index follow
    /// the selection and the status of the record.
    pub fn apply_diff(&mut self, diff: PhotoRecordDiff, now: Timestamp)
        requires
            old(self).wf(),
            old(self).rows().contains_key(diff.pid),
        ensures
            final(self).wf(),
            final(self).rows() == old(self).rows().insert(
                diff.pid,
                committed_record(old(self).rows()[diff.pid], diff, now),
            ),
            final(self).unsaved() == (old(self).unsaved() || diff.adjusted(now).changes_any()),
            final(self).next_pid() == old(self).next_pid(),
            final(self).index_view().loc2pid == old(self).index_view().loc2pid,
    {
        let ghost rows = self.rows();
        let ghost index = self.index@;
        let mut diff = diff;
        diff.adjust(now);
        match self.pid2rec.remove(&diff.pid) {
            Some(rec) => {
                let mut rec = rec;
                let was_selected = rec.selected;
                let was_status = rec.status;
                if diff.write(&mut rec) {
                    self.modified.set();
                }
                let ghost content = rec@;
                let ghost grown = rows.insert(content.pid, content);
                let ghost curated = index.curated(content.pid, content.location.0, content.selected);
                let ghost canon = curated.moved(content.pid, was_status, content.status);
                proof {
                    assert(rows[diff.pid].pid == diff.pid);
                    lemma_patched_matches(index, rows, content);
                }
                if rec.selected != was_selected {
                    self.index.flip_selected(&rec);
                } else {
                    proof {
                        lemma_curated_settled(index, rows, diff.pid);
                    }
                }
                let ghost mid = self.index@;
                proof {
                    assert(same_lookups(curated, mid));
                }
                if rec.status != was_status {
                    self.index.mutate_status(rec.pid, was_status, rec.status);
                }
                proof {
                    let last = self.index@;
                    lemma_indexed_record(index, rows, diff.pid);
                    assert(index.with_status(was_status).contains(diff.pid));
                    assert forall|s: PhotoEntryStatus| canon.with_status(s) == last.with_status(
                        s,
                    ) by {
                        assert(curated.with_status(s) == mid.with_status(s));
                        assert(curated.with_status(was_status) == mid.with_status(was_status));
                        assert(curated.with_status(content.status) == mid.with_status(
                            content.status,
                        ));
                        assert(canon.with_status(s) =~= last.with_status(s));
                    }
                    assert forall|m: u128| canon.selected_in(m) == last.selected_in(m) by {
                        assert(curated.selected_in(m) == mid.selected_in(m));
                    }
                    assert(same_lookups(canon, last));
                    lemma_same_lookups_match(canon, last, grown);
                }
                self.pid2rec.insert(diff.pid, rec);
                proof {
                    assert(self.rows() =~= rows.insert(diff.pid, content));
                }
            },
            None => {},
        }
    }

    /// The primary keys of all records, in rising order.
    pub fn pids(&self) -> (keys: Vec<PID>)
        ensures
            keys@.no_duplicates(),
            forall|pid: PID| keys@.contains(pid) <==> self.rows().contains_key(pid),
            rising(keys@),
    {
        let mut keys: Vec<PID> = Vec::new();
        for pid in it: self.pid2rec.keys()
            invariant
                rising(keys@),
                keys@.len() == it.index(),
                forall|p: PID|
                    keys@.contains(p) <==> exists|i: int|
                        0 <= i < it.index() && *(#[trigger] it.seq()[i]) == p,
                it.seq() == self.pid2rec.keys().remaining(),
        {
            let ghost k = it.index();
            let ghost before = keys@;
            proof {
                let stored = self.pid2rec.keys().remaining();
                assert(!before.contains(*pid)) by {
                    if before.contains(*pid) {
                        let i = choose|i: int| 0 <= i < k && *(#[trigger] stored[i]) == *pid;
                        assert(stored[i] == stored[k]);
                    }
                }
            }
            place(&mut keys, *pid);
            proof {
                assert forall|p: PID|
                    keys@.contains(p) <==> exists|i: int|
                        0 <= i < k + 1 && *(#[trigger] it.seq()[i]) == p by {
                    if keys@.contains(p) && p != *pid {
                        assert(before.contains(p));
                        let i = choose|i: int| 0 <= i < k && *(#[trigger] it.seq()[i]) == p;
                        assert(0 <= i < k + 1 && *it.seq()[i] == p);
                    }
                    if exists|i: int| 0 <= i < k + 1 && *(#[trigger] it.seq()[i]) == p {
                        let i = choose|i: int| 0 <= i < k + 1 && *(#[trigger] it.seq()[i]) == p;
                        if i < k {
                            assert(0 <= i < k && *it.seq()[i] == p);
                        }
                    }
                }
            }
        }
        proof {
            let stored = self.pid2rec.keys().remaining();
            assert forall|pid: PID| keys@.contains(pid) <==> self.rows().contains_key(pid) by {
                if keys@.contains(pid) {
                    let i = choose|i: int| 0 <= i < stored.len() && *(#[trigger] stored[i]) == pid;
                    assert(stored.unref()[i] == pid);
                    assert(stored.unref().to_set().contains(pid));
                }
                if self.rows().contains_key(pid) {
                    assert(stored.unref().to_set().contains(pid));
                    let i = choose|i: int| 0 <= i < stored.unref().len() && stored.unref()[i] == pid;
                    assert(*stored[i] == pid);
                }
            }
            assert forall|i: int, j: int| 0 <= i < j < keys@.len() implies keys@[i] != keys@[j] by {}
        }
        keys
    }

    /// All records in the rising order of their keys.
    pub fn records(&self) -> (all: Vec<&PhotoRecord>)
        requires
            self.wf(),
        ensures
            listed(self.rows(), all@),
    {
        let keys = self.pids();
        let mut all: Vec<&PhotoRecord> = Vec::new();
        let mut i: usize = 0;
        while i < keys.len()
            invariant
                i <= keys.len(),
                self.wf(),
                rising(keys@),
                forall|pid: PID| keys@.contains(pid) <==> self.rows().contains_key(pid),
                all@.len() == i,
                forall|j: int|
                    0 <= j < i ==> (#[trigger] all@[j])@ == self.rows()[keys@[j]] && all@[j]@.pid
                        == keys@[j],
            decreases keys.len() - i,
        {
            proof {
                assert(keys@.contains(keys@[i as int]));
            }
            all.push(self.get(&keys[i]).unwrap());
            i += 1;
        }
        proof {
            assert forall|j: int| 0 <= j < all@.len() implies self.rows().contains_key(
                (#[trigger] all@[j])@.pid,
            ) && self.rows()[all@[j]@.pid] == all@[j]@ by {
                assert(keys@.contains(keys@[j]));
            }
            assert forall|pid: PID| #[trigger] self.rows().contains_key(pid) implies exists|j: int|
                0 <= j < all@.len() && (#[trigger] all@[j])@.pid == pid by {
                assert(keys@.contains(pid));
                let j = choose|j: int| 0 <= j < keys@.len() && keys@[j] == pid;
                assert(all@[j]@.pid == pid);
            }
        }
        all
    }

    /// How many records the table holds.
    pub fn len(&self) -> (n: usize)
        ensures
            n == self.rows().dom().len(),
    {
        proof {
            assert(self.rows().dom() =~= self.pid2rec@.dom());
        }
        self.pid2rec.len()
    }
}

/// Whether a list holds the records of the rows, each once, in the rising
/// order of their keys.
pub open spec fn listed(rows: Map<PID, PhotoRecordView>, all: Seq<&PhotoRecord>) -> bool {
    &&& forall|j: int|
        0 <= j < all.len() ==> rows.contains_key((#[trigger] all[j])@.pid) && rows[all[j]@.pid]
            == all[j]@
    &&& forall|pid: PID| #[trigger]
        rows.contains_key(pid) ==> exists|j: int| 0 <= j < all.len() && (#[trigger] all[j])@.pid == pid
    &&& forall|i: int, j: int|
        0 <= i < j < all.len() ==> (#[trigger] all[i])@.pid < (#[trigger] all[j])@.pid
}

/// Whether the numbers of a list rise from each to the next.
pub open spec fn rising(keys: Seq<PID>) -> bool {
    forall|i: int, j: int| 0 <= i < j < keys.len() ==> keys[i] < keys[j]
}

/// Puts a key into a rising list at its place. A key that is larger than
/// all of the list goes to the end in one step.
fn place(keys: &mut Vec<PID>, key: PID)
    requires
        rising(old(keys)@),
        !old(keys)@.contains(key),
    ensures
        rising(final(keys)@),
        final(keys)@.len() == old(keys)@.len() + 1,
        forall|p: PID| final(keys)@.contains(p) <==> old(keys)@.contains(p) || p == key,
{
    let ghost before = keys@;
    let mut at: usize = keys.len();
    while at > 0 && keys[at - 1] > key
        invariant
            at <= keys.len(),
            keys@ == before,
            forall|j: int| at <= j < keys.len() ==> keys@[j] > key,
        decreases at,
    {
        at -= 1;
    }
    proof {
        if at > 0 {
            assert(before.contains(before[at - 1]));
        }
    }
    keys.insert(at, key);
    proof {
        assert forall|i: int, j: int| 0 <= i < j < keys@.len() implies keys@[i] < keys@[j] by {
            let a = if i < at {
                before[i]
            } else if i == at {
                key
            } else {
                before[i - 1]
            };
            let b = if j < at {
                before[j]
            } else if j == at {
                key
            } else {
                before[j - 1]
            };
            assert(keys@[i] == a && keys@[j] == b);
            if i < at && j == at {
                assert(before[i] <= before[at - 1]);
            }
        }
        assert forall|p: PID| keys@.contains(p) <==> before.contains(p) || p == key by {
            if keys@.contains(p) {
                let i = choose|i: int| 0 <= i < keys@.len() && keys@[i] == p;
                if i < at {
                    assert(before[i] == p);
                } else if i > at {
                    assert(before[i - 1] == p);
                }
            }
            if before.contains(p) {
                let i = choose|i: int| 0 <= i < before.len() && before[i] == p;
                if i < at {
                    assert(keys@[i] == p);
                } else {
                    assert(keys@[i + 1] == p);
                }
            }
            if p == key {
                assert(keys@[at as int] == p);
            }
        }
    }
}

impl Default for PhotoTable {
    fn default() -> (table: Self)
        ensures
            table.wf(),
            table.rows() == Map::<PID, PhotoRecordView>::empty(),
            table.next_pid() == 0,
            !table.unsaved(),
    {
        PhotoTable::new()
    }
}

impl Table for PhotoTable {
    type PrimaryKey = PID;

    type Record = PhotoRecord;

    type Index = PhotoTableIndex;

    closed spec fn rows(&self) -> Map<PID, PhotoRecordView> {
        self.pid2rec@.map_values(|rec: PhotoRecord| rec@)
    }

    closed spec fn unsaved(&self) -> bool {
        self.modified@
    }

    open spec fn wf(&self) -> bool {
        &&& self.inv()
        &&& Self::rows_ok(self.rows(), self.next_pid())
        &&& index_matches(self.index_view(), self.rows())
    }

    open spec fn accepts(&self, content: PhotoRecordView) -> bool {
        &&& self.next_pid() < u32::MAX
        &&& !self.index_view().loc2pid.contains_key(content.location)
    }

    open spec fn stored_as(&self, content: PhotoRecordView) -> PhotoRecordView {
        PhotoRecordView { pid: self.next_pid(), ..content }
    }

    fn insert(&mut self, rec: PhotoRecord) -> (key: Option<PID>)
        ensures
            final(self).next_pid() == if key is Some {
                (old(self).next_pid() + 1) as PID
            } else {
                old(self).next_pid()
            },
    {
        proof {
            assert(self.wf());
            assert(self.accepts(rec@) == (self.next_pid() < u32::MAX
                && !self.index_view().loc2pid.contains_key(rec@.location)));
            assert(self.stored_as(rec@) == (PhotoRecordView { pid: self.next_pid(), ..rec@ }));
        }
        if self.counter.get() == u32::MAX {
            return None;
        }
        if self.index.pid_of(rec.location.mpid, rec.location.filename.as_slice()).is_some() {
            return None;
        }
        let ghost rows = self.rows();
        let mut rec = rec;
        let pid = self.counter.get_and_incr();
        rec.pid = pid;
        let ghost content = rec@;
        proof {
            assert(PhotoRecord::key_of(content) == pid);
            assert forall|p: PID| #[trigger] rows.contains_key(p) implies rows[p].location
                != content.location by {
                lemma_indexed_record(self.index_view(), rows, p);
            }
        }
        self.index.insert(&rec, Ghost(rows));
        self.pid2rec.insert(pid, rec);
        proof {
            assert(self.rows() =~= rows.insert(pid, content));
        }
        Some(pid)
    }

    fn remove(&mut self, key: &PID) -> (rec: Option<PhotoRecord>)
        ensures
            final(self).next_pid() == old(self).next_pid(),
    {
        proof {
            assert(self.wf());
        }
        let ghost rows = self.rows();
        match self.pid2rec.remove(key) {
            Some(rec) => {
                proof {
                    assert(PhotoRecord::key_of(rec@) == rec@.pid);
                    assert(rows.contains_key(*key));
                    assert(rows[*key] == rec@);
                }
                self.index.remove(&rec, Ghost(rows));
                proof {
                    assert(rec@.pid == *key);
                    assert(self.rows() =~= rows.remove(*key));
                    assert(self.index.reflects(rows.remove(*key)));
                }
                Some(rec)
            },
            None => {
                proof {
                    assert(self.rows() =~= rows);
                    assert(rows =~= rows.remove(*key));
                }
                None
            },
        }
    }

    fn get(&self, key: &PID) -> (rec: Option<&PhotoRecord>) {
        proof {
            assert(self.wf());
        }
        self.pid2rec.get(key)
    }

    fn is_modified(&self) -> (unsaved: bool) {
        self.modified.get()
    }

    fn set_modified(&mut self, unsaved: bool)
        ensures
            final(self).next_pid() == old(self).next_pid(),
            final(self).index_view() == old(self).index_view(),
    {
        if unsaved {
            self.modified.set();
        } else {
            self.modified.clear();
        }
    }
}

} // verus!
