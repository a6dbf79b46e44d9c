//! The photo table as it is written to its file: the counter and the
//! records, without the index.
use super::index::{
    lemma_index_determined, lemma_indexed_location, lemma_indexed_record, same_lookups,
};
use super::misc::PID;
use super::records::{PhotoRecord, PhotoRecordView};
use super::table::{rising, PhotoTable};
use crate::db::helpers::table::Table;
use crate::util::persist::{LoadError, TableIO};
use vstd::prelude::*;

verus! {

/// What the file of a photo table holds.
pub struct PhotoTableImage {
    pub counter: PID,
    pub records: Vec<PhotoRecord>,
}

/// The contents of a list of records.
pub open spec fn record_views(records: Seq<PhotoRecord>) -> Seq<PhotoRecordView> {
    records.map_values(|rec: PhotoRecord| rec@)
}

/// Whether a record can join the rows of a table whose counter stands at
/// `counter`: its key was handed out, and neither its key nor its location
/// is taken.
pub open spec fn fits(rows: Map<PID, PhotoRecordView>, counter: PID, rec: PhotoRecordView) -> bool {
    &&& rec.pid < counter
    &&& !rows.contains_key(rec.pid)
    &&& forall|pid: PID| #[trigger] rows.contains_key(pid) ==> rows[pid].location != rec.location
}

/// The rows that the first `n` records make, each under its own key, where
/// every one of them fits with those before it.
pub open spec fn restored(counter: PID, records: Seq<PhotoRecordView>, n: int) -> Option<
    Map<PID, PhotoRecordView>,
>
    decreases n,
{
    if n <= 0 {
        Some(Map::empty())
    } else {
        match restored(counter, records, n - 1) {
            Some(rows) => if fits(rows, counter, records[n - 1]) {
                Some(rows.insert(records[n - 1].pid, records[n - 1]))
            } else {
                None
            },
            None => None,
        }
    }
}

/// Records that do not fit together do not come to fit by more records.
pub proof fn lemma_restored_fails(counter: PID, records: Seq<PhotoRecordView>, k: int, n: int)
    requires
        0 <= k <= n,
        restored(counter, records, k) is None,
    ensures
        restored(counter, records, n) is None,
    decreases n - k,
{
    if k < n {
        lemma_restored_fails(counter, records, k, n - 1);
    }
}

/// What the first `n` records make depends on these records alone.
pub proof fn lemma_restored_prefix(
    counter: PID,
    a: Seq<PhotoRecordView>,
    b: Seq<PhotoRecordView>,
    n: int,
)
    requires
        0 <= n <= a.len(),
        n <= b.len(),
        forall|i: int| 0 <= i < n ==> a[i] == b[i],
    ensures
        restored(counter, a, n) == restored(counter, b, n),
    decreases n,
{
    if n > 0 {
        lemma_restored_prefix(counter, a, b, n - 1);
    }
}

/// Whether the records stand in the rising order of their keys.
pub open spec fn in_key_order(records: Seq<PhotoRecordView>) -> bool {
    forall|i: int, j: int|
        0 <= i < j < records.len() ==> (#[trigger] records[i]).pid < (#[trigger] records[j]).pid
}

/// The rows that records make hold these records, each under its key, and
/// nothing else.
pub proof fn lemma_restored_rows(
    counter: PID,
    records: Seq<PhotoRecordView>,
    n: int,
    rows: Map<PID, PhotoRecordView>,
)
    requires
        0 <= n <= records.len(),
        restored(counter, records, n) == Some(rows),
    ensures
        forall|j: int|
            0 <= j < n ==> rows.contains_key(records[j].pid) && rows[records[j].pid]
                == #[trigger] records[j],
        forall|pid: PID| #[trigger]
            rows.contains_key(pid) ==> exists|j: int|
                0 <= j < n && (#[trigger] records[j]).pid == pid,
    decreases n,
{
    if n > 0 {
        let before = restored(counter, records, n - 1)->0;
        lemma_restored_rows(counter, records, n - 1, before);
        assert forall|j: int| 0 <= j < n implies rows.contains_key(records[j].pid)
            && rows[records[j].pid] == #[trigger] records[j] by {
            if j < n - 1 {
                assert(before.contains_key(records[j].pid));
            }
        }
        assert forall|pid: PID| #[trigger] rows.contains_key(pid) implies exists|j: int|
            0 <= j < n && (#[trigger] records[j]).pid == pid by {
            if pid == records[n - 1].pid {
                assert(records[n - 1].pid == pid);
            } else {
                assert(before.contains_key(pid));
                let j = choose|j: int| 0 <= j < n - 1 && (#[trigger] records[j]).pid == pid;
                assert(0 <= j < n && records[j].pid == pid);
            }
        }
    }
}

/// The record at place `i` of a list.
pub open spec fn record_at(records: Seq<PhotoRecordView>, i: int) -> PhotoRecordView {
    records[i]
}

/// Whether every record of `a` is one of `b`.
pub open spec fn all_among(a: Seq<PhotoRecordView>, b: Seq<PhotoRecordView>) -> bool {
    forall|i: int| 0 <= i < a.len() ==> b.contains(#[trigger] record_at(a, i))
}

/// Two lists in the rising order of their keys that hold the same records
/// are the same list.
pub proof fn lemma_key_order_decides(a: Seq<PhotoRecordView>, b: Seq<PhotoRecordView>)
    requires
        in_key_order(a),
        in_key_order(b),
        all_among(a, b),
        all_among(b, a),
    ensures
        a == b,
    decreases a.len(),
{
    if a.len() == 0 {
        if b.len() > 0 {
            assert(a.contains(record_at(b, 0)));
        }
        assert(a =~= b);
    } else {
        let top = a.len() - 1;
        assert(b.contains(record_at(a, top)));
        let k = choose|k: int| 0 <= k < b.len() && b[k] == a[top];
        let end = b.len() - 1;
        assert(a.contains(record_at(b, end)));
        let i = choose|i: int| 0 <= i < a.len() && a[i] == b[end];
        assert(a[i].pid <= a[top].pid);
        assert(b[k].pid <= b[end].pid);
        assert(i == top && k == end);
        let head = a.drop_last();
        let rest = b.drop_last();
        assert forall|j: int| 0 <= j < head.len() implies rest.contains(
            #[trigger] record_at(head, j),
        ) by {
            assert(b.contains(record_at(a, j)));
            let m = choose|m: int| 0 <= m < b.len() && b[m] == a[j];
            assert(a[j].pid < a[top].pid);
            assert(m < end);
            assert(rest[m] == head[j]);
        }
        assert forall|m: int| 0 <= m < rest.len() implies head.contains(
            #[trigger] record_at(rest, m),
        ) by {
            assert(a.contains(record_at(b, m)));
            let j = choose|j: int| 0 <= j < a.len() && a[j] == b[m];
            assert(b[m].pid < b[end].pid);
            assert(j < top);
            assert(head[j] == rest[m]);
        }
        lemma_key_order_decides(head, rest);
        assert(a =~= head.push(a[top]));
        assert(b =~= rest.push(b[end]));
    }
}

impl PhotoTable {
    /// The table of the records of an image, with its index built anew;
    /// `None` where the records do not fit together.
    pub fn restore(image: PhotoTableImage) -> (table: Option<PhotoTable>)
        ensures
            table is Some == PhotoTable::image_rows(&image) is Some,
            table matches Some(t) ==> t.wf() && t.loaded_from(&image),
    {
        let counter = image.counter;
        let ghost shown = record_views(image.records@);
        let mut table = PhotoTable::new();
        table.set_counter(counter);
        for rec in it: image.records
            invariant
                shown == record_views(it.seq()),
                shown == record_views(image.records@),
                counter == image.counter,
                table.wf(),
                table.next_pid() == counter,
                !table.unsaved(),
                restored(counter, shown, it.index()) == Some(table.rows()),
        {
            let ghost i = it.index();
            let ghost rows = table.rows();
            proof {
                assert(shown[i] == rec@);
                if table.index_view().loc2pid.contains_key(rec@.location) {
                    lemma_indexed_location(table.index_view(), rows, rec@.location);
                }
                assert forall|pid: PID| #[trigger] rows.contains_key(pid)
                    && !table.index_view().loc2pid.contains_key(rec@.location) implies rows[pid].location
                    != rec@.location by {
                    lemma_indexed_record(table.index_view(), rows, pid);
                }
            }
            if rec.pid >= counter || table.get(&rec.pid).is_some() || table.pid_at(
                rec.location.mpid,
                rec.location.filename.as_slice(),
            ).is_some() {
                proof {
                    assert(restored(counter, shown, i + 1) is None);
                    lemma_restored_fails(counter, shown, i + 1, shown.len() as int);
                }
                return None;
            }
            table.put(rec);
        }
        Some(table)
    }

    /// The records in the order of their keys, and the counter.
    pub fn snapshot(&self) -> (image: PhotoTableImage)
        requires
            self.wf(),
        ensures
            PhotoTable::image_rows(&image) == Some(self.rows()),
            self.saved_as(&image),
    {
        let keys = self.pids();
        let counter = self.peek_pid();
        let mut records: Vec<PhotoRecord> = Vec::new();
        let ghost acc: Map<PID, PhotoRecordView> = Map::empty();
        let mut i: usize = 0;
        while i < keys.len()
            invariant
                i <= keys.len(),
                self.wf(),
                counter == self.next_pid(),
                keys@.no_duplicates(),
                forall|pid: PID| keys@.contains(pid) <==> self.rows().contains_key(pid),
                records@.len() == i,
                rising(keys@),
                forall|j: int| 0 <= j < i ==> (#[trigger] records@[j])@.pid == keys@[j],
                restored(counter, record_views(records@), i as int) == Some(acc),
                forall|pid: PID|
                    acc.contains_key(pid) <==> exists|j: int| 0 <= j < i && keys@[j] == pid,
                forall|pid: PID| #[trigger]
                    acc.contains_key(pid) ==> self.rows().contains_key(pid) && acc[pid]
                        == self.rows()[pid],
            decreases keys.len() - i,
        {
            let pid = keys[i];
            let ghost before = record_views(records@);
            proof {
                assert(keys@.contains(keys@[i as int]));
            }
            let rec = self.get(&pid).unwrap().duplicate();
            let ghost content = rec@;
            records.push(rec);
            proof {
                let after = record_views(records@);
                assert(after[i as int] == content);
                lemma_restored_prefix(counter, before, after, i as int);
                assert(content.pid == pid);
                assert(!acc.contains_key(pid)) by {
                    if acc.contains_key(pid) {
                        let j = choose|j: int| 0 <= j < i && keys@[j] == pid;
                        assert(keys@[j] == keys@[i as int]);
                    }
                }
                assert forall|other: PID| #[trigger] acc.contains_key(other) implies acc[other].location
                    != content.location by {
                    lemma_indexed_record(self.index_view(), self.rows(), other);
                    lemma_indexed_record(self.index_view(), self.rows(), pid);
                }
                acc = acc.insert(pid, content);
                assert forall|p: PID|
                    acc.contains_key(p) <==> exists|j: int| 0 <= j < i + 1 && keys@[j] == p by {
                    if acc.contains_key(p) && p != pid {
                        let j = choose|j: int| 0 <= j < i && keys@[j] == p;
                        assert(0 <= j < i + 1 && keys@[j] == p);
                    }
                    if exists|j: int| 0 <= j < i + 1 && keys@[j] == p {
                        let j = choose|j: int| 0 <= j < i + 1 && keys@[j] == p;
                        if j < i {
                            assert(0 <= j < i && keys@[j] == p);
                        }
                    }
                }
            }
            i += 1;
        }
        proof {
            assert forall|pid: PID| self.rows().contains_key(pid) implies acc.contains_key(pid) by {
                assert(keys@.contains(pid));
                let j = choose|j: int| 0 <= j < keys@.len() && keys@[j] == pid;
                assert(0 <= j < i && keys@[j] == pid);
            }
            assert(acc =~= self.rows());
            assert(in_key_order(record_views(records@))) by {
                assert forall|a: int, b: int| 0 <= a < b < records@.len() implies (
                #[trigger] record_views(records@)[a]).pid < (#[trigger] record_views(
                    records@,
                )[b]).pid by {
                    assert(records@[a]@.pid == keys@[a]);
                    assert(records@[b]@.pid == keys@[b]);
                }
            }
        }
        PhotoTableImage { counter, records }
    }

    /// What is written is decided by the records and the counter: two
    /// tables with the same rows and the same next key are saved as the
    /// same image, record for record.
    pub proof fn lemma_saved_alike(
        &self,
        image: &PhotoTableImage,
        other: &PhotoTable,
        other_image: &PhotoTableImage,
    )
        requires
            self.saved_as(image),
            other.saved_as(other_image),
            self.rows() == other.rows(),
            self.next_pid() == other.next_pid(),
        ensures
            image.counter == other_image.counter,
            record_views(image.records@) == record_views(other_image.records@),
    {
        let a = record_views(image.records@);
        let b = record_views(other_image.records@);
        let rows = self.rows();
        assert(restored(image.counter, a, a.len() as int) == Some(rows));
        assert(restored(other_image.counter, b, b.len() as int) == Some(rows));
        lemma_restored_rows(image.counter, a, a.len() as int, rows);
        lemma_restored_rows(other_image.counter, b, b.len() as int, rows);
        assert forall|i: int| 0 <= i < a.len() implies b.contains(#[trigger] record_at(a, i)) by {
            assert(rows.contains_key(a[i].pid));
            let k = choose|k: int| 0 <= k < b.len() && (#[trigger] b[k]).pid == a[i].pid;
            assert(rows.contains_key(b[k].pid));
            assert(b[k] == a[i]);
        }
        assert forall|k: int| 0 <= k < b.len() implies a.contains(#[trigger] record_at(b, k)) by {
            assert(rows.contains_key(b[k].pid));
            let i = choose|i: int| 0 <= i < a.len() && (#[trigger] a[i]).pid == b[k].pid;
            assert(rows.contains_key(a[i].pid));
            assert(a[i] == b[k]);
        }
        lemma_key_order_decides(a, b);
    }

    /// Loading what was saved gives the same table back: the same records
    /// under the same keys, the same next key, an index that answers every
    /// lookup as the old one did, and no unsaved changes.
    pub proof fn lemma_round_trip(&self, image: &PhotoTableImage, loaded: &PhotoTable)
        requires
            self.wf(),
            self.saved_as(image),
            loaded.wf(),
            loaded.loaded_from(image),
        ensures
            loaded.rows() == self.rows(),
            loaded.next_pid() == self.next_pid(),
            same_lookups(loaded.index_view(), self.index_view()),
            !loaded.unsaved(),
    {
        lemma_index_determined(loaded.index_view(), self.index_view(), self.rows());
    }
}

impl TableIO for PhotoTable {
    type Image = PhotoTableImage;

    open spec fn image_rows(image: &PhotoTableImage) -> Option<Map<PID, PhotoRecordView>> {
        restored(image.counter, record_views(image.records@), image.records@.len() as int)
    }

    open spec fn saved_as(&self, image: &PhotoTableImage) -> bool {
        &&& image.counter == self.next_pid()
        &&& Self::image_rows(image) == Some(self.rows())
        &&& in_key_order(record_views(image.records@))
    }

    open spec fn loaded_from(&self, image: &PhotoTableImage) -> bool {
        &&& self.next_pid() == image.counter
        &&& Self::image_rows(image) == Some(self.rows())
        &&& !self.unsaved()
    }

    proof fn lemma_loaded_is_saved(&self, image: &PhotoTableImage) {
    }

    fn load(&mut self, loaded: Option<PhotoTableImage>) -> (done: Result<(), LoadError>) {
        proof {
            assert(self.wf());
        }
        match loaded {
            None => Ok(()),
            Some(image) => match PhotoTable::restore(image) {
                Some(table) => {
                    proof {
                        assert(table.loaded_from(&image));
                    }
                    *self = table;
                    Ok(())
                },
                None => Err(LoadError::Corrupt),
            },
        }
    }

    fn save(&self, file_exists: bool) -> (image: Option<PhotoTableImage>) {
        proof {
            assert(self.wf());
        }
        if !self.is_modified() && file_exists {
            None
        } else {
            let image = self.snapshot();
            proof {
                assert(self.saved_as(&image));
            }
            Some(image)
        }
    }
}

} // verus!
