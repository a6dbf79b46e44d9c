//! The list command: the photos of all mount points, or of one.
use crate::db::helpers::access::TableAccess;
use crate::db::helpers::table::Table;
use crate::db::mounts::records::MountId;
use crate::db::photos::misc::PID;
use crate::db::photos::records::{PhotoRecord, PhotoRecordView};
use crate::db::photos::table::{listed, PhotoTable};
use vstd::prelude::*;

verus! {

/// Whether a record is to be listed: it lies below the mount point that was
/// asked for, if one was.
pub open spec fn wanted(rec: PhotoRecordView, mpid: Option<MountId>) -> bool {
    match mpid {
        Some(id) => rec.location.0 == id,
        None => true,
    }
}

/// Whether a list holds the wanted records of the rows, each once, in the
/// rising order of their keys.
pub open spec fn listing(
    rows: Map<PID, PhotoRecordView>,
    mpid: Option<MountId>,
    shown: Seq<&PhotoRecord>,
) -> bool {
    &&& forall|j: int|
        0 <= j < shown.len() ==> rows.contains_key((#[trigger] shown[j])@.pid)
            && rows[shown[j]@.pid] == shown[j]@ && wanted(shown[j]@, mpid)
    &&& forall|pid: PID| #[trigger]
        rows.contains_key(pid) && wanted(rows[pid], mpid) ==> exists|j: int|
            0 <= j < shown.len() && (#[trigger] shown[j])@.pid == pid
    &&& forall|i: int, j: int|
        0 <= i < j < shown.len() ==> (#[trigger] shown[i])@.pid < (#[trigger] shown[j])@.pid
}

/// The list command with what it was given.
pub struct List {
    pub mpid: Option<MountId>,
}

impl List {
    /// The records to list.
    pub fn run<'a>(&self, pt: &TableAccess<'a, PhotoTable>) -> (shown: Vec<&'a PhotoRecord>)
        requires
            pt.table.wf(),
        ensures
            listing(pt.table.rows(), self.mpid, shown@),
    {
        let all = pt.table.records();
        let ghost rows = pt.table.rows();
        let mut shown: Vec<&'a PhotoRecord> = Vec::new();
        let ghost from: Seq<int> = Seq::empty();
        let mut i: usize = 0;
        while i < all.len()
            invariant
                i <= all.len(),
                listed(rows, all@),
                from.len() == shown@.len(),
                forall|j: int|
                    0 <= j < shown@.len() ==> 0 <= #[trigger] from[j] < i && shown@[j]
                        == all@[from[j]] && wanted(shown@[j]@, self.mpid),
                forall|a: int, b: int|
                    0 <= a < b < from.len() ==> #[trigger] from[a] < #[trigger] from[b],
                forall|k: int|
                    0 <= k < i && wanted((#[trigger] all@[k])@, self.mpid) ==> exists|j: int|
                        0 <= j < shown@.len() && #[trigger] from[j] == k,
            decreases all.len() - i,
        {
            let rec = all[i];
            let keep = match self.mpid {
                Some(id) => rec.location.mpid == id,
                None => true,
            };
            if keep {
                let ghost old_from = from;
                shown.push(rec);
                proof {
                    from = from.push(i as int);
                    assert(wanted(rec@, self.mpid));
                    assert forall|j: int| 0 <= j < shown@.len() implies 0 <= #[trigger] from[j] < i
                        + 1 && shown@[j] == all@[from[j]] && wanted(shown@[j]@, self.mpid) by {
                        if j < old_from.len() {
                            assert(from[j] == old_from[j]);
                        }
                    }
                    assert forall|a: int, b: int| 0 <= a < b < from.len() implies #[trigger] from[a]
                        < #[trigger] from[b] by {
                        assert(from[a] == old_from[a]);
                        if b < old_from.len() {
                            assert(from[b] == old_from[b]);
                        }
                    }
                    assert forall|k: int|
                        0 <= k < i + 1 && wanted((#[trigger] all@[k])@, self.mpid) implies exists|
                        j: int,
                    | 0 <= j < shown@.len() && #[trigger] from[j] == k by {
                        if k < i {
                            let j = choose|j: int|
                                0 <= j < old_from.len() && #[trigger] old_from[j] == k;
                            assert(from[j] == k);
                        } else {
                            assert(from[shown@.len() - 1] == k);
                        }
                    }
                }
            }
            i += 1;
        }
        proof {
            assert forall|j: int| 0 <= j < shown@.len() implies rows.contains_key(
                (#[trigger] shown@[j])@.pid,
            ) && rows[shown@[j]@.pid] == shown@[j]@ && wanted(shown@[j]@, self.mpid) by {
                assert(shown@[j] == all@[from[j]]);
            }
            assert forall|pid: PID| #[trigger] rows.contains_key(pid) && wanted(
                rows[pid],
                self.mpid,
            ) implies exists|j: int| 0 <= j < shown@.len() && (#[trigger] shown@[j])@.pid == pid by {
                let k = choose|k: int| 0 <= k < all@.len() && (#[trigger] all@[k])@.pid == pid;
                let j = choose|j: int| 0 <= j < shown@.len() && #[trigger] from[j] == k;
                assert(shown@[j]@.pid == pid);
            }
            assert forall|a: int, b: int| 0 <= a < b < shown@.len() implies (#[trigger] shown@[a])@.pid
                < (#[trigger] shown@[b])@.pid by {
                assert(from[a] < from[b]);
                assert(shown@[a] == all@[from[a]] && shown@[b] == all@[from[b]]);
            }
        }
        shown
    }
}

} // verus!
