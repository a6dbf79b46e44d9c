//! The mount point table as it is written to its file: the records in the
//! order of their paths, without the index.
use super::index::lemma_index_determined;
use super::records::{MountPointRecord, MountPointRecordView};
use super::table::{id_in_use, MountPointTable};
use crate::db::helpers::table::Table;
use crate::util::persist::{LoadError, TableIO};
use vstd::prelude::*;

verus! {

/// What the file of a mount point table holds.
pub struct MountPointTableImage {
    pub records: Vec<MountPointRecord>,
}

/// The contents of a list of records.
pub open spec fn record_views(records: Seq<MountPointRecord>) -> Seq<MountPointRecordView> {
    records.map_values(|rec: MountPointRecord| rec@)
}

/// Whether a record can join the rows: neither its path nor its identifier
/// is taken.
pub open spec fn fits(rows: Map<Seq<u8>, MountPointRecordView>, rec: MountPointRecordView) -> bool {
    !rows.contains_key(rec.path) && !id_in_use(rows, rec.uuid)
}

/// The rows that the first `n` records make, each under its own path, where
/// every one of them fits with those before it.
pub open spec fn restored(records: Seq<MountPointRecordView>, n: int) -> Option<
    Map<Seq<u8>, MountPointRecordView>,
>
    decreases n,
{
    if n <= 0 {
        Some(Map::empty())
    } else {
        match restored(records, n - 1) {
            Some(rows) => if fits(rows, records[n - 1]) {
                Some(rows.insert(records[n - 1].path, records[n - 1]))
            } else {
                None
            },
            None => None,
        }
    }
}

/// Records that do not fit together do not come to fit by more records.
pub proof fn lemma_restored_fails(records: Seq<MountPointRecordView>, k: int, n: int)
    requires
        0 <= k <= n,
        restored(records, k) is None,
    ensures
        restored(records, n) is None,
    decreases n - k,
{
    if k < n {
        lemma_restored_fails(records, k, n - 1);
    }
}

/// What the first `n` records make depends on these records alone.
pub proof fn lemma_restored_prefix(
    a: Seq<MountPointRecordView>,
    b: Seq<MountPointRecordView>,
    n: int,
)
    requires
        0 <= n <= a.len(),
        n <= b.len(),
        forall|i: int| 0 <= i < n ==> a[i] == b[i],
    ensures
        restored(a, n) == restored(b, n),
    decreases n,
{
    if n > 0 {
        lemma_restored_prefix(a, b, n - 1);
    }
}

impl MountPointTable {
    /// The table of the records of an image, with its index built anew;
    /// `None` where the records do not fit together.
    pub fn restore(image: MountPointTableImage) -> (table: Option<MountPointTable>)
        ensures
            table is Some == MountPointTable::image_rows(&image) is Some,
            table matches Some(t) ==> t.wf() && t.loaded_from(&image),
    {
        let ghost shown = record_views(image.records@);
        let mut table = MountPointTable::new();
        for rec in it: image.records
            invariant
                shown == record_views(it.seq()),
                shown == record_views(image.records@),
                table.wf(),
                !table.unsaved(),
                restored(shown, it.index()) == Some(table.rows()),
        {
            let ghost i = it.index();
            let ghost content = rec@;
            proof {
                assert(shown[i] == content);
                table.lemma_index_ids(content.uuid);
                assert(table.accepts(content) == fits(table.rows(), content));
            }
            match table.insert(rec) {
                Some(_) => {
                    proof {
                        assert(table.rows() == restored(shown, i + 1)->0);
                    }
                },
                None => {
                    proof {
                        assert(restored(shown, i + 1) is None);
                        lemma_restored_fails(shown, i + 1, shown.len() as int);
                    }
                    return None;
                },
            }
        }
        Some(table)
    }

    /// The records in the order of their paths.
    pub fn snapshot(&self) -> (image: MountPointTableImage)
        requires
            self.wf(),
        ensures
            MountPointTable::image_rows(&image) == Some(self.rows()),
            self.saved_as(&image),
    {
        let all = self.records();
        let mut records: Vec<MountPointRecord> = Vec::new();
        let ghost acc: Map<Seq<u8>, MountPointRecordView> = Map::empty();
        let mut i: usize = 0;
        while i < all.len()
            invariant
                i <= all.len(),
                self.wf(),
                listed(self.rows(), all@),
                records@.len() == i,
                restored(record_views(records@), i as int) == Some(acc),
                forall|p: Seq<u8>|
                    acc.contains_key(p) <==> exists|j: int| 0 <= j < i && all@[j]@.path == p,
                forall|p: Seq<u8>| #[trigger]
                    acc.contains_key(p) ==> self.rows().contains_key(p) && acc[p]
                        == self.rows()[p],
            decreases all.len() - i,
        {
            let ghost before = record_views(records@);
            let rec = all[i].duplicate();
            let ghost content = rec@;
            records.push(rec);
            proof {
                let after = record_views(records@);
                assert(after[i as int] == content);
                lemma_restored_prefix(before, after, i as int);
                assert(self.rows().contains_key(all@[i as int]@.path));
                assert(!acc.contains_key(content.path)) by {
                    if acc.contains_key(content.path) {
                        let j = choose|j: int| 0 <= j < i && all@[j]@.path == content.path;
                        assert(crate::util::bytes::bytes_lt(all@[j]@.path, all@[i as int]@.path));
                        crate::util::bytes::lemma_bytes_lt_irreflexive(content.path);
                    }
                }
                assert(!id_in_use(acc, content.uuid)) by {
                    if id_in_use(acc, content.uuid) {
                        let p = choose|p: Seq<u8>| #[trigger]
                            acc.contains_key(p) && acc[p].uuid == content.uuid;
                        assert(self.rows().contains_key(p));
                        assert(self.rows()[p].uuid == self.rows()[content.path].uuid);
                    }
                }
                acc = acc.insert(content.path, content);
                assert forall|p: Seq<u8>|
                    acc.contains_key(p) <==> exists|j: int| 0 <= j < i + 1 && all@[j]@.path
                        == p by {
                    if acc.contains_key(p) && p != content.path {
                        let j = choose|j: int| 0 <= j < i && all@[j]@.path == p;
                        assert(0 <= j < i + 1 && all@[j]@.path == p);
                    }
                    if exists|j: int| 0 <= j < i + 1 && all@[j]@.path == p {
                        let j = choose|j: int| 0 <= j < i + 1 && all@[j]@.path == p;
                        if j < i {
                            assert(0 <= j < i && all@[j]@.path == p);
                        }
                    }
                }
            }
            i += 1;
        }
        proof {
            assert forall|p: Seq<u8>| self.rows().contains_key(p) implies acc.contains_key(p) by {
                let j = choose|j: int| 0 <= j < all@.len() && (#[trigger] all@[j])@.path == p;
                assert(0 <= j < i && all@[j]@.path == p);
            }
            assert(acc =~= self.rows());
        }
        MountPointTableImage { records }
    }

    /// Loading what was saved gives the same table back: the same records
    /// under the same paths, the same index, and no unsaved changes.
    pub proof fn lemma_round_trip(&self, image: &MountPointTableImage, loaded: &MountPointTable)
        requires
            self.wf(),
            self.saved_as(image),
            loaded.wf(),
            loaded.loaded_from(image),
        ensures
            loaded.rows() == self.rows(),
            loaded.index_view() == self.index_view(),
            !loaded.unsaved(),
    {
        lemma_index_determined(loaded.index_view(), self.index_view(), self.rows());
    }
}

/// Whether a list holds the records of the rows, each once, in the order of
/// their paths.
pub open spec fn listed(rows: Map<Seq<u8>, MountPointRecordView>, all: Seq<&MountPointRecord>) -> bool {
    &&& forall|j: int|
        0 <= j < all.len() ==> rows.contains_key((#[trigger] all[j])@.path) && rows[all[j]@.path]
            == all[j]@
    &&& forall|p: Seq<u8>| #[trigger]
        rows.contains_key(p) ==> exists|j: int| 0 <= j < all.len() && (#[trigger] all[j])@.path == p
    &&& forall|i: int, j: int|
        0 <= i < j < all.len() ==> crate::util::bytes::bytes_lt(
            (#[trigger] all[i])@.path,
            (#[trigger] all[j])@.path,
        )
}

impl TableIO for MountPointTable {
    type Image = MountPointTableImage;

    open spec fn image_rows(image: &MountPointTableImage) -> Option<
        Map<Seq<u8>, MountPointRecordView>,
    > {
        restored(record_views(image.records@), image.records@.len() as int)
    }

    open spec fn saved_as(&self, image: &MountPointTableImage) -> bool {
        Self::image_rows(image) == Some(self.rows())
    }

    open spec fn loaded_from(&self, image: &MountPointTableImage) -> bool {
        Self::image_rows(image) == Some(self.rows()) && !self.unsaved()
    }

    proof fn lemma_loaded_is_saved(&self, image: &MountPointTableImage) {
    }

    fn load(&mut self, loaded: Option<MountPointTableImage>) -> (done: Result<(), LoadError>) {
        proof {
            assert(self.wf());
        }
        match loaded {
            None => Ok(()),
            Some(image) => match MountPointTable::restore(image) {
                Some(table) => {
                    proof {
                        assert(table.loaded_from(&image));
                    }
                    *self = table;
                    Ok(())
                },
                None => Err(LoadError::Corrupt),
            },
        }
    }

    fn save(&self, file_exists: bool) -> (image: Option<MountPointTableImage>) {
        proof {
            assert(self.wf());
        }
        if !self.is_modified() && file_exists {
            None
        } else {
            let image = self.snapshot();
            proof {
                assert(self.saved_as(&image));
            }
            Some(image)
        }
    }
}

} // verus!
