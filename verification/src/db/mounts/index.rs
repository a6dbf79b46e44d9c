//! The index of the mount point table: from identifier to path.
use super::records::{MountId, MountPointRecord, MountPointRecordView};
use crate::db::helpers::index::TableIndex;
use crate::db::helpers::table::TableRecord;
use crate::db::locations::CanonicalizedPath;
use std::collections::HashMap;
use vstd::prelude::*;

verus! {

broadcast use vstd::std_specs::hash::group_hash_axioms;

/// Finds the path of a mount point by its identifier.
pub struct MountPointTableIndex {
    pub(super) uuid2path: HashMap<MountId, CanonicalizedPath>,
}

impl View for MountPointTableIndex {
    type V = Map<MountId, Seq<u8>>;

    closed spec fn view(&self) -> Map<MountId, Seq<u8>> {
        self.uuid2path@.map_values(|p: CanonicalizedPath| p@)
    }
}

/// Whether an index content is what the rows call for: it knows the
/// identifier of every row and no other, each with the row's path.
pub open spec fn index_matches(
    index: Map<MountId, Seq<u8>>,
    rows: Map<Seq<u8>, MountPointRecordView>,
) -> bool {
    &&& forall|id: MountId| #[trigger]
        index.contains_key(id) ==> rows.contains_key(index[id]) && rows[index[id]].uuid == id
    &&& forall|p: Seq<u8>| #[trigger]
        rows.contains_key(p) ==> index.contains_key(rows[p].uuid) && index[rows[p].uuid] == p
}

/// Two indices that match the same rows are equal.
pub proof fn lemma_index_determined(
    a: Map<MountId, Seq<u8>>,
    b: Map<MountId, Seq<u8>>,
    rows: Map<Seq<u8>, MountPointRecordView>,
)
    requires
        index_matches(a, rows),
        index_matches(b, rows),
    ensures
        a == b,
{
    assert forall|id: MountId| a.contains_key(id) == b.contains_key(id) by {
        if a.contains_key(id) {
            assert(rows.contains_key(a[id]));
        }
        if b.contains_key(id) {
            assert(rows.contains_key(b[id]));
        }
    }
    assert forall|id: MountId| a.contains_key(id) implies a[id] == b[id] by {
        assert(rows.contains_key(a[id]));
    }
    assert(a =~= b);
}

impl MountPointTableIndex {
    /// An index of no rows.
    pub fn new() -> (index: Self)
        ensures
            index@ == Map::<MountId, Seq<u8>>::empty(),
    {
        let index = MountPointTableIndex { uuid2path: HashMap::new() };
        proof {
            assert(index@ =~= Map::<MountId, Seq<u8>>::empty());
        }
        index
    }

    /// The path that an identifier stands for.
    pub fn path_of(&self, id: MountId) -> (path: Option<&CanonicalizedPath>)
        ensures
            path is Some == self@.contains_key(id),
            path matches Some(p) ==> p@ == self@[id],
    {
        self.uuid2path.get(&id)
    }
}

impl Default for MountPointTableIndex {
    fn default() -> (index: Self)
        ensures
            index@ == Map::<MountId, Seq<u8>>::empty(),
    {
        MountPointTableIndex::new()
    }
}

impl TableIndex for MountPointTableIndex {
    type Record = MountPointRecord;

    open spec fn reflects(&self, rows: Map<Seq<u8>, MountPointRecordView>) -> bool {
        index_matches(self@, rows)
    }

    open spec fn admits(
        rows: Map<Seq<u8>, MountPointRecordView>,
        content: MountPointRecordView,
    ) -> bool {
        forall|p: Seq<u8>| #[trigger] rows.contains_key(p) ==> rows[p].uuid != content.uuid
    }

    fn insert(
        &mut self,
        rec: &MountPointRecord,
        Ghost(rows): Ghost<Map<Seq<u8>, MountPointRecordView>>,
    ) {
        proof {
            assert(self.reflects(rows));
            assert(index_matches(self@, rows));
            assert(Self::admits(rows, rec@));
        }
        self.uuid2path.insert(rec.uuid, rec.path.duplicate());
        proof {
            assert(MountPointRecord::key_of(rec@) == rec@.path);
            let next = rows.insert(rec@.path, rec@);
            assert(self@ =~= old(self)@.insert(rec.uuid, rec@.path));
            assert forall|id: MountId| #[trigger] self@.contains_key(id) implies next.contains_key(
                self@[id],
            ) && next[self@[id]].uuid == id by {
                if id != rec.uuid {
                    assert(old(self)@.contains_key(id));
                }
            }
            assert forall|p: Seq<u8>| #[trigger] next.contains_key(p) implies self@.contains_key(
                next[p].uuid,
            ) && self@[next[p].uuid] == p by {
                if p != rec@.path {
                    assert(rows.contains_key(p));
                }
            }
        }
    }

    fn remove(
        &mut self,
        rec: &MountPointRecord,
        Ghost(rows): Ghost<Map<Seq<u8>, MountPointRecordView>>,
    ) {
        proof {
            assert(self.reflects(rows));
            assert(index_matches(self@, rows));
        }
        self.uuid2path.remove(&rec.uuid);
        proof {
            assert(MountPointRecord::key_of(rec@) == rec@.path);
            let next = rows.remove(rec@.path);
            assert(self@ =~= old(self)@.remove(rec.uuid));
            assert(rows.contains_key(rec@.path));
            assert forall|id: MountId| #[trigger] self@.contains_key(id) implies next.contains_key(
                self@[id],
            ) && next[self@[id]].uuid == id by {
                assert(old(self)@.contains_key(id));
            }
            assert forall|p: Seq<u8>| #[trigger] next.contains_key(p) implies self@.contains_key(
                next[p].uuid,
            ) && self@[next[p].uuid] == p by {
                assert(rows.contains_key(p));
            }
        }
    }
}

} // verus!
