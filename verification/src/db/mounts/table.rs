//! The mount point table itself.
use super::index::{index_matches, MountPointTableIndex};
use super::records::{
    alias_view, random_mount_id, MountId, MountPointRecord, MountPointRecordView,
    UUID_KIND_MASK, UUID_KIND_RANDOM,
};
use crate::db::helpers::index::TableIndex;
use crate::db::helpers::table::{Table, TableRecord};
use crate::db::locations::CanonicalizedPath;
use crate::util::bytes::copy_bytes;
use crate::util::keyed::{KeyModel, KeyedMap};
use crate::util::sync::AtomicFlag;
use vstd::prelude::*;

verus! {

/// The mounted directories, in the order of their paths.
pub struct MountPointTable {
    modified: AtomicFlag,
    pub(super) path2rec: KeyedMap<MountPointRecord>,
    pub(super) index: MountPointTableIndex,
}

impl MountPointTable {
    /// The index as contracts see it: the path under each identifier.
    pub closed spec fn index_view(&self) -> Map<MountId, Seq<u8>> {
        self.index@
    }

    /// What holds inside the table: every record is stored under its own
    /// path.
    pub closed spec fn inv(&self) -> bool {
        &&& self.path2rec.wf()
        &&& forall|k: KeyModel| #[trigger]
            self.path2rec@.contains_key(k) ==> k.0 == 0 && self.path2rec@[k].path@ == k.1
    }

    /// No two rows have the same identifier, and each is stored under its
    /// path.
    pub open spec fn rows_ok(rows: Map<Seq<u8>, MountPointRecordView>) -> bool {
        &&& forall|p: Seq<u8>| #[trigger] rows.contains_key(p) ==> rows[p].path == p
        &&& forall|p: Seq<u8>, q: Seq<u8>|
            rows.contains_key(p) && rows.contains_key(q) && #[trigger] rows[p].uuid
                == #[trigger] rows[q].uuid ==> p == q
    }

    /// An empty table without unsaved changes.
    pub fn new() -> (table: Self)
        ensures
            table.wf(),
            table.rows() == Map::<Seq<u8>, MountPointRecordView>::empty(),
            !table.unsaved(),
    {
        let table = MountPointTable {
            modified: AtomicFlag::new(),
            path2rec: KeyedMap::new(),
            index: MountPointTableIndex::new(),
        };
        proof {
            assert(table.rows() =~= Map::<Seq<u8>, MountPointRecordView>::empty());
        }
        table
    }
}

/// Whether two labels are the same.
pub fn alias_equal(a: &Option<String>, b: &Option<String>) -> (same: bool)
    ensures
        same == (alias_view(*a) == alias_view(*b)),
{
    match (a, b) {
        (Some(x), Some(y)) => *x == *y,
        (None, None) => true,
        _ => false,
    }
}

/// The rows after the label of the row at `path` was set to `alias`.
pub open spec fn rows_with_alias(
    rows: Map<Seq<u8>, MountPointRecordView>,
    path: Seq<u8>,
    alias: Option<Seq<char>>,
) -> Map<Seq<u8>, MountPointRecordView> {
    rows.insert(path, MountPointRecordView { alias, ..rows[path] })
}

/// What mounting `path` with the label `alias` makes of the rows, where `id`
/// is the identifier on offer for a new mount point.
///
/// A directory that is mounted already keeps its identifier, and takes the
/// label where one is given. A new directory is entered under `id`, unless a
/// mount point has that identifier already: then nothing changes.
pub open spec fn rows_after_mount(
    rows: Map<Seq<u8>, MountPointRecordView>,
    path: Seq<u8>,
    alias: Option<Seq<char>>,
    id: MountId,
) -> Map<Seq<u8>, MountPointRecordView> {
    if rows.contains_key(path) {
        if alias is Some {
            rows_with_alias(rows, path, alias)
        } else {
            rows
        }
    } else if id_in_use(rows, id) {
        rows
    } else {
        rows.insert(path, MountPointRecordView { uuid: id, path, alias })
    }
}

/// Whether a row has the identifier `id`.
pub open spec fn id_in_use(rows: Map<Seq<u8>, MountPointRecordView>, id: MountId) -> bool {
    exists|p: Seq<u8>| #[trigger] rows.contains_key(p) && rows[p].uuid == id
}

impl MountPointTable {
    /// The path of the mount point with the identifier `id`.
    pub fn path_of(&self, id: MountId) -> (path: Option<&CanonicalizedPath>)
        requires
            self.wf(),
        ensures
            path is Some == self.index_view().contains_key(id),
            path matches Some(p) ==> p@ == self.index_view()[id] && self.rows().contains_key(p@),
    {
        self.index.path_of(id)
    }

    /// What the index says of identifiers: one is in the index exactly if a
    /// row has it.
    pub proof fn lemma_index_ids(&self, id: MountId)
        requires
            self.wf(),
        ensures
            self.index_view().contains_key(id) == id_in_use(self.rows(), id),
    {
        if self.index_view().contains_key(id) {
            assert(self.rows().contains_key(self.index_view()[id]));
        }
    }

    /// The mount point with the identifier `mpid`.
    pub fn get_by_mpid(&self, mpid: MountId) -> (rec: Option<&MountPointRecord>)
        requires
            self.wf(),
        ensures
            rec is Some == id_in_use(self.rows(), mpid),
            rec matches Some(r) ==> r@.uuid == mpid && self.rows().contains_key(r@.path)
                && self.rows()[r@.path] == r@,
    {
        proof {
            self.lemma_index_ids(mpid);
        }
        match self.index.path_of(mpid) {
            Some(path) => self.get(path),
            None => None,
        }
    }

    /// All mount points in the order of their paths.
    pub fn records(&self) -> (all: Vec<&MountPointRecord>)
        requires
            self.wf(),
        ensures
            crate::db::mounts::image::listed(self.rows(), all@),
    {
        let mut all: Vec<&MountPointRecord> = Vec::new();
        let n = self.path2rec.len();
        proof {
            self.path2rec.lemma_order();
        }
        let mut i: usize = 0;
        while i < n
            invariant
                i <= n,
                n == self.path2rec.keys().len(),
                self.wf(),
                all@.len() == i,
                forall|j: int|
                    0 <= j < i ==> *(#[trigger] all@[j]) == self.path2rec.values()[j],
            decreases n - i,
        {
            let entry = self.path2rec.entry_at(i);
            all.push(&entry.value);
            i += 1;
        }
        proof {
            self.path2rec.lemma_order();
            let keys = self.path2rec.keys();
            assert forall|j: int| 0 <= j < all@.len() implies self.rows().contains_key(
                (#[trigger] all@[j])@.path,
            ) && self.rows()[all@[j]@.path] == all@[j]@ && keys[j] == (0u128, all@[j]@.path) by {
                assert(self.path2rec@.contains_key(keys[j]));
            }
            assert forall|p: Seq<u8>| #[trigger] self.rows().contains_key(p) implies exists|j: int|
                0 <= j < all@.len() && (#[trigger] all@[j])@.path == p by {
                assert(keys.contains((0u128, p)));
                let j = choose|j: int| 0 <= j < keys.len() && keys[j] == (0u128, p);
                assert(all@[j]@.path == p);
            }
            assert forall|i: int, j: int| 0 <= i < j < all@.len() implies crate::util::bytes::bytes_lt(
                (#[trigger] all@[i])@.path,
                (#[trigger] all@[j])@.path,
            ) by {
                assert(crate::util::keyed::key_lt(keys[i], keys[j]));
            }
        }
        all
    }

    /// The mount point of the directory `path`.
    pub fn get_by_path(&self, path: &CanonicalizedPath) -> (rec: Option<&MountPointRecord>)
        requires
            self.wf(),
        ensures
            rec is Some == self.rows().contains_key(path@),
            rec matches Some(r) ==> r@ == self.rows()[path@],
    {
        self.get(path)
    }

    /// Sets the label of the mount point at `key` and notes the change where
    /// the label is a new one.
    pub fn set_alias(&mut self, key: &CanonicalizedPath, alias: Option<String>)
        requires
            old(self).wf(),
            old(self).rows().contains_key(key@),
        ensures
            final(self).wf(),
            final(self).rows() == rows_with_alias(old(self).rows(), key@, alias_view(alias)),
            final(self).unsaved() == (old(self).unsaved() || alias_view(alias) != old(
                self,
            ).rows()[key@].alias),
            final(self).index_view() == old(self).index_view(),
    {
        let ghost rows = self.rows();
        match self.path2rec.remove(0, key.as_bytes()) {
            Some(rec) => {
                let mut rec = rec;
                let changed = !alias_equal(&rec.alias, &alias);
                rec.alias = alias;
                let minor = copy_bytes(key.as_bytes());
                self.path2rec.insert(0, minor, rec);
                if changed {
                    self.modified.set();
                }
                proof {
                    let next = rows_with_alias(rows, key@, alias_view(alias));
                    assert(self.rows() =~= next);
                    assert forall|p: Seq<u8>| #[trigger] next.contains_key(p) implies rows.contains_key(
                        p,
                    ) && next[p].uuid == rows[p].uuid && next[p].path == rows[p].path by {}
                    assert forall|id: MountId| #[trigger]
                        self.index_view().contains_key(id) implies next.contains_key(
                        self.index_view()[id],
                    ) && next[self.index_view()[id]].uuid == id by {
                        assert(rows.contains_key(self.index_view()[id]));
                    }
                }
            },
            None => {},
        }
    }

    /// Unmounts the mount point with the identifier `mpid`. Returns whether
    /// there was one.
    pub fn remove(&mut self, mpid: MountId) -> (removed: bool)
        requires
            old(self).wf(),
        ensures
            final(self).wf(),
            removed == id_in_use(old(self).rows(), mpid),
            removed ==> final(self).rows() == old(self).rows().remove(
                old(self).index_view()[mpid],
            ) && final(self).unsaved(),
            !removed ==> final(self).rows() == old(self).rows() && final(self).unsaved() == old(
                self,
            ).unsaved(),
    {
        proof {
            self.lemma_index_ids(mpid);
        }
        let path = match self.index.path_of(mpid) {
            Some(path) => path.duplicate(),
            None => {
                return false;
            },
        };
        Table::remove(self, &path);
        self.modified.set();
        true
    }

    /// Mounts `path` under the identifier `id`, or gives a mounted directory
    /// a new label. Returns `false`, and changes nothing, where `path` is new
    /// and `id` is taken.
    pub fn add_or_modify_with_id(
        &mut self,
        path: CanonicalizedPath,
        alias: Option<String>,
        id: MountId,
    ) -> (done: bool)
        requires
            old(self).wf(),
        ensures
            final(self).wf(),
            final(self).rows() == rows_after_mount(
                old(self).rows(),
                path@,
                alias_view(alias),
                id,
            ),
            done == (old(self).rows().contains_key(path@) || !id_in_use(old(self).rows(), id)),
            final(self).unsaved() == (old(self).unsaved() || final(self).rows() != old(
                self,
            ).rows()),
    {
        let ghost rows = self.rows();
        proof {
            self.lemma_index_ids(id);
        }
        if self.get(&path).is_some() {
            if alias.is_some() {
                self.set_alias(&path, alias);
                proof {
                    if alias_view(alias) == rows[path@].alias {
                        assert(self.rows() =~= rows);
                    } else {
                        assert(self.rows()[path@] != rows[path@]);
                    }
                }
            }
            return true;
        }
        let ghost content = MountPointRecordView { uuid: id, path: path@, alias: alias_view(alias) };
        let key = Table::insert(self, MountPointRecord::with_id(id, path, alias));
        if key.is_some() {
            self.modified.set();
            proof {
                assert(self.rows().contains_key(content.path));
                assert(!rows.contains_key(content.path));
            }
            true
        } else {
            false
        }
    }

    /// Mounts `path` under a freshly drawn identifier, or gives a mounted
    /// directory a new label. Returns `false`, and changes nothing, where
    /// `path` is new and the identifier that was drawn is taken.
    pub fn add_or_modify(&mut self, path: CanonicalizedPath, alias: Option<String>) -> (done: bool)
        requires
            old(self).wf(),
        ensures
            final(self).wf(),
            exists|id: MountId|
                {
                    &&& id & UUID_KIND_MASK == UUID_KIND_RANDOM
                    &&& #[trigger] rows_after_mount(old(self).rows(), path@, alias_view(alias), id)
                        == final(self).rows()
                    &&& done == (old(self).rows().contains_key(path@) || !id_in_use(
                        old(self).rows(),
                        id,
                    ))
                },
            final(self).unsaved() == (old(self).unsaved() || final(self).rows() != old(
                self,
            ).rows()),
    {
        let id = random_mount_id();
        let ghost shown = alias_view(alias);
        let done = self.add_or_modify_with_id(path, alias, id);
        proof {
            assert(rows_after_mount(old(self).rows(), path@, shown, id) == self.rows());
        }
        done
    }
}

impl Table for MountPointTable {
    type PrimaryKey = CanonicalizedPath;

    type Record = MountPointRecord;

    type Index = MountPointTableIndex;

    closed spec fn rows(&self) -> Map<Seq<u8>, MountPointRecordView> {
        Map::new(
            |p: Seq<u8>| self.path2rec@.contains_key((0u128, p)),
            |p: Seq<u8>| self.path2rec@[(0u128, p)]@,
        )
    }

    closed spec fn unsaved(&self) -> bool {
        self.modified@
    }

    open spec fn wf(&self) -> bool {
        &&& self.inv()
        &&& Self::rows_ok(self.rows())
        &&& index_matches(self.index_view(), self.rows())
    }

    open spec fn accepts(&self, content: MountPointRecordView) -> bool {
        &&& !self.rows().contains_key(content.path)
        &&& !self.index_view().contains_key(content.uuid)
    }

    open spec fn stored_as(&self, content: MountPointRecordView) -> MountPointRecordView {
        content
    }

    fn insert(&mut self, rec: MountPointRecord) -> (key: Option<CanonicalizedPath>) {
        proof {
            assert(self.wf());
            assert(self.accepts(rec@) == (!self.rows().contains_key(rec@.path)
                && !self.index_view().contains_key(rec@.uuid)));
            assert(self.stored_as(rec@) == rec@);
            assert(MountPointRecord::key_of(rec@) == rec@.path);
        }
        if self.path2rec.contains_key(0, rec.path.as_bytes()) {
            return None;
        }
        if self.index.path_of(rec.uuid).is_some() {
            return None;
        }
        let ghost rows = self.rows();
        let ghost content = rec@;
        proof {
            assert forall|p: Seq<u8>| #[trigger] rows.contains_key(p) implies rows[p].uuid
                != content.uuid by {}
        }
        self.index.insert(&rec, Ghost(rows));
        let key = rec.path.duplicate();
        let minor = copy_bytes(rec.path.as_bytes());
        self.path2rec.insert(0, minor, rec);
        proof {
            assert(self.rows() =~= rows.insert(content.path, content));
        }
        Some(key)
    }

    fn remove(&mut self, key: &CanonicalizedPath) -> (rec: Option<MountPointRecord>) {
        proof {
            assert(self.wf());
        }
        let ghost rows = self.rows();
        match self.path2rec.remove(0, key.as_bytes()) {
            Some(rec) => {
                proof {
                    assert(MountPointRecord::key_of(rec@) == rec@.path);
                }
                self.index.remove(&rec, Ghost(rows));
                proof {
                    assert(self.rows() =~= rows.remove(key@));
                }
                Some(rec)
            },
            None => {
                proof {
                    assert(self.rows() =~= rows.remove(key@));
                }
                None
            },
        }
    }

    fn get(&self, key: &CanonicalizedPath) -> (rec: Option<&MountPointRecord>) {
        proof {
            assert(self.wf());
        }
        self.path2rec.get(0, key.as_bytes())
    }

    fn is_modified(&self) -> (unsaved: bool) {
        self.modified.get()
    }

    fn set_modified(&mut self, unsaved: bool) {
        if unsaved {
            self.modified.set();
        } else {
            self.modified.clear();
        }
    }
}

} // verus!
