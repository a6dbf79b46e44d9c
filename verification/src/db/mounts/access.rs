//! Access to the mount point table.
use super::patch::MountPointRecordPatch;
use super::records::{
    alias_view, MountId, MountPointRecord, MountPointRecordView, UUID_KIND_MASK, UUID_KIND_RANDOM,
};
use super::table::{id_in_use, rows_after_mount, MountPointTable};
use crate::db::helpers::access::{TableAccess, TableAccessMut};
use crate::db::helpers::entry::{TableEntry, TableEntryTrait};
use crate::db::helpers::patch::TableRecordPatch;
use crate::db::helpers::table::{Table, TableRecord};
use crate::db::locations::CanonicalizedPath;
use crate::db::mounts::image::MountPointTableImage;
use crate::util::persist::{must_write, LoadError, TableIO};
use vstd::prelude::*;

verus! {

impl<'b> TableEntryTrait<'b, MountPointTable> for TableEntry<'b, MountPointTable> {
    type Patch = MountPointRecordPatch<'b>;
}

impl<'b> TableEntry<'b, MountPointTable> {
    /// A patch of the record that was found; without a record the entry
    /// comes back.
    pub fn modify(self) -> (patch: Result<MountPointRecordPatch<'b>, Self>)
        requires
            self.table.wf(),
            self.found() matches Some(k) ==> self.table.rows().contains_key(k),
        ensures
            patch is Ok == self.found() is Some,
            match patch {
                Ok(p) => {
                    &&& Some(p.key@) == self.found()
                    &&& alias_view(p.alias) == old(self.table).rows()[p.key@].alias
                    &&& *p.table == *old(self.table)
                    &&& *final(p.table) == *final(self.table)
                },
                Err(e) => {
                    &&& e.handle == self.handle
                    &&& *e.table == *old(self.table)
                    &&& *final(e.table) == *final(self.table)
                },
            },
    {
        let TableEntry { handle, table } = self;
        match handle.0 {
            Some(crate::db::helpers::handle::Slot::Occupied(key)) => Ok(
                MountPointRecordPatch::new(key, table),
            ),
            other => Err(TableEntry { handle: crate::db::helpers::handle::TableHandle(other), table }),
        }
    }
}

impl<'b> TableEntry<'b, MountPointTable> {
    /// A patch of the record that was found. Without a record, `make` makes
    /// one, which is entered in the table before it is patched; where the
    /// table does not take it, because its path or its identifier is in
    /// use, the entry comes back and the table stays as it is.
    pub fn or_insert_with<F: FnOnce() -> MountPointRecord>(self, make: F) -> (patch: Result<
        MountPointRecordPatch<'b>,
        Self,
    >)
        requires
            self.table.wf(),
            self.found() matches Some(k) ==> self.table.rows().contains_key(k),
            self.found() is None ==> make.requires(()),
        ensures
            match self.found() {
                Some(k) => {
                    &&& patch matches Ok(p)
                    &&& p.key@ == k
                    &&& alias_view(p.alias) == old(self.table).rows()[k].alias
                    &&& *p.table == *old(self.table)
                    &&& *final(p.table) == *final(self.table)
                },
                None => exists|rec: MountPointRecord| #[trigger]
                    make.ensures((), rec) && (match patch {
                        Ok(p) => {
                            &&& old(self.table).accepts(rec@)
                            &&& p.key@ == rec@.path
                            &&& alias_view(p.alias) == rec@.alias
                            &&& p.table.wf()
                            &&& p.table.rows() == old(self.table).rows().insert(rec@.path, rec@)
                            &&& p.table.unsaved()
                            &&& *final(p.table) == *final(self.table)
                        },
                        Err(e) => {
                            &&& !old(self.table).accepts(rec@)
                            &&& e.handle == self.handle
                            &&& *e.table == *old(self.table)
                            &&& *final(e.table) == *final(self.table)
                        },
                    }),
            },
    {
        match self.modify() {
            Ok(patch) => Ok(patch),
            Err(entry) => {
                let rec = make();
                let ghost content = rec@;
                let TableEntry { handle, table } = entry;
                proof {
                    assert(MountPointRecord::key_of(content) == content.path);
                    assert(table.stored_as(content) == content);
                }
                if table.get(&rec.path).is_some() || table.path_of(rec.uuid).is_some() {
                    return Err(TableEntry { handle, table });
                }
                match table.insert(rec) {
                    Some(key) => {
                        table.set_modified(true);
                        Ok(MountPointRecordPatch::new(key, table))
                    },
                    None => Err(TableEntry { handle, table }),
                }
            },
        }
    }
}

impl<'a> TableAccessMut<'a, MountPointTable> {
    /// Mounts `path`, or gives a mounted directory the label `alias` where
    /// one is given. Returns `false`, and changes nothing, where `path` is
    /// new and the identifier that was drawn for it is taken.
    pub fn insert_or_update(&mut self, path: CanonicalizedPath, alias: Option<String>) -> (done:
        bool)
        requires
            old(self).table.wf(),
        ensures
            *final(final(self).table) == *final(old(self).table),
            final(self).table.wf(),
            exists|id: MountId|
                {
                    &&& id & UUID_KIND_MASK == UUID_KIND_RANDOM
                    &&& #[trigger] rows_after_mount(
                        old(self).table.rows(),
                        path@,
                        alias_view(alias),
                        id,
                    ) == final(self).table.rows()
                    &&& done == (old(self).table.rows().contains_key(path@) || !id_in_use(
                        old(self).table.rows(),
                        id,
                    ))
                },
            final(self).table.unsaved() == (old(self).table.unsaved() || final(self).table.rows()
                != old(self).table.rows()),
    {
        let ghost before = *self.table;
        let ghost name = path@;
        let ghost label = alias_view(alias);
        let key = path.duplicate();
        let make = || -> (rec: MountPointRecord)
            ensures
                rec@.path == name,
                rec@.alias is None,
                rec@.uuid & UUID_KIND_MASK == UUID_KIND_RANDOM,
            { MountPointRecord::new(path, None) };
        match self.entry(key).or_insert_with(make) {
            Ok(patch) => {
                let ghost entered = *patch.table;
                let ghost id = entered.rows()[name].uuid;
                let relabel = |current: Option<String>| -> (next: Option<String>)
                    ensures
                        next == (if alias is Some {
                            alias
                        } else {
                            current
                        }),
                    {
                        if alias.is_some() {
                            alias
                        } else {
                            current
                        }
                    };
                patch.set_alias_with(relabel).commit();
                proof {
                    if before.rows().contains_key(name) {
                        if label is None || label == before.rows()[name].alias {
                            assert(self.table.rows() =~= before.rows());
                        } else {
                            assert(self.table.rows()[name] != before.rows()[name]);
                        }
                        assert(UUID_KIND_RANDOM & UUID_KIND_MASK == UUID_KIND_RANDOM)
                            by (bit_vector);
                        assert(rows_after_mount(before.rows(), name, label, UUID_KIND_RANDOM)
                            == self.table.rows());
                    } else {
                        before.lemma_index_ids(id);
                        assert(self.table.rows().contains_key(name));
                        assert(self.table.rows() =~= before.rows().insert(
                            name,
                            MountPointRecordView { uuid: id, path: name, alias: label },
                        ));
                        assert(rows_after_mount(before.rows(), name, label, id)
                            == self.table.rows());
                    }
                }
                true
            },
            Err(entry) => {
                entry.release();
                proof {
                    let rec = choose|rec: MountPointRecord|
                        make.ensures((), rec) && !before.accepts(rec@);
                    before.lemma_index_ids(rec@.uuid);
                    assert(rows_after_mount(before.rows(), name, label, rec@.uuid)
                        == self.table.rows());
                }
                false
            },
        }
    }
}

/// Read access to a mount point table.
pub fn mpt_access<'a>(table: &'a MountPointTable) -> (handle: TableAccess<'a, MountPointTable>)
    ensures
        *handle.table == *table,
{
    TableAccess { table }
}

/// Exclusive access to a mount point table.
pub fn mpt_access_mut<'a>(table: &'a mut MountPointTable) -> (handle: TableAccessMut<
    'a,
    MountPointTable,
>)
    ensures
        *handle.table == *old(table),
        *final(handle.table) == *final(table),
{
    TableAccessMut { table }
}

/// Takes the content of its file, where there is one, for the content of
/// the mount point table.
pub fn initialize_mountpoint_table(
    table: &mut MountPointTable,
    loaded: Option<MountPointTableImage>,
) -> (done: Result<(), LoadError>)
    requires
        old(table).wf(),
    ensures
        final(table).wf(),
        match loaded {
            None => done is Ok && *final(table) == *old(table),
            Some(image) => match MountPointTable::image_rows(&image) {
                Some(rows) => {
                    &&& done is Ok
                    &&& final(table).rows() == rows
                    &&& !final(table).unsaved()
                },
                None => {
                    &&& done == Err::<(), LoadError>(LoadError::Corrupt)
                    &&& *final(table) == *old(table)
                },
            },
        },
{
    table.load(loaded)
}

/// Hands out what is to be written of the mount point table, or nothing
/// where it has no unsaved changes and its file exists.
pub fn finalize_mountpoint_table(table: &MountPointTable, file_exists: bool) -> (image: Option<
    MountPointTableImage,
>)
    requires
        table.wf(),
    ensures
        image is Some == must_write(table.unsaved(), file_exists),
        image matches Some(written) ==> MountPointTable::image_rows(&written) == Some(
            table.rows(),
        ),
{
    table.save(file_exists)
}

} // verus!
