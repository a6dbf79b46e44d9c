//! The patch of a mount point record: a new label.
use super::records::alias_view;
use super::table::{rows_with_alias, MountPointTable};
use crate::db::helpers::patch::TableRecordPatch;
use crate::db::helpers::table::Table;
use crate::db::locations::CanonicalizedPath;
use crate::db::mounts::records::copy_alias;
use vstd::prelude::*;

verus! {

/// A label that waits to be written to the record under `key`.
pub struct MountPointRecordPatch<'b> {
    pub key: CanonicalizedPath,
    pub alias: Option<String>,
    pub table: &'b mut MountPointTable,
}

impl<'b> TableRecordPatch for MountPointRecordPatch<'b> {
    type Table = MountPointTable;

    open spec fn attached(&self) -> bool {
        self.table.wf() && self.table.rows().contains_key(self.key@)
    }

    fn commit(self)
        ensures
            final(self.table).wf(),
            final(self.table).rows() == rows_with_alias(
                old(self.table).rows(),
                self.key@,
                alias_view(self.alias),
            ),
            final(self.table).unsaved() == (old(self.table).unsaved() || alias_view(self.alias)
                != old(self.table).rows()[self.key@].alias),
    {
        self.table.set_alias(&self.key, self.alias);
    }
}

impl<'b> MountPointRecordPatch<'b> {
    /// Starts a patch of the record under `key`; the label that waits is the
    /// one that the record has.
    pub fn new(key: CanonicalizedPath, table: &'b mut MountPointTable) -> (patch: Self)
        requires
            old(table).wf(),
            old(table).rows().contains_key(key@),
        ensures
            patch.key@ == key@,
            alias_view(patch.alias) == old(table).rows()[key@].alias,
            *patch.table == *old(table),
            *final(patch.table) == *final(table),
    {
        let alias = match table.get(&key) {
            Some(rec) => copy_alias(&rec.alias),
            None => None,
        };
        MountPointRecordPatch { key, alias, table }
    }

    /// The label that the record will have.
    pub fn alias(&self) -> (alias: &Option<String>)
        ensures
            *alias == self.alias,
    {
        &self.alias
    }

    /// Replaces the label that waits.
    pub fn set_alias(self, alias: Option<String>) -> (patch: Self)
        ensures
            patch.key == self.key,
            patch.alias == alias,
            *patch.table == *old(self.table),
            *final(patch.table) == *final(self.table),
    {
        MountPointRecordPatch { key: self.key, alias, table: self.table }
    }

    /// Replaces the label that waits by what `f` makes of it.
    pub fn set_alias_with<F: FnOnce(Option<String>) -> Option<String>>(self, f: F) -> (patch: Self)
        requires
            f.requires((self.alias,)),
        ensures
            patch.key == self.key,
            f.ensures((self.alias,), patch.alias),
            *patch.table == *old(self.table),
            *final(patch.table) == *final(self.table),
    {
        let alias = f(self.alias);
        MountPointRecordPatch { key: self.key, alias, table: self.table }
    }

    /// Drops the patch; the table stays as it is.
    pub fn discard(self)
        ensures
            *final(self.table) == *old(self.table),
    {
    }
}

} // verus!
