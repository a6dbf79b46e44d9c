//! The keys that a mount point is looked up by: its path and its identifier.
use super::records::MountId;
use super::table::MountPointTable;
use crate::db::helpers::handle::{Slot, TableHandle};
use crate::db::helpers::table::{Table, TableKey};
use crate::db::locations::CanonicalizedPath;
use vstd::prelude::*;

verus! {

impl TableKey<MountPointTable> for CanonicalizedPath {
    open spec fn leads_to(&self, table: &MountPointTable) -> Option<Seq<u8>> {
        if table.rows().contains_key(self@) {
            Some(self@)
        } else {
            None
        }
    }

    fn query_in(&self, table: &MountPointTable) -> (handle: TableHandle<MountPointTable>) {
        proof {
            assert(table.wf());
            assert(self.leads_to(table) is Some == table.rows().contains_key(self@));
        }
        if table.get(self).is_some() {
            TableHandle(Some(Slot::Occupied(self.duplicate())))
        } else {
            TableHandle(Some(Slot::Vacant(self.duplicate())))
        }
    }
}

impl TableKey<MountPointTable> for MountId {
    open spec fn leads_to(&self, table: &MountPointTable) -> Option<Seq<u8>> {
        if table.index_view().contains_key(*self) {
            Some(table.index_view()[*self])
        } else {
            None
        }
    }

    fn query_in(&self, table: &MountPointTable) -> (handle: TableHandle<MountPointTable>) {
        proof {
            assert(table.wf());
            assert(self.leads_to(table) is Some == table.index_view().contains_key(*self));
        }
        match table.path_of(*self) {
            Some(path) => path.query_in(table),
            None => TableHandle::missing(),
        }
    }
}

} // verus!
