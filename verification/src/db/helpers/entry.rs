//! The entry that a key leads to: a record that can be patched or removed,
//! or a vacancy.
use super::handle::TableHandle;
use super::patch::TableRecordPatch;
use super::table::{Table, TableKey};
use vstd::prelude::*;

verus! {

/// What a key led to in a table that is borrowed exclusively.
pub struct TableEntry<'b, T: Table> {
    pub handle: TableHandle<T>,
    pub table: &'b mut T,
}

/// Names the kind of patch that the entries of a table are changed through.
pub trait TableEntryTrait<'b, T: Table> {
    type Patch: TableRecordPatch<Table = T>;
}

impl<'b, T: Table> TableEntry<'b, T> {
    /// The primary key of the record that the key led to.
    pub open spec fn found(&self) -> Option<<T::PrimaryKey as View>::V> {
        self.handle.found()
    }

    /// Looks `k` up in `table`.
    pub fn with_key<K: TableKey<T>>(k: K, table: &'b mut T) -> (entry: Self)
        requires
            old(table).wf(),
        ensures
            *entry.table == *old(table),
            *final(entry.table) == *final(table),
            entry.found() == k.leads_to(old(table)),
            entry.found() matches Some(key) ==> old(table).rows().contains_key(key),
    {
        let handle = k.query_in(&*table);
        TableEntry { handle, table }
    }

    /// Leaves the table as it is.
    pub fn release(self)
        ensures
            *final(self.table) == *old(self.table),
    {
    }

    /// Takes the record out of the table and notes the change. Without a
    /// record nothing happens.
    pub fn remove(self) -> (rec: Option<T::Record>)
        requires
            self.table.wf(),
            self.found() matches Some(k) ==> self.table.rows().contains_key(k),
        ensures
            final(self.table).wf(),
            rec is Some == self.found() is Some,
            match self.found() {
                Some(k) => {
                    &&& rec matches Some(r) && r@ == old(self.table).rows()[k]
                    &&& final(self.table).rows() == old(self.table).rows().remove(k)
                    &&& final(self.table).unsaved()
                },
                None => {
                    &&& final(self.table).rows() == old(self.table).rows()
                    &&& final(self.table).unsaved() == old(self.table).unsaved()
                },
            },
    {
        match self.handle.into_occupied() {
            Some(key) => {
                let rec = self.table.remove(&key);
                self.table.set_modified(true);
                rec
            },
            None => {
                None
            },
        }
    }
}

} // verus!
