//! Scoped handles on a table: one for reading, one for changing.
use super::entry::TableEntry;
use super::table::{Table, TableKey, TableRecord};
use vstd::prelude::*;

verus! {

/// Read access to a table for as long as the handle lives.
pub struct TableAccess<'a, T> {
    pub table: &'a T,
}

impl<'a, T: Table> TableAccess<'a, T> {
    /// The record that a key leads to.
    pub fn query<K: TableKey<T>>(&self, q: &K) -> (rec: Option<&'a T::Record>)
        requires
            self.table.wf(),
        ensures
            rec is Some == q.leads_to(&self.table) is Some,
            rec matches Some(r) ==> r@ == self.table.rows()[q.leads_to(&self.table)->0],
    {
        match q.query_in(self.table).into_occupied() {
            Some(key) => self.table.get(&key),
            None => None,
        }
    }
}

/// Turns a borrow of a table into a handle for reading.
pub trait TableAccessExt<'a, T: Table> {
    fn access(self) -> TableAccess<'a, T>;
}

impl<'a, T: Table> TableAccessExt<'a, T> for &'a T {
    fn access(self) -> (handle: TableAccess<'a, T>)
        ensures
            *handle.table == *self,
    {
        TableAccess { table: self }
    }
}

/// Exclusive access to a table for as long as the handle lives. Every change
/// to a table goes through such a handle.
pub struct TableAccessMut<'a, T> {
    pub table: &'a mut T,
}

impl<'a, T: Table> TableAccessMut<'a, T> {
    /// The same access for reading only.
    pub fn as_access(&self) -> (handle: TableAccess<'_, T>)
        ensures
            *handle.table == *old(self.table),
    {
        TableAccess { table: &*self.table }
    }

    /// Stores a record, as the table's `insert` does, and notes the change.
    pub fn insert(&mut self, rec: T::Record) -> (key: Option<T::PrimaryKey>)
        requires
            old(self).table.wf(),
        ensures
            *final(final(self).table) == *final(old(self).table),
            final(self).table.wf(),
            key is Some == old(self).table.accepts(rec@),
            key matches Some(k) ==> {
                &&& k@ == <T::Record as TableRecord>::key_of(old(self).table.stored_as(rec@))
                &&& final(self).table.rows() == old(self).table.rows().insert(
                    k@,
                    old(self).table.stored_as(rec@),
                )
                &&& final(self).table.unsaved()
            },
            key is None ==> {
                &&& final(self).table.rows() == old(self).table.rows()
                &&& final(self).table.unsaved() == old(self).table.unsaved()
            },
    {
        let key = self.table.insert(rec);
        if key.is_some() {
            self.table.set_modified(true);
        }
        key
    }

    /// Looks a borrowed key up and returns the entry that it leads to.
    pub fn entry_ref<'b, K: TableKey<T>>(&'b mut self, k: &K) -> (entry: TableEntry<'b, T>)
        requires
            old(self).table.wf(),
        ensures
            *entry.table == *old(self).table,
            *final(entry.table) == *final(self).table,
            *final(final(self).table) == *final(old(self).table),
            entry.found() == k.leads_to(&old(self).table),
            entry.found() matches Some(key) ==> old(self).table.rows().contains_key(key),
    {
        let handle = k.query_in(&*self.table);
        TableEntry { handle, table: &mut *self.table }
    }

    /// Looks a key up and returns the entry that it leads to.
    pub fn entry<'b, K: TableKey<T>>(&'b mut self, k: K) -> (entry: TableEntry<'b, T>)
        requires
            old(self).table.wf(),
        ensures
            *entry.table == *old(self).table,
            *final(entry.table) == *final(self).table,
            *final(final(self).table) == *final(old(self).table),
            entry.found() == k.leads_to(&old(self).table),
            entry.found() matches Some(key) ==> old(self).table.rows().contains_key(key),
    {
        TableEntry::with_key(k, &mut *self.table)
    }
}

/// Turns an exclusive borrow of a table into a handle for changing it.
pub trait TableAccessMutExt<'a, T: Table> {
    fn access_mut(self) -> TableAccessMut<'a, T>;
}

impl<'a, T: Table> TableAccessMutExt<'a, T> for &'a mut T {
    fn access_mut(self) -> (handle: TableAccessMut<'a, T>)
        ensures
            *handle.table == *old(self),
            *final(handle.table) == *final(self),
    {
        TableAccessMut { table: self }
    }
}

} // verus!
