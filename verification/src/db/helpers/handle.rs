//! What a lookup in a table comes back with.
use super::table::Table;
use vstd::prelude::*;

verus! {

/// The place of a primary key in a table's store.
pub enum Slot<K> {
    /// No record is stored under the key.
    Vacant(K),
    /// A record is stored under the key.
    Occupied(K),
}

/// The outcome of a lookup: the slot of the primary key that the lookup led
/// to, or nothing where a secondary key is not in the index.
pub struct TableHandle<T: Table>(pub Option<Slot<T::PrimaryKey>>);

impl<T: Table> TableHandle<T> {
    /// The primary key of the record that was found.
    pub open spec fn found(&self) -> Option<<T::PrimaryKey as View>::V> {
        match self.0 {
            Some(Slot::Occupied(k)) => Some(k@),
            _ => None,
        }
    }

    /// A handle for a lookup that led nowhere.
    pub fn missing() -> (handle: Self)
        ensures
            handle.found() is None,
    {
        TableHandle(None)
    }

    /// The primary key of the record that was found, if one was.
    pub fn into_occupied(self) -> (key: Option<T::PrimaryKey>)
        ensures
            key is Some == self.found() is Some,
            key matches Some(k) ==> self.found() == Some(k@),
    {
        match self.0 {
            Some(Slot::Occupied(k)) => Some(k),
            _ => None,
        }
    }
}

} // verus!
