//! The traits of a table and of its records and keys.
use super::handle::TableHandle;
use super::index::TableIndex;
use vstd::prelude::*;

verus! {

/// A record that carries its own primary key.
pub trait TableRecord: View + Sized {
    type PrimaryKey: View;

    /// The primary key that a record with this content is stored under.
    spec fn key_of(content: Self::V) -> <Self::PrimaryKey as View>::V;

    fn primary_key(&self) -> (key: &Self::PrimaryKey)
        ensures
            key@ == Self::key_of(self@),
    ;
}

/// The content of a table: each stored record's content under its key.
pub type Rows<T> = Map<
    <<T as Table>::PrimaryKey as View>::V,
    <<T as Table>::Record as View>::V,
>;

/// An ordered store of records under their primary keys, with an index that
/// is kept in step with it.
pub trait Table: Sized {
    type PrimaryKey: View;

    type Record: TableRecord<PrimaryKey = Self::PrimaryKey>;

    type Index: TableIndex<Record = Self::Record>;

    /// The content of every stored record, by primary key.
    spec fn rows(&self) -> Rows<Self>;

    /// Whether the table has changes that were not saved yet.
    spec fn unsaved(&self) -> bool;

    /// Whether the store, the keys and the index fit together.
    spec fn wf(&self) -> bool;

    /// Whether `insert` takes a record with this content.
    spec fn accepts(&self, content: <Self::Record as View>::V) -> bool;

    /// The content under which `insert` stores a record with this content:
    /// the same, but for a key that the table assigns.
    spec fn stored_as(
        &self,
        content: <Self::Record as View>::V,
    ) -> <Self::Record as View>::V;

    /// Stores a record and enters it into the index, or refuses it and
    /// changes nothing. Returns the key that the record was stored under.
    fn insert(&mut self, rec: Self::Record) -> (key: Option<Self::PrimaryKey>)
        requires
            old(self).wf(),
        ensures
            final(self).wf(),
            final(self).unsaved() == old(self).unsaved(),
            key is Some == old(self).accepts(rec@),
            key matches Some(k) ==> {
                &&& k@ == <Self::Record as TableRecord>::key_of(old(self).stored_as(rec@))
                &&& !old(self).rows().contains_key(k@)
                &&& final(self).rows() == old(self).rows().insert(k@, old(self).stored_as(rec@))
            },
            key is None ==> final(self).rows() == old(self).rows(),
    ;

    /// Takes the record under a key out of the store and out of the index.
    fn remove(&mut self, key: &Self::PrimaryKey) -> (rec: Option<Self::Record>)
        requires
            old(self).wf(),
        ensures
            final(self).wf(),
            final(self).unsaved() == old(self).unsaved(),
            final(self).rows() == old(self).rows().remove(key@),
            rec is Some == old(self).rows().contains_key(key@),
            rec matches Some(r) ==> r@ == old(self).rows()[key@],
    ;

    /// The record under a key.
    fn get(&self, key: &Self::PrimaryKey) -> (rec: Option<&Self::Record>)
        requires
            self.wf(),
        ensures
            rec is Some == self.rows().contains_key(key@),
            rec matches Some(r) ==> r@ == self.rows()[key@],
    ;

    /// Whether there are unsaved changes.
    fn is_modified(&self) -> (unsaved: bool)
        ensures
            unsaved == self.unsaved(),
    ;

    /// Notes that the table has changed, or that it was saved.
    fn set_modified(&mut self, unsaved: bool)
        ensures
            final(self).unsaved() == unsaved,
            final(self).rows() == old(self).rows(),
            final(self).wf() == old(self).wf(),
    ;
}

/// Something that a record of table `T` can be looked up by: its primary key
/// or a secondary key that the table's index knows.
pub trait TableKey<T: Table> {
    /// The primary key of the record that this key leads to, if there is one.
    spec fn leads_to(&self, table: &T) -> Option<<T::PrimaryKey as View>::V>;

    /// Looks the key up, through the index where it is a secondary key.
    fn query_in(&self, table: &T) -> (handle: TableHandle<T>)
        requires
            table.wf(),
        ensures
            handle.found() == self.leads_to(table),
            handle.found() matches Some(k) ==> table.rows().contains_key(k),
    ;
}

/// How a table is held for the time of some work: for reading, or for
/// reading and changing.
pub enum TableRef<'a, T> {
    Shared(&'a T),
    Exclusive(&'a mut T),
}

impl<'a, T> TableRef<'a, T> {
    /// Whether the table can be changed through this hold.
    pub fn is_exclusive(&self) -> (exclusive: bool)
        ensures
            exclusive == (self is Exclusive),
    {
        match self {
            TableRef::Shared(_) => false,
            TableRef::Exclusive(_) => true,
        }
    }
}

} // verus!
