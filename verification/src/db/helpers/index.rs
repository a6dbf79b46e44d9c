//! The trait of a table's index.
use super::table::TableRecord;
use vstd::prelude::*;

verus! {

/// Lookup structures that are derived from the records of a table and kept in
/// step with them through three hooks.
pub trait TableIndex {
    type Record: TableRecord;

    /// Whether the index holds exactly what records with these contents call
    /// for.
    spec fn reflects(
        &self,
        rows: Map<
            <<Self::Record as TableRecord>::PrimaryKey as View>::V,
            <Self::Record as View>::V,
        >,
    ) -> bool;

    /// Whether a record with this content can join the rows without taking a
    /// secondary key that one of them holds.
    spec fn admits(
        rows: Map<
            <<Self::Record as TableRecord>::PrimaryKey as View>::V,
            <Self::Record as View>::V,
        >,
        content: <Self::Record as View>::V,
    ) -> bool;

    /// The hook for a record that joins the table.
    fn insert(
        &mut self,
        rec: &Self::Record,
        Ghost(rows): Ghost<
            Map<
                <<Self::Record as TableRecord>::PrimaryKey as View>::V,
                <Self::Record as View>::V,
            >,
        >,
    )
        requires
            old(self).reflects(rows),
            !rows.contains_key(<Self::Record as TableRecord>::key_of(rec@)),
            Self::admits(rows, rec@),
        ensures
            final(self).reflects(
                rows.insert(<Self::Record as TableRecord>::key_of(rec@), rec@),
            ),
    ;

    /// The hook for a record that leaves the table.
    fn remove(
        &mut self,
        rec: &Self::Record,
        Ghost(rows): Ghost<
            Map<
                <<Self::Record as TableRecord>::PrimaryKey as View>::V,
                <Self::Record as View>::V,
            >,
        >,
    )
        requires
            old(self).reflects(rows),
            rows.contains_key(<Self::Record as TableRecord>::key_of(rec@)),
            rows[<Self::Record as TableRecord>::key_of(rec@)] == rec@,
        ensures
            final(self).reflects(rows.remove(<Self::Record as TableRecord>::key_of(rec@))),
    ;
}

} // verus!
