//! The trait of a patch: a set of changes to one record that is applied in
//! one step.
use super::table::Table;
use vstd::prelude::*;

verus! {

/// Buffered changes to one record of a table that is borrowed exclusively.
/// Nothing reaches the table before `commit`; a patch that is dropped leaves
/// the table as it was.
pub trait TableRecordPatch: Sized {
    type Table: Table;

    /// Whether the patch still has its record: the table is in order and
    /// holds a record under the key that the patch was started for.
    spec fn attached(&self) -> bool;

    /// Applies the changes to the record and brings the index in step.
    fn commit(self)
        requires
            self.attached(),
    ;
}

} // verus!
