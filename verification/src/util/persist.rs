//! Loading and saving a table, apart from the reading and the writing: what
//! a table makes of the content of its file, and whether and what it hands
//! out to be written.
use crate::db::helpers::access::{TableAccess, TableAccessMut};
use crate::db::helpers::table::{Rows, Table};
use vstd::prelude::*;

verus! {

/// Why the content of a file was not taken for the content of a table.
#[derive(Clone, Copy, Debug, PartialEq, Eq, Structural)]
pub enum LoadError {
    /// The records do not fit together: a key or a secondary key occurs
    /// twice, or a key is one that the table has not handed out.
    Corrupt,
}

/// Whether a table has to be written: it has unsaved changes, or there is no
/// file yet.
pub open spec fn must_write(unsaved: bool, file_exists: bool) -> bool {
    unsaved || !file_exists
}

/// Whether `after` is the table `before` with the note that it was written.
pub open spec fn noted_as_saved<T: Table>(before: &T, after: &T) -> bool {
    &&& !after.unsaved()
    &&& after.rows() == before.rows()
    &&& after.wf() == before.wf()
}

/// A table that can be saved to a file and loaded from one. The file holds
/// the records only; the index is built anew from them.
pub trait TableIO: Table {
    /// What is written to the file.
    type Image;

    /// The rows that an image stands for, where its records fit together.
    spec fn image_rows(image: &Self::Image) -> Option<Rows<Self>>;

    /// Whether an image is one that `save` makes of this table.
    spec fn saved_as(&self, image: &Self::Image) -> bool;

    /// Whether this table is what `load` makes of an image.
    spec fn loaded_from(&self, image: &Self::Image) -> bool;

    /// Takes the content of the file for the content of the table, and the
    /// table as saved. Without a file the table stays as it is. An image
    /// whose records do not fit together is refused, and the table stays as
    /// it is.
    fn load(&mut self, loaded: Option<Self::Image>) -> (done: Result<(), LoadError>)
        requires
            old(self).wf(),
        ensures
            final(self).wf(),
            match loaded {
                None => done is Ok && *final(self) == *old(self),
                Some(image) => match Self::image_rows(&image) {
                    Some(rows) => {
                        &&& done is Ok
                        &&& final(self).rows() == rows
                        &&& !final(self).unsaved()
                        &&& final(self).loaded_from(&image)
                    },
                    None => {
                        &&& done == Err::<(), LoadError>(LoadError::Corrupt)
                        &&& *final(self) == *old(self)
                    },
                },
            },
    ;

    /// A table that was loaded has no unsaved changes.
    proof fn lemma_loaded_is_saved(&self, image: &Self::Image)
        requires
            self.loaded_from(image),
        ensures
            !self.unsaved(),
    ;

    /// Hands out what is to be written, or nothing where the table has no
    /// unsaved changes and its file exists.
    fn save(&self, file_exists: bool) -> (image: Option<Self::Image>)
        requires
            self.wf(),
        ensures
            image is Some == must_write(self.unsaved(), file_exists),
            image matches Some(written) ==> {
                &&& Self::image_rows(&written) == Some(self.rows())
                &&& self.saved_as(&written)
            },
    ;
}

impl<'a, T: TableIO> TableAccess<'a, T> {
    /// Hands out what is to be written at the end of the work, or nothing
    /// where the table has no unsaved changes and its file exists.
    pub fn finalize(&self, file_exists: bool) -> (image: Option<T::Image>)
        requires
            self.table.wf(),
        ensures
            image is Some == must_write(self.table.unsaved(), file_exists),
            image matches Some(written) ==> {
                &&& T::image_rows(&written) == Some(self.table.rows())
                &&& self.table.saved_as(&written)
            },
    {
        self.table.save(file_exists)
    }
}

impl<'a, T: TableIO> TableAccessMut<'a, T> {
    /// Takes the content of the file, where there is one, for the content of
    /// the table at the start of the work.
    pub fn initialize(&mut self, loaded: Option<T::Image>) -> (done: Result<(), LoadError>)
        requires
            old(self).table.wf(),
        ensures
            *final(final(self).table) == *final(old(self).table),
            final(self).table.wf(),
            match loaded {
                None => done is Ok && *final(self).table == *old(self).table,
                Some(image) => match T::image_rows(&image) {
                    Some(rows) => {
                        &&& done is Ok
                        &&& final(self).table.rows() == rows
                        &&& !final(self).table.unsaved()
                        &&& final(self).table.loaded_from(&image)
                    },
                    None => {
                        &&& done == Err::<(), LoadError>(LoadError::Corrupt)
                        &&& *final(self).table == *old(self).table
                    },
                },
            },
    {
        self.table.load(loaded)
    }

    /// Notes that the table was written to its file.
    pub fn mark_saved(&mut self)
        ensures
            *final(final(self).table) == *final(old(self).table),
            noted_as_saved(old(self).table, final(self).table),
    {
        self.table.set_modified(false);
    }
}

/// The dirty flag decides over the writing while the file exists: a table
/// that was just loaded is not written, and a table that was just noted as
/// written is not written again.
pub proof fn lemma_dirty_flag<T: TableIO>(loaded: &T, image: &T::Image, before: &T, written: &T)
    requires
        loaded.loaded_from(image),
        noted_as_saved(before, written),
    ensures
        !must_write(loaded.unsaved(), true),
        !must_write(written.unsaved(), true),
{
    loaded.lemma_loaded_is_saved(image);
}

} // verus!
