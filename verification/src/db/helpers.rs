//! What every table has in common: the traits of tables, records, indices and
//! keys, and the handles through which a table is read and changed.
pub mod access;
pub mod entry;
pub mod handle;
pub mod index;
pub mod patch;
pub mod table;
