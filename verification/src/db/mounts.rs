//! The mount point table: the directories that photos are taken from.
pub mod access;
pub mod image;
pub mod index;
pub mod keys;
pub mod patch;
pub mod records;
pub mod table;
