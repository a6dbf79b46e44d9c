//! The photo table: one record per photo file that was ever indexed.
pub mod access;
pub mod entries;
pub mod image;
pub mod index;
pub mod keys;
pub mod metadata;
pub mod misc;
pub mod patch;
pub mod records;
pub mod synchronizer;
pub mod table;
