//! Indexing: bringing the photo table in step with the mounted directories.
pub mod listing;
pub mod scanner;
