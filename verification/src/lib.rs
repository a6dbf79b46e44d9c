//! A file-persisted record store that tracks a photo collection across mounted
//! directories, reconciles it with what a scan of those directories finds, and
//! keeps the curatorial decisions made on each photo.
pub mod commands;
pub mod db;
pub mod generator;
pub mod util;
