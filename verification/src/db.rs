//! The tables, their records and the handles through which they are used.
pub mod helpers;
pub mod locations;
pub mod mounts;
pub mod photos;
