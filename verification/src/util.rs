//! Small building blocks shared by the tables.
pub mod bytes;
pub mod exif;
pub mod fs;
pub mod functional;
pub mod keyed;
pub mod math;
pub mod order;
pub mod persist;
pub mod sync;
