//! Names for the two kinds of photo entry: the one that a scan finds and the
//! one that the table holds.
use super::records::{LocalPhoto, PhotoRecord};
use vstd::prelude::*;

verus! {

/// A photo file as a scan found it.
pub type LocalPhotoEntry = LocalPhoto;

/// A photo as the table records it.
pub type DBPhotoEntry = PhotoRecord;

} // verus!
