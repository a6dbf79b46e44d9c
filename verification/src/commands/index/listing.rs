//! What is taken from the listing of a mounted directory: the photo files,
//! in an order that is the same at every scan.
use crate::db::locations::DirectoryLocation;
use crate::db::mounts::records::MountPointRecord;
use crate::db::photos::misc::PhotoMetadata;
use crate::db::photos::records::{LocalPhoto, LocalPhotoView};
use crate::util::fs::{is_supported_image, supported};
use crate::util::order::{ordered, sort_by_rank, Ranked};
use vstd::prelude::*;

verus! {

/// One entry of a directory as the listing shows it.
#[derive(Debug)]
pub struct FoundEntry {
    /// The name of the entry within the directory.
    pub name: Vec<u8>,
    /// Whether the entry is a regular file.
    pub is_file: bool,
    /// The number under which the file system keeps the file; it gives the
    /// physical order of the entries.
    pub ino: u64,
}

impl Ranked for FoundEntry {
    open spec fn rank(&self) -> u64 {
        self.ino
    }

    fn rank_of(&self) -> (rank: u64) {
        self.ino
    }
}

/// Whether an entry is a photo file: a regular file whose name has one of
/// the supported extensions.
pub open spec fn is_photo(entry: FoundEntry) -> bool {
    entry.is_file && supported(entry.name@)
}

/// The scan of one mounted directory.
pub struct MountPointScanner {
    pub loc: DirectoryLocation,
}

impl MountPointScanner {
    /// A scan of the directory of a mount point.
    pub fn new(mp: &MountPointRecord) -> (scanner: Self)
        ensures
            scanner.loc.mpid == mp@.uuid,
            scanner.loc.path@ == mp@.path,
    {
        MountPointScanner { loc: DirectoryLocation::from_record(mp) }
    }

    /// The photo files among the entries of the directory, in their physical
    /// order.
    pub fn sorted_files(&self, entries: Vec<FoundEntry>) -> (files: Vec<FoundEntry>)
        ensures
            ordered(entries@.filter(|entry: FoundEntry| is_photo(entry)), files@),
    {
        let ghost pred = |entry: FoundEntry| is_photo(entry);
        let ghost all = entries@;
        let mut files: Vec<FoundEntry> = Vec::new();
        proof {
            reveal(Seq::filter);
            assert(all.take(0) =~= Seq::<FoundEntry>::empty());
        }
        for entry in it: entries
            invariant
                all == it.seq(),
                pred == (|entry: FoundEntry| is_photo(entry)),
                files@ == all.take(it.index()).filter(pred),
        {
            let ghost i = it.index();
            proof {
                reveal(Seq::filter);
                assert(all.take(i + 1).drop_last() =~= all.take(i));
                assert(all.take(i + 1).last() == entry);
            }
            if entry.is_file && is_supported_image(entry.name.as_slice()) {
                files.push(entry);
            }
        }
        proof {
            assert(all.take(all.len() as int) =~= all);
        }
        sort_by_rank(&mut files);
        files
    }

    /// The photo at a file of the directory, with the metadata that were
    /// read from the file.
    pub fn to_lphoto(&self, file: &FoundEntry, metadata: PhotoMetadata) -> (photo: LocalPhoto)
        ensures
            photo@ == (LocalPhotoView {
                location: (self.loc.mpid, file.name@),
                file_hash: None,
                metadata,
                content: None,
            }),
    {
        LocalPhoto::new(self.loc.with_filename(file.name.as_slice()), metadata)
    }
}

} // verus!
