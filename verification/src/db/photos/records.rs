//! A photo as it lies on disk and a photo as the table records it.
use super::misc::{
    fixed_from, status_after_drift, Drift, FileHash, PhotoEntryStatus, PhotoMetadata, Timestamp,
    PID,
};
use crate::db::helpers::table::TableRecord;
use crate::db::locations::{FileLocation, FileLocationView};
use vstd::prelude::*;

verus! {

/// The XXH3 hash of a byte string, 64 bits wide, with the default seed.
pub uninterp spec fn xxh3_64_of(bytes: Seq<u8>) -> u64;

/// Hashes a byte string.
///
/// Calls `xxhash_rust::xxh3::xxh3_64`, which computes the 64-bit XXH3 hash of
/// its input with seed 0 and the default secret: a function of the bytes
/// alone.
#[verifier::external_body]
fn xxh3_64(bytes: &[u8]) -> (hash: u64)
    ensures
        hash == xxh3_64_of(bytes@),
{
    xxhash_rust::xxh3::xxh3_64(bytes)
}

/// The content hash of a file: zero for an empty file, else the XXH3 hash of
/// its bytes.
pub open spec fn content_hash(bytes: Seq<u8>) -> FileHash {
    if bytes.len() == 0 {
        0
    } else {
        xxh3_64_of(bytes)
    }
}

/// Computes the content hash of a file from its bytes.
pub fn hash_content(bytes: &[u8]) -> (hash: FileHash)
    ensures
        hash == content_hash(bytes@),
{
    if bytes.len() == 0 {
        0
    } else {
        xxh3_64(bytes)
    }
}

/// Why a photo could not be brought in step with the table.
#[derive(Clone, Copy, Debug, PartialEq, Eq, Structural)]
pub enum SyncError {
    /// The content of a file is needed for its hash but was not loaded.
    NotPrefetched,
    /// Two files of one scan have the same location.
    DuplicateLocation,
    /// The table has no primary keys left for the new files.
    KeysExhausted,
    /// A file lies below a mount point that is not in the mount point table.
    NotMounted,
}

/// A photo file as a scan found it.
#[derive(Debug)]
pub struct LocalPhoto {
    pub location: FileLocation,
    pub file_hash: Option<FileHash>,
    pub metadata: PhotoMetadata,
    pub content: Option<Vec<u8>>,
}

/// A local photo as contracts see it.
pub struct LocalPhotoView {
    pub location: FileLocationView,
    pub file_hash: Option<FileHash>,
    pub metadata: PhotoMetadata,
    pub content: Option<Seq<u8>>,
}

impl View for LocalPhoto {
    type V = LocalPhotoView;

    open spec fn view(&self) -> LocalPhotoView {
        LocalPhotoView {
            location: self.location@,
            file_hash: self.file_hash,
            metadata: self.metadata,
            content: match self.content {
                Some(bytes) => Some(bytes@),
                None => None,
            },
        }
    }
}

impl LocalPhotoView {
    /// Whether the hash is known or can be computed.
    pub open spec fn hashable(self) -> bool {
        self.file_hash is Some || self.content is Some
    }

    /// The hash that `fill_file_hash` settles on: the one that is known
    /// already, else that of the loaded content.
    pub open spec fn settled_hash(self) -> FileHash {
        match self.file_hash {
            Some(hash) => hash,
            None => content_hash(self.content->0),
        }
    }
}

impl LocalPhoto {
    /// A photo at `location` of which only the metadata is known yet.
    pub fn new(location: FileLocation, metadata: PhotoMetadata) -> (photo: Self)
        ensures
            photo@ == (LocalPhotoView {
                location: location@,
                file_hash: None,
                metadata,
                content: None,
            }),
    {
        LocalPhoto { location, file_hash: None, metadata, content: None }
    }

    /// Hands the photo the content of its file.
    pub fn prefetch(&mut self, content: Vec<u8>)
        ensures
            final(self)@ == (LocalPhotoView { content: Some(content@), ..old(self)@ }),
    {
        self.content = Some(content);
    }

    /// Makes sure that the hash is known: a hash that is known stays, else
    /// the content that was loaded is hashed and let go. Without either the
    /// photo stays as it is and the call fails.
    pub fn fill_file_hash(&mut self) -> (done: Result<(), SyncError>)
        ensures
            done is Ok == old(self)@.hashable(),
            done is Err ==> done == Err::<(), SyncError>(SyncError::NotPrefetched) && final(self)@
                == old(self)@,
            done is Ok ==> final(self)@ == (LocalPhotoView {
                file_hash: Some(old(self)@.settled_hash()),
                content: if old(self)@.file_hash is Some {
                    old(self)@.content
                } else {
                    None
                },
                ..old(self)@
            }),
    {
        if self.file_hash.is_some() {
            return Ok(());
        }
        match self.content.take() {
            Some(bytes) => {
                self.file_hash = Some(hash_content(bytes.as_slice()));
                Ok(())
            },
            None => Err(SyncError::NotPrefetched),
        }
    }
}

/// A photo as the table records it.
#[derive(Debug)]
pub struct PhotoRecord {
    pub pid: PID,
    pub location: FileLocation,
    pub file_hash: FileHash,
    pub metadata: PhotoMetadata,
    pub selected: bool,
    pub status: PhotoEntryStatus,
    pub commit_time: Option<Timestamp>,
}

/// The content of a photo record.
pub struct PhotoRecordView {
    pub pid: PID,
    pub location: FileLocationView,
    pub file_hash: FileHash,
    pub metadata: PhotoMetadata,
    pub selected: bool,
    pub status: PhotoEntryStatus,
    pub commit_time: Option<Timestamp>,
}

impl PhotoRecordView {
    /// Whether the record has a commit time exactly if it was vetted at
    /// some time.
    pub open spec fn stamped(self) -> bool {
        self.commit_time is Some == self.status.vetted()
    }
}

impl View for PhotoRecord {
    type V = PhotoRecordView;

    open spec fn view(&self) -> PhotoRecordView {
        PhotoRecordView {
            pid: self.pid,
            location: self.location@,
            file_hash: self.file_hash,
            metadata: self.metadata,
            selected: self.selected,
            status: self.status,
            commit_time: self.commit_time,
        }
    }
}

/// The record of a photo that was just found: not selected, not vetted.
pub open spec fn fresh_record(pid: PID, file: LocalPhotoView) -> PhotoRecordView {
    PhotoRecordView {
        pid,
        location: file.location,
        file_hash: file.file_hash->0,
        metadata: file.metadata,
        selected: false,
        status: PhotoEntryStatus::Uncommitted,
        commit_time: None,
    }
}

impl PhotoRecord {
    /// The record of a photo that was just found. Its hash must be known.
    pub fn new(pid: PID, file: LocalPhoto) -> (rec: Self)
        requires
            file@.file_hash is Some,
        ensures
            rec@ == fresh_record(pid, file@),
    {
        PhotoRecord {
            pid,
            location: file.location,
            file_hash: file.file_hash.unwrap(),
            metadata: file.metadata,
            selected: false,
            status: PhotoEntryStatus::Uncommitted,
            commit_time: None,
        }
    }

    /// A copy of the record.
    pub fn duplicate(&self) -> (copy: Self)
        ensures
            copy@ == self@,
    {
        PhotoRecord {
            pid: self.pid,
            location: self.location.duplicate(),
            file_hash: self.file_hash,
            metadata: self.metadata,
            selected: self.selected,
            status: self.status,
            commit_time: self.commit_time,
        }
    }
}

impl PhotoRecord {
    /// Records that the file is gone. Returns whether the record counts as
    /// missing from now on, which a record that was never vetted does not.
    pub fn handle_local_missing(&mut self) -> (missing: bool)
        ensures
            final(self)@ == (PhotoRecordView {
                status: status_after_drift(old(self)@.status, Drift::Missing),
                ..old(self)@
            }),
            missing == old(self)@.status.vetted(),
    {
        self.status.handle_local_missing()
    }

    /// Takes over the capture time of `metadata` where the record has none.
    /// Returns whether it had none.
    pub fn fix_metadata_from(&mut self, metadata: &PhotoMetadata) -> (fixed: bool)
        ensures
            final(self)@ == (PhotoRecordView {
                metadata: fixed_from(old(self)@.metadata, *metadata),
                ..old(self)@
            }),
            fixed == old(self)@.metadata.etime is None,
    {
        self.metadata.fix_from(metadata)
    }
}

impl TableRecord for PhotoRecord {
    type PrimaryKey = PID;

    open spec fn key_of(content: PhotoRecordView) -> PID {
        content.pid
    }

    fn primary_key(&self) -> (key: &PID) {
        &self.pid
    }
}

} // verus!
