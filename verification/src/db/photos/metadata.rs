//! Making the metadata of a photo out of what was read at its path.
use super::misc::{orientation_of, PhotoMetadata, PhotoOrientation, Timestamp};
use crate::util::exif::{
    capture_time, dims_from, dims_in_head, dims_in_head_of, dims_of, lemma_head_decides,
    number_at, read_datetime, read_dims, read_dims_from_file, read_dims_from_head,
    read_dims_in_head, read_orientation, Exif, ExifError, ExifTag, UPRIGHT,
};
use vstd::prelude::*;

verus! {

/// What the file system says of a file.
#[derive(Clone, Copy, Debug, PartialEq, Eq, Structural)]
pub struct FileStat {
    pub created: Timestamp,
    pub modified: Timestamp,
    pub len: u64,
}

/// Why no metadata could be made.
#[derive(Clone, Copy, Debug, PartialEq, Eq, Structural)]
pub enum MetadataError {
    /// The EXIF fields or the JPEG stream could not be read.
    Exif(ExifError),
    /// The orientation field holds a value that names no rotation.
    UnknownOrientation,
}

/// The metadata of a file with EXIF fields.
pub open spec fn metadata_with_exif(stat: FileStat, exif: &Exif, content: Seq<u8>) -> Result<
    PhotoMetadata,
    MetadataError,
> {
    let orientation = orientation_of(
        match number_at(exif, ExifTag::Orientation) {
            Some(n) => n,
            None => UPRIGHT,
        },
    );
    match capture_time(exif) {
        Err(e) => Err(MetadataError::Exif(e)),
        Ok(etime) => match dims_of(exif, content) {
            Err(e) => Err(MetadataError::Exif(e)),
            Ok((width, height)) => match orientation {
                None => Err(MetadataError::UnknownOrientation),
                Some(orientation) => Ok(
                    PhotoMetadata {
                        ctime: stat.created,
                        mtime: stat.modified,
                        file_length: stat.len,
                        etime,
                        width,
                        height,
                        orientation,
                    },
                ),
            },
        },
    }
}

/// The metadata of a file without EXIF fields: no capture time, upright,
/// with the dimensions that the JPEG stream states.
pub open spec fn metadata_without_exif(stat: FileStat, content: Seq<u8>) -> Result<
    PhotoMetadata,
    MetadataError,
> {
    match dims_from(content, 0) {
        Err(e) => Err(MetadataError::Exif(e)),
        Ok((width, height)) => Ok(
            PhotoMetadata {
                ctime: stat.created,
                mtime: stat.modified,
                file_length: stat.len,
                etime: None,
                width,
                height,
                orientation: PhotoOrientation::D0,
            },
        ),
    }
}

/// The metadata of a file as far as the first bytes of its content tell:
/// `head` holds the first bytes of a content that is `total` bytes long.
/// `None` where the dimensions lie behind the head.
pub open spec fn metadata_in_head(
    stat: FileStat,
    exif: Option<&Exif>,
    head: Seq<u8>,
    total: int,
) -> Option<Result<PhotoMetadata, MetadataError>> {
    match exif {
        Some(fields) => {
            let orientation = orientation_of(
                match number_at(fields, ExifTag::Orientation) {
                    Some(n) => n,
                    None => UPRIGHT,
                },
            );
            match capture_time(fields) {
                Err(e) => Some(Err(MetadataError::Exif(e))),
                Ok(etime) => match dims_in_head_of(fields, head, total) {
                    None => None,
                    Some(Err(e)) => Some(Err(MetadataError::Exif(e))),
                    Some(Ok((width, height))) => match orientation {
                        None => Some(Err(MetadataError::UnknownOrientation)),
                        Some(orientation) => Some(
                            Ok(
                                PhotoMetadata {
                                    ctime: stat.created,
                                    mtime: stat.modified,
                                    file_length: stat.len,
                                    etime,
                                    width,
                                    height,
                                    orientation,
                                },
                            ),
                        ),
                    },
                },
            }
        },
        None => match dims_in_head(head, total, 0) {
            None => None,
            Some(Err(e)) => Some(Err(MetadataError::Exif(e))),
            Some(Ok((width, height))) => Some(
                Ok(
                    PhotoMetadata {
                        ctime: stat.created,
                        mtime: stat.modified,
                        file_length: stat.len,
                        etime: None,
                        width,
                        height,
                        orientation: PhotoOrientation::D0,
                    },
                ),
            ),
        },
    }
}

/// What the head of a content tells of the metadata holds of the content:
/// where the head has an answer, it is the metadata of every file of that
/// length whose content starts with the head.
pub proof fn lemma_head_metadata(
    stat: FileStat,
    exif: Option<&Exif>,
    head: Seq<u8>,
    content: Seq<u8>,
)
    requires
        head.len() <= content.len(),
        head == content.subrange(0, head.len() as int),
        metadata_in_head(stat, exif, head, content.len() as int) is Some,
    ensures
        metadata_in_head(stat, exif, head, content.len() as int)->0 == (match exif {
            Some(fields) => metadata_with_exif(stat, fields, content),
            None => metadata_without_exif(stat, content),
        }),
{
    if dims_in_head(head, content.len() as int, 0) is Some {
        lemma_head_decides(head, content, 0);
    }
}

impl PhotoMetadata {
    /// The metadata of a file, made of what the file system says of it, its
    /// EXIF fields where it has any, and the first bytes of its content,
    /// which is `total` bytes long; `None` where more of the content has
    /// to be read. With the whole content there is always an answer.
    pub fn from_head(stat: FileStat, exif: Option<&Exif>, head: &[u8], total: usize) -> (metadata:
        Option<Result<PhotoMetadata, MetadataError>>)
        requires
            head@.len() <= total,
        ensures
            metadata == metadata_in_head(stat, exif, head@, total as int),
            head@.len() == total ==> metadata is Some,
    {
        match exif {
            Some(fields) => {
                let etime = match read_datetime(fields) {
                    Ok(etime) => etime,
                    Err(e) => {
                        return Some(Err(MetadataError::Exif(e)));
                    },
                };
                let (width, height) = match read_dims_in_head(fields, head, total) {
                    None => {
                        return None;
                    },
                    Some(Ok(dims)) => dims,
                    Some(Err(e)) => {
                        return Some(Err(MetadataError::Exif(e)));
                    },
                };
                let orientation = match PhotoOrientation::from_exif(read_orientation(fields)) {
                    Some(orientation) => orientation,
                    None => {
                        return Some(Err(MetadataError::UnknownOrientation));
                    },
                };
                Some(
                    Ok(
                        PhotoMetadata {
                            ctime: stat.created,
                            mtime: stat.modified,
                            file_length: stat.len,
                            etime,
                            width,
                            height,
                            orientation,
                        },
                    ),
                )
            },
            None => match read_dims_from_head(head, total) {
                None => None,
                Some(Ok((width, height))) => Some(
                    Ok(
                        PhotoMetadata {
                            ctime: stat.created,
                            mtime: stat.modified,
                            file_length: stat.len,
                            etime: None,
                            width,
                            height,
                            orientation: PhotoOrientation::D0,
                        },
                    ),
                ),
                Some(Err(e)) => Some(Err(MetadataError::Exif(e))),
            },
        }
    }

    /// The metadata of the file at a path, made of what the file system says
    /// of it, its EXIF fields where it has any, and its content.
    pub fn from_path(stat: FileStat, exif: Option<&Exif>, content: &[u8]) -> (metadata: Result<
        PhotoMetadata,
        MetadataError,
    >)
        ensures
            metadata == (match exif {
                Some(fields) => metadata_with_exif(stat, fields, content@),
                None => metadata_without_exif(stat, content@),
            }),
    {
        match exif {
            Some(fields) => {
                let etime = match read_datetime(fields) {
                    Ok(etime) => etime,
                    Err(e) => {
                        return Err(MetadataError::Exif(e));
                    },
                };
                let (width, height) = match read_dims(fields, content) {
                    Ok(dims) => dims,
                    Err(e) => {
                        return Err(MetadataError::Exif(e));
                    },
                };
                let orientation = match PhotoOrientation::from_exif(read_orientation(fields)) {
                    Some(orientation) => orientation,
                    None => {
                        return Err(MetadataError::UnknownOrientation);
                    },
                };
                Ok(
                    PhotoMetadata {
                        ctime: stat.created,
                        mtime: stat.modified,
                        file_length: stat.len,
                        etime,
                        width,
                        height,
                        orientation,
                    },
                )
            },
            None => match read_dims_from_file(content) {
                Ok((width, height)) => Ok(
                    PhotoMetadata {
                        ctime: stat.created,
                        mtime: stat.modified,
                        file_length: stat.len,
                        etime: None,
                        width,
                        height,
                        orientation: PhotoOrientation::D0,
                    },
                ),
                Err(e) => Err(MetadataError::Exif(e)),
            },
        }
    }
}

} // verus!
