use butler::db::locations::FileLocation;
use butler::db::photos::misc::{PhotoEntryStatus, PhotoMetadata, PhotoOrientation, Timestamp};
use butler::db::photos::records::PhotoRecord;
use butler::generator::{compress_meta, write_bins, CompressedMeta, GenerateError};

fn record(width: u32, height: u32, orientation: PhotoOrientation) -> PhotoRecord {
    PhotoRecord {
        pid: 9,
        location: FileLocation { mpid: 1, filename: b"a.jpg".to_vec() },
        file_hash: 1,
        metadata: PhotoMetadata {
            ctime: Timestamp { secs: 1, nanos: 0 },
            mtime: Timestamp { secs: 2, nanos: 0 },
            file_length: 3,
            etime: Some(Timestamp { secs: 1_600_000_000, nanos: 0 }),
            width,
            height,
            orientation,
        },
        selected: true,
        status: PhotoEntryStatus::Committed,
        commit_time: Some(Timestamp { secs: 5, nanos: 0 }),
    }
}

#[test]
fn a_photo_is_described_by_key_time_and_ratio() {
    let meta = compress_meta(&record(5120, 3840, PhotoOrientation::D0));
    assert_eq!(meta, Ok(CompressedMeta { pid: 9, timestamp: 1_600_000_000, h: 3, w: 4 }));
    let turned = compress_meta(&record(5120, 3840, PhotoOrientation::D90));
    assert_eq!(turned, Ok(CompressedMeta { pid: 9, timestamp: 1_600_000_000, h: 4, w: 3 }));
    let upside = compress_meta(&record(5120, 3840, PhotoOrientation::D180));
    assert_eq!(upside.map(|m| (m.h, m.w)), Ok((3, 4)));
    let odd = compress_meta(&record(1000, 3141, PhotoOrientation::D270));
    assert_eq!(odd.map(|m| (m.h, m.w)), Ok((78, 245)));
}

#[test]
fn the_time_of_a_description_keeps_the_low_bits() {
    let mut rec = record(4, 3, PhotoOrientation::D0);
    rec.metadata.etime = Some(Timestamp { secs: 0x1_0000_0005, nanos: 7 });
    assert_eq!(compress_meta(&rec).map(|m| m.timestamp), Ok(5));
    rec.metadata.etime = Some(Timestamp { secs: -1, nanos: 0 });
    assert_eq!(compress_meta(&rec).map(|m| m.timestamp), Ok(u32::MAX));
    rec.metadata.etime = Some(Timestamp { secs: -0x1_0000_0000, nanos: 0 });
    assert_eq!(compress_meta(&rec).map(|m| m.timestamp), Ok(0));
    rec.metadata.etime = Some(Timestamp { secs: i64::MIN, nanos: 0 });
    assert_eq!(compress_meta(&rec).map(|m| m.timestamp), Ok(0));
    rec.metadata.etime = Some(Timestamp { secs: i64::MAX, nanos: 0 });
    assert_eq!(compress_meta(&rec).map(|m| m.timestamp), Ok(u32::MAX));
}

#[test]
fn a_photo_without_what_is_needed_has_no_description() {
    let mut no_time = record(4, 3, PhotoOrientation::D0);
    no_time.metadata.etime = None;
    no_time.commit_time = None;
    assert_eq!(compress_meta(&no_time), Err(GenerateError::NoExifTime));
    let mut no_commit = record(4, 3, PhotoOrientation::D0);
    no_commit.commit_time = None;
    assert_eq!(compress_meta(&no_commit), Err(GenerateError::NoCommitTime));
    assert_eq!(compress_meta(&record(0, 3, PhotoOrientation::D0)), Err(GenerateError::InvalidDimensions));
    assert_eq!(compress_meta(&record(4, 0, PhotoOrientation::D90)), Err(GenerateError::InvalidDimensions));
    assert_eq!(compress_meta(&record(100, 200, PhotoOrientation::D0)), Err(GenerateError::NoRatio));
}

#[test]
fn the_side_table_holds_nine_bytes_for_each_photo() {
    let bins = write_bins(vec![
        CompressedMeta { pid: 0x010203, timestamp: 0x0a0b0c0d, h: 3, w: 4 },
        CompressedMeta { pid: 1, timestamp: 2, h: 5, w: 6 },
        CompressedMeta { pid: 0xffffff, timestamp: 0x0a0b0c0d, h: 7, w: 8 },
        CompressedMeta { pid: 2, timestamp: 0xffffffff, h: 9, w: 10 },
    ]);
    assert_eq!(
        bins,
        Ok(vec![
            0, 0, 1, 0, 0, 0, 2, 5, 6, //
            1, 2, 3, 0x0a, 0x0b, 0x0c, 0x0d, 3, 4, //
            0xff, 0xff, 0xff, 0x0a, 0x0b, 0x0c, 0x0d, 7, 8, //
            0, 0, 2, 0xff, 0xff, 0xff, 0xff, 9, 10,
        ])
    );
    assert_eq!(write_bins(vec![]), Ok(vec![]));
}

#[test]
fn a_key_of_more_than_three_bytes_has_no_row() {
    let bins = write_bins(vec![
        CompressedMeta { pid: 1, timestamp: 2, h: 5, w: 6 },
        CompressedMeta { pid: 0x1000000, timestamp: 1, h: 3, w: 4 },
    ]);
    assert_eq!(bins, Err(GenerateError::PidTooLarge));
}
