use butler::db::photos::metadata::{FileStat, MetadataError};
use butler::db::photos::misc::{PhotoMetadata, PhotoOrientation, Timestamp};
use butler::util::exif::{
    camera_time_of, read_datetime, read_dims, read_dims_from_file, read_dims_from_head,
    read_dims_in_head, read_orientation, read_string, read_u32, Exif, ExifError, ExifTag,
    ExifValue,
};

fn exif() -> Exif {
    Exif {
        date_time: None,
        pixel_x_dimension: None,
        pixel_y_dimension: None,
        image_width: None,
        image_length: None,
        orientation: None,
    }
}

fn text(parts: &[&str]) -> Option<ExifValue> {
    Some(ExifValue::Ascii(parts.iter().map(|p| p.as_bytes().to_vec()).collect()))
}

const STAT: FileStat = FileStat {
    created: Timestamp { secs: 1, nanos: 2 },
    modified: Timestamp { secs: 3, nanos: 4 },
    len: 5,
};

fn jpeg(width: u16, height: u16) -> Vec<u8> {
    let mut buf = vec![0xff, 0xd8, 0xff, 0xe0, 0x00, 0x04, 0xaa, 0xbb, 0xff, 0xff, 0xc0, 0x00, 0x11, 0x08];
    buf.extend_from_slice(&height.to_be_bytes());
    buf.extend_from_slice(&width.to_be_bytes());
    buf.extend_from_slice(&[0x03, 0xff, 0xd9]);
    buf
}

#[test]
fn numbers_are_read_from_fields_of_every_integer_type() {
    let with = |value: ExifValue| Exif { orientation: Some(value), ..exif() };
    assert_eq!(read_u32(&with(ExifValue::Byte(vec![7, 8])), ExifTag::Orientation), Some(7));
    assert_eq!(read_u32(&with(ExifValue::Short(vec![700])), ExifTag::Orientation), Some(700));
    assert_eq!(read_u32(&with(ExifValue::Long(vec![70000])), ExifTag::Orientation), Some(70000));
    assert_eq!(read_u32(&with(ExifValue::SLong(vec![-1])), ExifTag::Orientation), Some(u32::MAX));
    assert_eq!(read_u32(&with(ExifValue::SLong(vec![i32::MIN])), ExifTag::Orientation), Some(0x8000_0000));
    assert_eq!(read_u32(&with(ExifValue::SShort(vec![-2])), ExifTag::Orientation), Some(u32::MAX - 1));
    assert_eq!(read_u32(&with(ExifValue::SByte(vec![5])), ExifTag::Orientation), Some(5));
    assert_eq!(read_u32(&with(ExifValue::SByte(vec![-128])), ExifTag::Orientation), Some(0xffff_ff80));
    assert_eq!(read_u32(&with(ExifValue::Long(vec![])), ExifTag::Orientation), None);
    assert_eq!(read_u32(&with(ExifValue::SByte(vec![])), ExifTag::Orientation), None);
    assert_eq!(read_u32(&with(ExifValue::Other), ExifTag::Orientation), None);
    assert_eq!(read_u32(&with(ExifValue::Ascii(vec![b"1".to_vec()])), ExifTag::Orientation), None);
    assert_eq!(read_u32(&with(ExifValue::Long(vec![3])), ExifTag::ImageWidth), None);
    assert_eq!(read_u32(&exif(), ExifTag::Orientation), None);
}

#[test]
fn a_picture_that_does_not_say_is_upright() {
    assert_eq!(read_orientation(&exif()), 1);
    assert_eq!(read_orientation(&Exif { orientation: Some(ExifValue::Short(vec![6])), ..exif() }), 6);
}

#[test]
fn text_fields_are_read_in_one_piece() {
    let fields = Exif { date_time: text(&["ab", "", "c"]), ..exif() };
    assert_eq!(read_string(&fields, ExifTag::DateTime), Ok(Some("abc".to_string())));
    assert_eq!(read_string(&fields, ExifTag::Orientation), Ok(None));
    let number = Exif { date_time: Some(ExifValue::Long(vec![1])), ..exif() };
    assert_eq!(read_string(&number, ExifTag::DateTime), Ok(None));
    let broken = Exif { date_time: Some(ExifValue::Ascii(vec![vec![0xff, 0xfe]])), ..exif() };
    assert_eq!(read_string(&broken, ExifTag::DateTime), Err(ExifError::InvalidText));
    let split = Exif { date_time: Some(ExifValue::Ascii(vec![vec![0xc3], vec![0xa9]])), ..exif() };
    assert_eq!(read_string(&split, ExifTag::DateTime), Ok(Some("\u{e9}".to_string())));
}

#[test]
fn the_time_of_capture_is_read_on_the_clock_of_the_camera() {
    let fields = Exif { date_time: text(&["2020:01:02 03:04:05"]), ..exif() };
    assert_eq!(read_datetime(&fields), Ok(Some(Timestamp { secs: 1_577_905_445, nanos: 0 })));
    let epoch = Exif { date_time: text(&["1970:01:01 08:00:00"]), ..exif() };
    assert_eq!(read_datetime(&epoch), Ok(Some(Timestamp { secs: 0, nanos: 0 })));
    for other in ["2020-01-02 03:04:05", "2020:01:02", "", "2020:13:02 03:04:05", "2020:01:02 03:04:05 x"] {
        let fields = Exif { date_time: text(&[other]), ..exif() };
        assert_eq!(read_datetime(&fields), Ok(None), "{:?}", other);
    }
    assert_eq!(read_datetime(&exif()), Ok(None));
    let broken = Exif { date_time: Some(ExifValue::Ascii(vec![vec![0x80]])), ..exif() };
    assert_eq!(read_datetime(&broken), Err(ExifError::InvalidText));
    assert_eq!(camera_time_of(Some((28800, 7))), Some(Timestamp { secs: 0, nanos: 7 }));
    assert_eq!(camera_time_of(Some((i64::MIN + 28799, 0))), None);
    assert_eq!(camera_time_of(Some((i64::MIN + 28800, 0))), Some(Timestamp { secs: i64::MIN, nanos: 0 }));
    assert_eq!(camera_time_of(None), None);
}

#[test]
fn a_leap_second_keeps_its_mark() {
    let leap = Exif { date_time: text(&["2016:12:31 23:59:60"]), ..exif() };
    let before = Exif { date_time: text(&["2016:12:31 23:59:59"]), ..exif() };
    assert_eq!(read_datetime(&before), Ok(Some(Timestamp { secs: 1_483_199_999, nanos: 0 })));
    assert_eq!(
        read_datetime(&leap),
        Ok(Some(Timestamp { secs: 1_483_199_999, nanos: 1_000_000_000 }))
    );
}

#[test]
fn the_dimensions_are_read_from_the_frame_header() {
    assert_eq!(read_dims_from_file(&jpeg(640, 480)), Ok((640, 480)));
    assert_eq!(read_dims_from_file(&[]), Ok((0, 0)));
    assert_eq!(read_dims_from_file(&[0xff, 0xd8, 0xff, 0xd9]), Ok((0, 0)));
    assert_eq!(read_dims_from_file(&[0xff, 0xd8, 0xff, 0xd0, 0x01, 0xff, 0xd9, 0xff, 0xc0]), Ok((0, 0)));
    let progressive = [0xff, 0xc2, 0x00, 0x11, 0x08, 0x01, 0x02, 0x03, 0x04];
    assert_eq!(read_dims_from_file(&progressive), Ok((0x0304, 0x0102)));
    assert_eq!(read_dims_from_file(&[0xff, 0xe0, 0x00, 0x10, 0x01]), Ok((0, 0)));
}

#[test]
fn a_stream_that_breaks_off_is_reported() {
    assert_eq!(read_dims_from_file(&[0xff, 0xd8, 0xff]), Err(ExifError::Truncated));
    assert_eq!(read_dims_from_file(&[0xff, 0xe0, 0x00]), Err(ExifError::Truncated));
    assert_eq!(read_dims_from_file(&[0xff, 0xc0, 0x00, 0x11, 0x08, 0x01, 0x02, 0x03]), Err(ExifError::Truncated));
    assert_eq!(read_dims_from_file(&[0xff, 0xe0, 0x00, 0x01, 0x00, 0x00]), Err(ExifError::Truncated));
}

#[test]
fn the_fields_come_before_the_stream() {
    let long = |n: u32| Some(ExifValue::Long(vec![n]));
    let both = Exif { pixel_x_dimension: long(10), pixel_y_dimension: long(20), image_width: long(1), image_length: long(2), ..exif() };
    assert_eq!(read_dims(&both, &jpeg(640, 480)), Ok((10, 20)));
    let mixed = Exif { pixel_x_dimension: long(10), image_length: long(2), ..exif() };
    assert_eq!(read_dims(&mixed, &jpeg(640, 480)), Ok((10, 2)));
    let half = Exif { image_width: long(1), ..exif() };
    assert_eq!(read_dims(&half, &jpeg(640, 480)), Ok((640, 480)));
    assert_eq!(read_dims(&half, &[0xff]), Err(ExifError::Truncated));
}

#[test]
fn metadata_are_made_of_what_was_read() {
    let fields = Exif {
        date_time: text(&["2020:01:02 03:04:05"]),
        orientation: Some(ExifValue::Short(vec![8])),
        image_width: Some(ExifValue::Short(vec![30])),
        ..exif()
    };
    assert_eq!(
        PhotoMetadata::from_path(STAT, Some(&fields), &jpeg(640, 480)),
        Ok(PhotoMetadata {
            ctime: STAT.created,
            mtime: STAT.modified,
            file_length: 5,
            etime: Some(Timestamp { secs: 1_577_905_445, nanos: 0 }),
            width: 640,
            height: 480,
            orientation: PhotoOrientation::D270,
        })
    );
    assert_eq!(
        PhotoMetadata::from_path(STAT, None, &jpeg(64, 48)),
        Ok(PhotoMetadata {
            ctime: STAT.created,
            mtime: STAT.modified,
            file_length: 5,
            etime: None,
            width: 64,
            height: 48,
            orientation: PhotoOrientation::D0,
        })
    );
    let unknown = Exif { orientation: Some(ExifValue::Short(vec![5])), ..exif() };
    assert_eq!(PhotoMetadata::from_path(STAT, Some(&unknown), &jpeg(6, 4)), Err(MetadataError::UnknownOrientation));
    assert_eq!(
        PhotoMetadata::from_path(STAT, Some(&exif()), &[0xff]),
        Err(MetadataError::Exif(ExifError::Truncated))
    );
    assert_eq!(PhotoMetadata::from_path(STAT, None, &[0xff]), Err(MetadataError::Exif(ExifError::Truncated)));
    let broken = Exif { date_time: Some(ExifValue::Ascii(vec![vec![0x80]])), ..exif() };
    assert_eq!(
        PhotoMetadata::from_path(STAT, Some(&broken), &jpeg(6, 4)),
        Err(MetadataError::Exif(ExifError::InvalidText))
    );
    let mut own = PhotoMetadata::from_path(STAT, None, &jpeg(6, 4)).unwrap();
    let donor = PhotoMetadata::from_path(STAT, Some(&fields), &jpeg(6, 4)).unwrap();
    assert!(own.differs_cheaply(&PhotoMetadata { file_length: 6, ..own }));
    assert!(!own.differs_cheaply(&donor));
    assert!(own.fix_from(&donor));
    assert_eq!(own.etime, donor.etime);
    assert!(!own.fix_from(&PhotoMetadata { etime: None, ..donor }));
    assert_eq!(own.etime, donor.etime);
}

#[test]
fn the_head_of_a_stream_answers_as_the_stream_or_asks_for_more() {
    let mut long = vec![0xff, 0xd8, 0xff, 0xe1, 0x00, 0x20];
    long.extend_from_slice(&[0x55; 30]);
    long.extend_from_slice(&jpeg(800, 600)[2..]);
    let streams = [
        jpeg(640, 480),
        long,
        vec![],
        vec![0xff, 0xd8, 0xff, 0xd9],
        vec![0xff, 0xd8, 0xff],
        vec![0xff, 0xd8, 0xff, 0xe0, 0x00, 0x01, 0x00],
        vec![0xff, 0xd8, 0xff, 0xe0, 0x00, 0x40, 0x00],
        vec![0xff, 0xc0, 0x00, 0x11, 0x08, 0x01],
    ];
    for whole in streams.iter() {
        let answer = read_dims_from_file(whole);
        assert_eq!(read_dims_from_head(whole, whole.len()), Some(answer));
        let mut asked = 0;
        for n in 0..whole.len() {
            match read_dims_from_head(&whole[..n], whole.len()) {
                Some(early) => assert_eq!(early, answer, "{:?} at {}", whole, n),
                None => asked += 1,
            }
        }
        assert!(whole.is_empty() || asked > 0, "{:?}", whole);
    }
    let picture = jpeg(640, 480);
    assert_eq!(read_dims_from_head(&picture[..17], picture.len()), None);
    assert_eq!(read_dims_from_head(&picture[..18], picture.len()), Some(Ok((640, 480))));
    assert_eq!(read_dims_from_head(&picture[..5], picture.len()), None);
    let fields = Exif {
        pixel_x_dimension: Some(ExifValue::Long(vec![30])),
        pixel_y_dimension: Some(ExifValue::Long(vec![20])),
        ..exif()
    };
    assert_eq!(read_dims_in_head(&fields, &[], 500), Some(Ok((30, 20))));
    assert_eq!(read_dims_in_head(&exif(), &[], 500), None);
    assert_eq!(PhotoMetadata::from_head(STAT, None, &picture[..10], picture.len()), None);
    assert_eq!(
        PhotoMetadata::from_head(STAT, None, &picture[..18], picture.len()),
        Some(PhotoMetadata::from_path(STAT, None, &picture))
    );
    assert_eq!(
        PhotoMetadata::from_head(STAT, Some(&fields), &[], picture.len()),
        Some(PhotoMetadata::from_path(STAT, Some(&fields), &picture))
    );
    let broken = Exif { orientation: Some(ExifValue::Short(vec![2])), ..exif() };
    assert_eq!(PhotoMetadata::from_head(STAT, Some(&broken), &picture[..3], picture.len()), None);
    assert_eq!(
        PhotoMetadata::from_head(STAT, Some(&broken), &picture, picture.len()),
        Some(Err(MetadataError::UnknownOrientation))
    );
}
