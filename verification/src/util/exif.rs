//! What is read out of the EXIF fields of a photo, and out of the JPEG
//! stream itself where the fields say nothing.
use crate::db::photos::misc::Timestamp;
use vstd::prelude::*;
use vstd::utf8::{decode_utf8, valid_utf8};

verus! {

/// The value of an EXIF field, as far as anything is read out of it.
#[derive(Debug)]
pub enum ExifValue {
    Byte(Vec<u8>),
    Ascii(Vec<Vec<u8>>),
    Short(Vec<u16>),
    Long(Vec<u32>),
    SByte(Vec<i8>),
    SShort(Vec<i16>),
    SLong(Vec<i32>),
    /// A value of any other type.
    Other,
}

/// The EXIF fields that are looked at.
#[derive(Clone, Copy, Debug, PartialEq, Eq, Structural)]
pub enum ExifTag {
    DateTime,
    PixelXDimension,
    PixelYDimension,
    ImageWidth,
    ImageLength,
    Orientation,
}

/// The fields of the primary image of a photo.
#[derive(Debug)]
pub struct Exif {
    pub date_time: Option<ExifValue>,
    pub pixel_x_dimension: Option<ExifValue>,
    pub pixel_y_dimension: Option<ExifValue>,
    pub image_width: Option<ExifValue>,
    pub image_length: Option<ExifValue>,
    pub orientation: Option<ExifValue>,
}

/// Why nothing could be read.
#[derive(Clone, Copy, Debug, PartialEq, Eq, Structural)]
pub enum ExifError {
    /// A text field does not hold UTF-8.
    InvalidText,
    /// The JPEG stream ends within a segment, or a segment is shorter than
    /// its own length field.
    Truncated,
}

impl Exif {
    /// The value of a field.
    pub open spec fn field(&self, tag: ExifTag) -> Option<ExifValue> {
        match tag {
            ExifTag::DateTime => self.date_time,
            ExifTag::PixelXDimension => self.pixel_x_dimension,
            ExifTag::PixelYDimension => self.pixel_y_dimension,
            ExifTag::ImageWidth => self.image_width,
            ExifTag::ImageLength => self.image_length,
            ExifTag::Orientation => self.orientation,
        }
    }

    /// The value of a field.
    pub fn get_field(&self, tag: ExifTag) -> (value: Option<&ExifValue>)
        ensures
            value is Some == self.field(tag) is Some,
            value matches Some(v) ==> *v == self.field(tag)->0,
    {
        match tag {
            ExifTag::DateTime => self.date_time.as_ref(),
            ExifTag::PixelXDimension => self.pixel_x_dimension.as_ref(),
            ExifTag::PixelYDimension => self.pixel_y_dimension.as_ref(),
            ExifTag::ImageWidth => self.image_width.as_ref(),
            ExifTag::ImageLength => self.image_length.as_ref(),
            ExifTag::Orientation => self.orientation.as_ref(),
        }
    }
}

/// A signed number read as 32 unsigned bits.
pub open spec fn as_unsigned(v: int) -> u32 {
    if v >= 0 {
        v as u32
    } else {
        (v + 0x1_0000_0000) as u32
    }
}

/// The first number of a value of an integer type, read as 32 unsigned
/// bits.
pub open spec fn first_number(value: ExifValue) -> Option<u32> {
    match value {
        ExifValue::Byte(v) => if v.len() > 0 {
            Some(v[0] as u32)
        } else {
            None
        },
        ExifValue::Short(v) => if v.len() > 0 {
            Some(v[0] as u32)
        } else {
            None
        },
        ExifValue::Long(v) => if v.len() > 0 {
            Some(v[0])
        } else {
            None
        },
        ExifValue::SLong(v) => if v.len() > 0 {
            Some(as_unsigned(v[0] as int))
        } else {
            None
        },
        ExifValue::SShort(v) => if v.len() > 0 {
            Some(as_unsigned(v[0] as int))
        } else {
            None
        },
        ExifValue::SByte(v) => if v.len() > 0 {
            Some(as_unsigned(v[0] as int))
        } else {
            None
        },
        _ => None,
    }
}

/// The number that a field holds.
pub open spec fn number_at(exif: &Exif, tag: ExifTag) -> Option<u32> {
    match exif.field(tag) {
        Some(value) => first_number(value),
        None => None,
    }
}

fn unsigned_of(v: i32) -> (u: u32)
    ensures
        u == as_unsigned(v as int),
{
    if v >= 0 {
        v as u32
    } else {
        (v as i64 + 0x1_0000_0000) as u32
    }
}

/// Reads the number that a field holds.
pub fn read_u32(exif: &Exif, tag: ExifTag) -> (n: Option<u32>)
    ensures
        n == number_at(exif, tag),
{
    match exif.get_field(tag) {
        Some(ExifValue::Byte(v)) => if v.len() > 0 {
            Some(v[0] as u32)
        } else {
            None
        },
        Some(ExifValue::Short(v)) => if v.len() > 0 {
            Some(v[0] as u32)
        } else {
            None
        },
        Some(ExifValue::Long(v)) => if v.len() > 0 {
            Some(v[0])
        } else {
            None
        },
        Some(ExifValue::SLong(v)) => if v.len() > 0 {
            Some(unsigned_of(v[0]))
        } else {
            None
        },
        Some(ExifValue::SShort(v)) => if v.len() > 0 {
            Some(unsigned_of(v[0] as i32))
        } else {
            None
        },
        Some(ExifValue::SByte(v)) => if v.len() > 0 {
            Some(unsigned_of(v[0] as i32))
        } else {
            None
        },
        _ => None,
    }
}

/// The orientation value that stands for an upright picture.
pub const UPRIGHT: u32 = 1;

/// Reads the orientation of the picture; a picture that does not say is
/// taken to be upright.
pub fn read_orientation(exif: &Exif) -> (v: u32)
    ensures
        v == (match number_at(exif, ExifTag::Orientation) {
            Some(n) => n,
            None => UPRIGHT,
        }),
{
    match read_u32(exif, ExifTag::Orientation) {
        Some(n) => n,
        None => UPRIGHT,
    }
}

/// The parts of a text value in one piece.
pub open spec fn joined(parts: Seq<Vec<u8>>, n: int) -> Seq<u8>
    decreases n,
{
    if n <= 0 {
        Seq::empty()
    } else {
        joined(parts, n - 1) + parts[n - 1]@
    }
}

/// Reads a byte string as text.
///
/// Calls `String::from_utf8` of the standard library, which takes the bytes
/// for a string where they are valid UTF-8 and refuses them where they are
/// not.
#[verifier::external_body]
fn text_of(bytes: Vec<u8>) -> (text: Option<String>)
    ensures
        text is Some == valid_utf8(bytes@),
        text matches Some(s) ==> s@ == decode_utf8(bytes@),
{
    String::from_utf8(bytes).ok()
}

/// What a text field is read as: nothing where the field is absent or not a
/// text, else the text of its parts in one piece.
pub open spec fn text_at(exif: &Exif, tag: ExifTag) -> Result<Option<Seq<char>>, ExifError> {
    match exif.field(tag) {
        Some(ExifValue::Ascii(parts)) => if valid_utf8(joined(parts@, parts@.len() as int)) {
            Ok(Some(decode_utf8(joined(parts@, parts@.len() as int))))
        } else {
            Err(ExifError::InvalidText)
        },
        _ => Ok(None),
    }
}

/// The characters of a text, where there is one.
pub open spec fn text_view(text: Result<Option<String>, ExifError>) -> Result<
    Option<Seq<char>>,
    ExifError,
> {
    match text {
        Ok(Some(s)) => Ok(Some(s@)),
        Ok(None) => Ok(None),
        Err(e) => Err(e),
    }
}

/// Reads the text that a field holds.
pub fn read_string(exif: &Exif, tag: ExifTag) -> (text: Result<Option<String>, ExifError>)
    ensures
        text_view(text) == text_at(exif, tag),
{
    match exif.get_field(tag) {
        Some(ExifValue::Ascii(parts)) => {
            let mut bytes: Vec<u8> = Vec::new();
            let mut i: usize = 0;
            while i < parts.len()
                invariant
                    i <= parts.len(),
                    bytes@ == joined(parts@, i as int),
                decreases parts.len() - i,
            {
                let part = &parts[i];
                let ghost before = bytes@;
                let mut j: usize = 0;
                while j < part.len()
                    invariant
                        j <= part.len(),
                        bytes@ == before + part@.subrange(0, j as int),
                    decreases part.len() - j,
                {
                    bytes.push(part[j]);
                    proof {
                        assert(bytes@ =~= before + part@.subrange(0, j + 1));
                    }
                    j += 1;
                }
                proof {
                    assert(part@.subrange(0, part@.len() as int) =~= part@);
                }
                i += 1;
            }
            match text_of(bytes) {
                Some(s) => Ok(Some(s)),
                None => Err(ExifError::InvalidText),
            }
        },
        _ => Ok(None),
    }
}

/// The point in time that a text names when it is read by a format, both
/// taken as they stand without a time zone: the whole seconds since the
/// Unix epoch and the nanoseconds behind them, which count on from a
/// thousand million within a leap second. Nothing where the text does not
/// fit the format.
pub uninterp spec fn naive_time(text: Seq<char>, format: Seq<char>) -> Option<(i64, u32)>;

/// Reads a date and time.
///
/// Calls `chrono::NaiveDateTime::parse_from_str` with the text and the
/// format, and reads what it made with `NaiveDateTime::and_utc`,
/// `DateTime::timestamp` and `DateTime::timestamp_subsec_nanos`. What comes
/// back depends on the two strings alone.
#[verifier::external_body]
fn parse_naive_time(text: &str, format: &str) -> (time: Option<(i64, u32)>)
    ensures
        time == naive_time(text@, format@),
{
    match chrono::NaiveDateTime::parse_from_str(text, format) {
        Ok(time) => Some((time.and_utc().timestamp(), time.and_utc().timestamp_subsec_nanos())),
        Err(_) => None,
    }
}

/// By how many seconds the clock of the camera is ahead of UTC: eight
/// hours.
pub const CAMERA_OFFSET: i64 = 28800;

/// The point in time that the camera meant by a time on its own clock: eight
/// hours earlier, to the nanosecond.
pub open spec fn camera_time(time: Option<(i64, u32)>) -> Option<Timestamp> {
    match time {
        Some((s, n)) => if s - CAMERA_OFFSET >= i64::MIN {
            Some(Timestamp { secs: (s - CAMERA_OFFSET) as i64, nanos: n })
        } else {
            None
        },
        None => None,
    }
}

/// Turns a time on the clock of the camera into a point in time.
pub fn camera_time_of(time: Option<(i64, u32)>) -> (at: Option<Timestamp>)
    ensures
        at == camera_time(time),
{
    match time {
        Some((s, n)) => if s >= i64::MIN + CAMERA_OFFSET {
            Some(Timestamp { secs: s - CAMERA_OFFSET, nanos: n })
        } else {
            None
        },
        None => None,
    }
}

/// What the time of capture is read as: the text of the field, read as
/// `year:month:day hour:minute:second` on the clock of the camera.
pub open spec fn capture_time(exif: &Exif) -> Result<Option<Timestamp>, ExifError> {
    match text_at(exif, ExifTag::DateTime) {
        Ok(Some(text)) => Ok(camera_time(naive_time(text, "%Y:%m:%d %H:%M:%S"@))),
        Ok(None) => Ok(None),
        Err(e) => Err(e),
    }
}

/// Reads the time of capture.
pub fn read_datetime(exif: &Exif) -> (time: Result<Option<Timestamp>, ExifError>)
    ensures
        time == capture_time(exif),
{
    match read_string(exif, ExifTag::DateTime) {
        Ok(Some(text)) => Ok(
            camera_time_of(parse_naive_time(text.as_str(), "%Y:%m:%d %H:%M:%S")),
        ),
        Ok(None) => Ok(None),
        Err(e) => Err(e),
    }
}

/// The first place at or behind `at` that holds another byte than the fill
/// byte, or the end.
pub open spec fn skip_fill(buf: Seq<u8>, at: int) -> int
    decreases buf.len() - at,
{
    if at < 0 || at >= buf.len() || buf[at] != 0xff {
        at
    } else {
        skip_fill(buf, at + 1)
    }
}

/// Whether a marker stands alone, without a segment behind it.
pub open spec fn stands_alone(marker: u8) -> bool {
    marker == 0xd8 || (0xd0 <= marker <= 0xd7) || marker == 0x01
}

/// A number of two bytes, the higher first.
pub open spec fn pair(high: u8, low: u8) -> u32 {
    (high * 256 + low) as u32
}

/// The width and the height that the JPEG stream states from `at` on: those
/// of the first frame header. A stream that ends before one, or at its end
/// marker, states none, which is told by zeros.
pub open spec fn dims_from(buf: Seq<u8>, at: int) -> Result<(u32, u32), ExifError>
    decreases buf.len() - at,
{
    if at < 0 || at >= buf.len() || skip_fill(buf, at) < at {
        Ok((0, 0))
    } else {
        let m = skip_fill(buf, at);
        if m >= buf.len() {
            Err(ExifError::Truncated)
        } else if buf[m] == 0xd9 {
            Ok((0, 0))
        } else if stands_alone(buf[m]) {
            dims_from(buf, m + 1)
        } else if m + 2 >= buf.len() {
            Err(ExifError::Truncated)
        } else if buf[m] == 0xc0 || buf[m] == 0xc2 {
            if m + 7 >= buf.len() {
                Err(ExifError::Truncated)
            } else {
                Ok((pair(buf[m + 6], buf[m + 7]), pair(buf[m + 4], buf[m + 5])))
            }
        } else if pair(buf[m + 1], buf[m + 2]) < 2 {
            Err(ExifError::Truncated)
        } else if m + 1 + pair(buf[m + 1], buf[m + 2]) >= buf.len() {
            Ok((0, 0))
        } else {
            dims_from(buf, m + 1 + pair(buf[m + 1], buf[m + 2]))
        }
    }
}

proof fn lemma_skip_fill(buf: Seq<u8>, at: int)
    requires
        0 <= at <= buf.len(),
    ensures
        at <= skip_fill(buf, at) <= buf.len(),
    decreases buf.len() - at,
{
    if at < buf.len() && buf[at] == 0xff {
        lemma_skip_fill(buf, at + 1);
    }
}

fn pair_of(high: u8, low: u8) -> (n: u32)
    ensures
        n == pair(high, low),
{
    (high as u32) * 256 + low as u32
}

/// Reads width and height out of a JPEG stream.
pub fn read_dims_from_file(buf: &[u8]) -> (dims: Result<(u32, u32), ExifError>)
    ensures
        dims == dims_from(buf@, 0),
{
    let mut offset: usize = 0;
    while offset < buf.len()
        invariant
            dims_from(buf@, 0) == dims_from(buf@, offset as int),
        decreases buf.len() - offset,
    {
        let ghost start = offset;
        while offset < buf.len() && buf[offset] == 0xff
            invariant
                start <= offset <= buf.len(),
                skip_fill(buf@, start as int) == skip_fill(buf@, offset as int),
            decreases buf.len() - offset,
        {
            offset += 1;
        }
        proof {
            lemma_skip_fill(buf@, start as int);
        }
        if offset >= buf.len() {
            return Err(ExifError::Truncated);
        }
        let marker = buf[offset];
        if marker == 0xd9 {
            return Ok((0, 0));
        }
        if marker == 0xd8 || (0xd0 <= marker && marker <= 0xd7) || marker == 0x01 {
            offset += 1;
            continue ;
        }
        if buf.len() - offset <= 2 {
            return Err(ExifError::Truncated);
        }
        if marker == 0xc0 || marker == 0xc2 {
            if buf.len() - offset <= 7 {
                return Err(ExifError::Truncated);
            }
            let h = pair_of(buf[offset + 4], buf[offset + 5]);
            let w = pair_of(buf[offset + 6], buf[offset + 7]);
            return Ok((w, h));
        }
        let len = pair_of(buf[offset + 1], buf[offset + 2]);
        if len < 2 {
            return Err(ExifError::Truncated);
        }
        if len as usize >= buf.len() - offset {
            proof {
                assert(offset + 1 + len >= buf@.len());
            }
            return Ok((0, 0));
        }
        offset = offset + 1 + len as usize;
    }
    Ok((0, 0))
}

/// The width and the height that a JPEG stream states from `at` on, as far
/// as its first bytes tell: `head` holds the first bytes of a stream that is
/// `total` bytes long. `None` where the answer lies behind the head.
pub open spec fn dims_in_head(head: Seq<u8>, total: int, at: int) -> Option<
    Result<(u32, u32), ExifError>,
>
    decreases total - at,
{
    if at < 0 || at >= total || skip_fill(head, at) < at {
        Some(Ok((0, 0)))
    } else {
        let m = skip_fill(head, at);
        if m >= head.len() || m >= total {
            if head.len() >= total {
                Some(Err(ExifError::Truncated))
            } else {
                None
            }
        } else if head[m] == 0xd9 {
            Some(Ok((0, 0)))
        } else if stands_alone(head[m]) {
            dims_in_head(head, total, m + 1)
        } else if m + 2 >= total {
            Some(Err(ExifError::Truncated))
        } else if head[m] == 0xc0 || head[m] == 0xc2 {
            if m + 7 >= total {
                Some(Err(ExifError::Truncated))
            } else if m + 7 >= head.len() {
                None
            } else {
                Some(Ok((pair(head[m + 6], head[m + 7]), pair(head[m + 4], head[m + 5]))))
            }
        } else if m + 2 >= head.len() {
            None
        } else if pair(head[m + 1], head[m + 2]) < 2 {
            Some(Err(ExifError::Truncated))
        } else if m + 1 + pair(head[m + 1], head[m + 2]) >= total {
            Some(Ok((0, 0)))
        } else {
            dims_in_head(head, total, m + 1 + pair(head[m + 1], head[m + 2]))
        }
    }
}

/// Fill bytes are skipped in the head of a stream as in the stream, as long
/// as the head does not end first.
pub proof fn lemma_skip_fill_head(head: Seq<u8>, whole: Seq<u8>, at: int)
    requires
        head.len() <= whole.len(),
        head == whole.subrange(0, head.len() as int),
        0 <= at,
    ensures
        at <= skip_fill(head, at),
        skip_fill(head, at) < head.len() ==> skip_fill(whole, at) == skip_fill(head, at),
        at < head.len() ==> skip_fill(head, at) <= head.len(),
    decreases head.len() - at,
{
    if at < head.len() {
        assert(head[at] == whole[at]);
        if head[at] == 0xff {
            lemma_skip_fill_head(head, whole, at + 1);
        }
    }
}

/// What the head of a stream tells of its dimensions holds of the stream:
/// where the head has an answer, it is the answer of every stream of that
/// length that starts with the head.
pub proof fn lemma_head_decides(head: Seq<u8>, whole: Seq<u8>, at: int)
    requires
        head.len() <= whole.len(),
        head == whole.subrange(0, head.len() as int),
        dims_in_head(head, whole.len() as int, at) is Some,
    ensures
        dims_from(whole, at) == dims_in_head(head, whole.len() as int, at)->0,
    decreases whole.len() - at,
{
    let total = whole.len() as int;
    if 0 <= at < total {
        lemma_skip_fill_head(head, whole, at);
        lemma_skip_fill(whole, at);
        let m = skip_fill(head, at);
        if m >= head.len() {
            assert(head =~= whole);
        } else {
            assert(skip_fill(whole, at) == m);
            assert(head[m] == whole[m]);
            if head[m] == 0xd9 {
            } else if stands_alone(head[m]) {
                lemma_head_decides(head, whole, m + 1);
            } else if m + 2 >= total {
            } else if head[m] == 0xc0 || head[m] == 0xc2 {
                if m + 7 < head.len() {
                    assert(head[m + 4] == whole[m + 4]);
                    assert(head[m + 5] == whole[m + 5]);
                    assert(head[m + 6] == whole[m + 6]);
                    assert(head[m + 7] == whole[m + 7]);
                }
            } else {
                assert(head[m + 1] == whole[m + 1]);
                assert(head[m + 2] == whole[m + 2]);
                let len = pair(head[m + 1], head[m + 2]);
                if len >= 2 && m + 1 + len < total {
                    lemma_head_decides(head, whole, m + 1 + len);
                }
            }
        }
    }
}

/// Reads width and height out of the first bytes of a JPEG stream that is
/// `total` bytes long; `None` where more of the stream has to be read.
pub fn read_dims_from_head(head: &[u8], total: usize) -> (dims: Option<
    Result<(u32, u32), ExifError>,
>)
    requires
        head@.len() <= total,
    ensures
        dims == dims_in_head(head@, total as int, 0),
        head@.len() == total ==> dims is Some,
{
    proof {
        lemma_whole_head_decides(head@, 0);
    }
    let mut offset: usize = 0;
    while offset < total
        invariant
            head@.len() <= total,
            dims_in_head(head@, total as int, 0) == dims_in_head(head@, total as int, offset as int),
        decreases total - offset,
    {
        let ghost start = offset;
        while offset < head.len() && head[offset] == 0xff
            invariant
                start <= offset,
                offset <= head.len() || offset == start,
                skip_fill(head@, start as int) == skip_fill(head@, offset as int),
            decreases head.len() - offset,
        {
            offset += 1;
        }
        proof {
            if start < head@.len() {
                lemma_skip_fill(head@, start as int);
            }
        }
        if offset >= head.len() {
            if head.len() >= total {
                return Some(Err(ExifError::Truncated));
            }
            return None;
        }
        let marker = head[offset];
        if marker == 0xd9 {
            return Some(Ok((0, 0)));
        }
        if marker == 0xd8 || (0xd0 <= marker && marker <= 0xd7) || marker == 0x01 {
            offset += 1;
            continue ;
        }
        if total - offset <= 2 {
            return Some(Err(ExifError::Truncated));
        }
        if marker == 0xc0 || marker == 0xc2 {
            if total - offset <= 7 {
                return Some(Err(ExifError::Truncated));
            }
            if head.len() - offset <= 7 {
                return None;
            }
            let h = pair_of(head[offset + 4], head[offset + 5]);
            let w = pair_of(head[offset + 6], head[offset + 7]);
            return Some(Ok((w, h)));
        }
        if head.len() - offset <= 2 {
            return None;
        }
        let len = pair_of(head[offset + 1], head[offset + 2]);
        if len < 2 {
            return Some(Err(ExifError::Truncated));
        }
        if len as usize >= total - offset {
            proof {
                assert(offset + 1 + len >= total);
            }
            return Some(Ok((0, 0)));
        }
        offset = offset + 1 + len as usize;
    }
    Some(Ok((0, 0)))
}

/// A head that is the whole stream has an answer.
pub proof fn lemma_whole_head_decides(whole: Seq<u8>, at: int)
    ensures
        dims_in_head(whole, whole.len() as int, at) is Some,
    decreases whole.len() - at,
{
    let total = whole.len() as int;
    if 0 <= at < total {
        lemma_skip_fill(whole, at);
        let m = skip_fill(whole, at);
        if m < total {
            if whole[m] == 0xd9 {
            } else if stands_alone(whole[m]) {
                lemma_whole_head_decides(whole, m + 1);
            } else if m + 2 >= total {
            } else if whole[m] == 0xc0 || whole[m] == 0xc2 {
            } else {
                let len = pair(whole[m + 1], whole[m + 2]);
                if len >= 2 && m + 1 + len < total {
                    lemma_whole_head_decides(whole, m + 1 + len);
                }
            }
        }
    }
}

/// The width and the height of a picture as far as the first bytes of its
/// stream tell: what the EXIF fields say, or else what the head states.
pub open spec fn dims_in_head_of(exif: &Exif, head: Seq<u8>, total: int) -> Option<
    Result<(u32, u32), ExifError>,
> {
    let width = match number_at(exif, ExifTag::PixelXDimension) {
        Some(w) => Some(w),
        None => number_at(exif, ExifTag::ImageWidth),
    };
    let height = match number_at(exif, ExifTag::PixelYDimension) {
        Some(h) => Some(h),
        None => number_at(exif, ExifTag::ImageLength),
    };
    if width is Some && height is Some {
        Some(Ok((width->0, height->0)))
    } else {
        dims_in_head(head, total, 0)
    }
}

/// Reads width and height of a picture from its EXIF fields or else from
/// the first bytes of its stream; `None` where more of the stream has to
/// be read.
pub fn read_dims_in_head(exif: &Exif, head: &[u8], total: usize) -> (dims: Option<
    Result<(u32, u32), ExifError>,
>)
    requires
        head@.len() <= total,
    ensures
        dims == dims_in_head_of(exif, head@, total as int),
        head@.len() == total ==> dims is Some,
{
    let width = match read_u32(exif, ExifTag::PixelXDimension) {
        Some(w) => Some(w),
        None => read_u32(exif, ExifTag::ImageWidth),
    };
    let height = match read_u32(exif, ExifTag::PixelYDimension) {
        Some(h) => Some(h),
        None => read_u32(exif, ExifTag::ImageLength),
    };
    match (width, height) {
        (Some(w), Some(h)) => Some(Ok((w, h))),
        _ => read_dims_from_head(head, total),
    }
}

/// The width and the height of a picture: what the EXIF fields say, the
/// pixel dimensions before the image dimensions, or else what the JPEG
/// stream states.
pub open spec fn dims_of(exif: &Exif, buf: Seq<u8>) -> Result<(u32, u32), ExifError> {
    let width = match number_at(exif, ExifTag::PixelXDimension) {
        Some(w) => Some(w),
        None => number_at(exif, ExifTag::ImageWidth),
    };
    let height = match number_at(exif, ExifTag::PixelYDimension) {
        Some(h) => Some(h),
        None => number_at(exif, ExifTag::ImageLength),
    };
    if width is Some && height is Some {
        Ok((width->0, height->0))
    } else {
        dims_from(buf, 0)
    }
}

/// Reads width and height of a picture.
pub fn read_dims(exif: &Exif, buf: &[u8]) -> (dims: Result<(u32, u32), ExifError>)
    ensures
        dims == dims_of(exif, buf@),
{
    let width = match read_u32(exif, ExifTag::PixelXDimension) {
        Some(w) => Some(w),
        None => read_u32(exif, ExifTag::ImageWidth),
    };
    let height = match read_u32(exif, ExifTag::PixelYDimension) {
        Some(h) => Some(h),
        None => read_u32(exif, ExifTag::ImageLength),
    };
    match (width, height) {
        (Some(w), Some(h)) => Ok((w, h)),
        _ => read_dims_from_file(buf),
    }
}

} // verus!
