//! What the generator of the gallery needs of the selected photos: a compact
//! description of each, and the side table that holds them all.
use crate::db::photos::misc::{PhotoOrientation, PID};
use crate::db::photos::records::{PhotoRecord, PhotoRecordView};
use crate::util::math::{limit_ratio, limited, RatioError};
use crate::util::order::{ordered, sort_by_rank, Ranked};
use byteorder::WriteBytesExt;
use vstd::arithmetic::div_mod::{lemma_fundamental_div_mod, lemma_fundamental_div_mod_converse};
use vstd::prelude::*;

verus! {

/// The largest number that the side table has room for in a term of the
/// aspect ratio.
pub const RATIO_LIMIT: u32 = 255;

/// One more than the largest primary key that the side table has room for.
pub const PID_LIMIT: u32 = 0x100_0000;

/// The compact description of a photo: its primary key, the time of its
/// capture in seconds, and its aspect ratio, upright, in small numbers.
#[derive(Clone, Copy, Debug, PartialEq, Eq, Structural)]
pub struct CompressedMeta {
    pub pid: PID,
    pub timestamp: u32,
    pub h: u8,
    pub w: u8,
}

impl Ranked for CompressedMeta {
    open spec fn rank(&self) -> u64 {
        self.timestamp as u64
    }

    fn rank_of(&self) -> (rank: u64) {
        self.timestamp as u64
    }
}

/// Why a photo has no compact description, or a side table cannot be made.
#[derive(Clone, Copy, Debug, PartialEq, Eq, Structural)]
pub enum GenerateError {
    /// The photo has no capture time.
    NoExifTime,
    /// The photo was never committed.
    NoCommitTime,
    /// The width or the height of the photo is zero.
    InvalidDimensions,
    /// The aspect ratio of the photo has no form in small numbers.
    NoRatio,
    /// The primary key of a photo takes more than three bytes.
    PidTooLarge,
}

/// The lower 32 bits of a number of seconds.
pub open spec fn low_bits(secs: i64) -> u32 {
    (secs as int % 0x1_0000_0000) as u32
}

/// Height and width of a photo as it stands upright.
pub open spec fn upright(rec: PhotoRecordView) -> (u32, u32) {
    if rec.metadata.orientation == PhotoOrientation::D0 || rec.metadata.orientation
        == PhotoOrientation::D180 {
        (rec.metadata.height, rec.metadata.width)
    } else {
        (rec.metadata.width, rec.metadata.height)
    }
}

/// The compact description of a photo, or the reason why it has none.
pub open spec fn described(rec: PhotoRecordView) -> Result<CompressedMeta, GenerateError> {
    if rec.metadata.etime is None {
        Err(GenerateError::NoExifTime)
    } else if rec.commit_time is None {
        Err(GenerateError::NoCommitTime)
    } else if upright(rec).0 == 0 || upright(rec).1 == 0 {
        Err(GenerateError::InvalidDimensions)
    } else {
        match limited(upright(rec).0 as int, upright(rec).1 as int, RATIO_LIMIT as int) {
            Some((h, w)) => Ok(
                CompressedMeta {
                    pid: rec.pid,
                    timestamp: low_bits(rec.metadata.etime->0.secs),
                    h: h as u8,
                    w: w as u8,
                },
            ),
            None => Err(GenerateError::NoRatio),
        }
    }
}

fn low_bits_of(secs: i64) -> (low: u32)
    ensures
        low == low_bits(secs),
{
    let modulus: i64 = 0x1_0000_0000;
    if secs >= 0 {
        (secs % modulus) as u32
    } else {
        let below: i64 = -(secs + 1);
        let rest: i64 = modulus - 1 - below % modulus;
        proof {
            let q = below as int / modulus as int;
            let r = below as int % modulus as int;
            lemma_fundamental_div_mod(below as int, modulus as int);
            assert(secs as int == (-(q + 1)) * modulus as int + rest as int) by (nonlinear_arith)
                requires
                    below as int == modulus as int * q + r,
                    secs as int == -(below as int + 1),
                    rest as int == modulus as int - 1 - r,
            ;
            lemma_fundamental_div_mod_converse(
                secs as int,
                modulus as int,
                -(q + 1),
                rest as int,
            );
        }
        rest as u32
    }
}

/// Describes a photo for the side table.
pub fn compress_meta(rec: &PhotoRecord) -> (meta: Result<CompressedMeta, GenerateError>)
    ensures
        meta == described(rec@),
{
    let etime = match rec.metadata.etime {
        Some(etime) => etime,
        None => {
            return Err(GenerateError::NoExifTime);
        },
    };
    if rec.commit_time.is_none() {
        return Err(GenerateError::NoCommitTime);
    }
    let (h, w) = if rec.metadata.orientation.swaps_sides() {
        (rec.metadata.width, rec.metadata.height)
    } else {
        (rec.metadata.height, rec.metadata.width)
    };
    if h == 0 || w == 0 {
        return Err(GenerateError::InvalidDimensions);
    }
    match limit_ratio(h, w, RATIO_LIMIT) {
        Ok((h, w)) => Ok(
            CompressedMeta { pid: rec.pid, timestamp: low_bits_of(etime.secs), h: h as u8, w: w as u8 },
        ),
        Err(RatioError::UnitTerm) => Err(GenerateError::NoRatio),
    }
}

/// The `count` lowest bytes of a number, the highest of them first.
pub open spec fn be_bytes(n: nat, count: nat) -> Seq<u8>
    decreases count,
{
    if count == 0 {
        Seq::empty()
    } else {
        be_bytes(n / 256, (count - 1) as nat).push((n % 256) as u8)
    }
}

/// The smallest number that does not fit into `count` bytes.
pub open spec fn limit_of(count: nat) -> nat
    decreases count,
{
    if count == 0 {
        1
    } else {
        256 * limit_of((count - 1) as nat)
    }
}

/// Appends the `nbytes` bytes of a number, the highest first.
///
/// Calls `byteorder::WriteBytesExt::write_uint` for `byteorder::BigEndian`
/// on the vector. That function writes the number in big-endian order into
/// `nbytes` bytes, and fails hard where the number does not fit into them or
/// where `nbytes` is more than eight; writing to a vector reports no error.
#[verifier::external_body]
fn push_uint_be(out: &mut Vec<u8>, n: u64, nbytes: usize)
    requires
        1 <= nbytes <= 8,
        n < limit_of(nbytes as nat),
    ensures
        final(out)@ == old(out)@ + be_bytes(n as nat, nbytes as nat),
{
    let _ = out.write_uint::<byteorder::BigEndian>(n, nbytes);
}

/// Appends the four bytes of a number, the highest first.
///
/// Calls `byteorder::WriteBytesExt::write_u32` for `byteorder::BigEndian` on
/// the vector, which writes the number in big-endian order; writing to a
/// vector reports no error.
#[verifier::external_body]
fn push_u32_be(out: &mut Vec<u8>, n: u32)
    ensures
        final(out)@ == old(out)@ + be_bytes(n as nat, 4),
{
    let _ = out.write_u32::<byteorder::BigEndian>(n);
}

/// Appends one byte.
///
/// Calls `byteorder::WriteBytesExt::write_u8` on the vector, which writes
/// the byte; writing to a vector reports no error.
#[verifier::external_body]
fn push_u8(out: &mut Vec<u8>, n: u8)
    ensures
        final(out)@ == old(out)@.push(n),
{
    let _ = out.write_u8(n);
}

/// The nine bytes of one photo in the side table: three of the primary key
/// and four of the time, each with the highest byte first, then the height
/// and the width.
pub open spec fn row_bytes(meta: CompressedMeta) -> Seq<u8> {
    be_bytes(meta.pid as nat, 3) + be_bytes(meta.timestamp as nat, 4) + seq![meta.h, meta.w]
}

/// The side table of the first `n` photos of a list.
pub open spec fn table_bytes(metas: Seq<CompressedMeta>, n: int) -> Seq<u8>
    decreases n,
{
    if n <= 0 {
        Seq::empty()
    } else {
        table_bytes(metas, n - 1) + row_bytes(metas[n - 1])
    }
}

/// Whether every primary key of a list fits into the side table.
pub open spec fn pids_fit(metas: Seq<CompressedMeta>) -> bool {
    forall|i: int| 0 <= i < metas.len() ==> (#[trigger] metas[i]).pid < PID_LIMIT
}

/// Makes the side table: the rows of all photos in the order of their
/// capture times. A photo whose primary key takes more than three bytes has
/// no row, and no table is made.
pub fn write_bins(metas: Vec<CompressedMeta>) -> (bins: Result<Vec<u8>, GenerateError>)
    ensures
        bins is Ok == pids_fit(metas@),
        bins matches Ok(bytes) ==> exists|sorted: Seq<CompressedMeta>|
            #[trigger] ordered(metas@, sorted) && bytes@ == table_bytes(
                sorted,
                sorted.len() as int,
            ),
        bins matches Err(e) ==> e == GenerateError::PidTooLarge,
{
    let ghost given = metas@;
    let mut list = metas;
    let mut i: usize = 0;
    while i < list.len()
        invariant
            i <= list.len(),
            list@ == given,
            given == metas@,
            forall|j: int| 0 <= j < i ==> (#[trigger] given[j]).pid < PID_LIMIT,
        decreases list.len() - i,
    {
        if list[i].pid >= PID_LIMIT {
            proof {
                assert(given[i as int].pid >= PID_LIMIT);
            }
            return Err(GenerateError::PidTooLarge);
        }
        i += 1;
    }
    sort_by_rank(&mut list);
    let ghost sorted = list@;
    proof {
        let from = choose|from: Seq<int>| crate::util::order::ordered_from(given, sorted, from);
        assert forall|j: int| 0 <= j < sorted.len() implies (#[trigger] sorted[j]).pid
            < PID_LIMIT by {
            assert(sorted[j] == given[from[j]]);
        }
        assert(limit_of(3) == 0x100_0000) by {
            reveal_with_fuel(limit_of, 4);
        }
    }
    let mut out: Vec<u8> = Vec::new();
    let mut k: usize = 0;
    while k < list.len()
        invariant
            k <= list.len(),
            list@ == sorted,
            limit_of(3) == 0x100_0000,
            forall|j: int| 0 <= j < sorted.len() ==> (#[trigger] sorted[j]).pid < PID_LIMIT,
            out@ == table_bytes(sorted, k as int),
        decreases list.len() - k,
    {
        let meta = list[k];
        let ghost before = out@;
        push_uint_be(&mut out, meta.pid as u64, 3);
        push_u32_be(&mut out, meta.timestamp);
        push_u8(&mut out, meta.h);
        push_u8(&mut out, meta.w);
        proof {
            assert(out@ =~= before + row_bytes(meta));
        }
        k += 1;
    }
    Ok(out)
}

} // verus!
