//! Records of the TDX "vipdoc" bar files: `.day` files of daily bars and
//! `.lc1` / `.lc5` files of minute bars, 32 little-endian bytes per bar.

use vstd::prelude::*;
use crate::protocol::{
    datetime_at, lemma_le_u16_bytes, lemma_le_u32_bytes, le_u16_at, le_u32_at, read_u16_le,
    read_u32_le,
};

verus! {

/// Size of one record of a `.day` file.
pub const DAILY_RECORD_SIZE: usize = 32;

/// Size of one record of an `.lc1` / `.lc5` file.
pub const MINUTE_RECORD_SIZE: usize = 32;

/// One daily bar.  Prices are the stored integers (in the file's price unit);
/// `amount_bits` holds the 32 bits of the `f32` turnover.
#[derive(Clone, Copy, Debug, PartialEq, Eq, Structural)]
pub struct DailyRecord {
    pub year: u32,
    pub month: u32,
    pub day: u32,
    pub open: u32,
    pub high: u32,
    pub low: u32,
    pub close: u32,
    pub amount_bits: u32,
    pub volume: u32,
}

/// A daily record: date as `YYYYMMDD`, open, high, low, close, the
/// turnover, the volume, and four reserved bytes.
pub open spec fn daily_record_of(rec: Seq<u8>) -> DailyRecord {
    let date = le_u32_at(rec, 0);
    DailyRecord {
        year: (date / 10000) as u32,
        month: ((date % 10000) / 100) as u32,
        day: (date % 100) as u32,
        open: le_u32_at(rec, 4) as u32,
        high: le_u32_at(rec, 8) as u32,
        low: le_u32_at(rec, 12) as u32,
        close: le_u32_at(rec, 16) as u32,
        amount_bits: le_u32_at(rec, 20) as u32,
        volume: le_u32_at(rec, 24) as u32,
    }
}

/// The daily record that starts at `p`.
pub open spec fn daily_record_at(data: Seq<u8>, p: int) -> DailyRecord {
    daily_record_of(data.subrange(p, p + 32))
}

fn decode_daily_record(rec: &[u8]) -> (r: DailyRecord)
    requires
        rec@.len() == 32,
    ensures
        r == daily_record_of(rec@),
{
    let date = read_u32_le(rec, 0);
    DailyRecord {
        year: date / 10000,
        month: (date % 10000) / 100,
        day: date % 100,
        open: read_u32_le(rec, 4),
        high: read_u32_le(rec, 8),
        low: read_u32_le(rec, 12),
        close: read_u32_le(rec, 16),
        amount_bits: read_u32_le(rec, 20),
        volume: read_u32_le(rec, 24),
    }
}

/// Decodes the contents of a `.day` file: one record per whole 32 bytes; a
/// trailing partial record is ignored.
pub fn decode_daily_bars(data: &[u8]) -> (r: Vec<DailyRecord>)
    ensures
        r@.len() == data@.len() / 32,
        forall|i: int| 0 <= i < r@.len() ==> r@[i] == daily_record_at(data@, 32 * i),
        forall|i: int|
            0 <= i < r@.len() ==> {
                let p = 32 * i;
                let data = data@;
                let r = #[trigger] r@[i];
                &&& r.year * 10000 + r.month * 100 + r.day == le_u32_at(data, p)
                &&& r.month < 100
                &&& r.day < 100
                &&& r.open == le_u32_at(data, p + 4)
                &&& r.high == le_u32_at(data, p + 8)
                &&& r.low == le_u32_at(data, p + 12)
                &&& r.close == le_u32_at(data, p + 16)
                &&& r.amount_bits == le_u32_at(data, p + 20)
                &&& r.volume == le_u32_at(data, p + 24)
            },
{
    let n = data.len();
    let count = n / DAILY_RECORD_SIZE;
    let mut out: Vec<DailyRecord> = Vec::new();
    let mut i: usize = 0;
    while i < count
        invariant
            n == data@.len(),
            count == data@.len() / 32,
            i <= count,
            out@.len() == i,
            forall|j: int| 0 <= j < i ==> out@[j] == daily_record_at(data@, 32 * j),
        decreases count - i,
    {
        assert(32 * i + 32 <= data@.len());
        let start = i * DAILY_RECORD_SIZE;
        out.push(decode_daily_record(&data[start..start + DAILY_RECORD_SIZE]));
        i = i + 1;
    }
    assert forall|i: int| 0 <= i < out@.len() implies #[trigger] out@[i] == daily_record_at(data@, 32 * i) && {
        let p = 32 * i;
        let data = data@;
        let r = out@[i];
        &&& r.year * 10000 + r.month * 100 + r.day == le_u32_at(data, p)
        &&& r.month < 100
        &&& r.day < 100
        &&& r.open == le_u32_at(data, p + 4)
        &&& r.high == le_u32_at(data, p + 8)
        &&& r.low == le_u32_at(data, p + 12)
        &&& r.close == le_u32_at(data, p + 16)
        &&& r.amount_bits == le_u32_at(data, p + 20)
        &&& r.volume == le_u32_at(data, p + 24)
    } by {
        lemma_daily_record_layout(data@, 32 * i);
    }
    out
}

/// One minute bar; prices and turnover hold the 32 bits of `f32`s.
#[derive(Clone, Copy, Debug, PartialEq, Eq, Structural)]
pub struct MinuteRecord {
    pub year: u32,
    pub month: u32,
    pub day: u32,
    pub hour: u32,
    pub minute: u32,
    pub open_bits: u32,
    pub high_bits: u32,
    pub low_bits: u32,
    pub close_bits: u32,
    pub amount_bits: u32,
    pub volume: u32,
}

/// A minute record: a packed date (`year - 2004` above bit 10,
/// `month * 100 + day` below, as in the quote protocol's minute bars), the
/// minutes since midnight, open, high, low, close, turnover, volume, and four
/// reserved bytes.
pub open spec fn minute_record_of(rec: Seq<u8>) -> MinuteRecord {
    let raw_date = le_u16_at(rec, 0);
    let raw_time = le_u16_at(rec, 2);
    MinuteRecord {
        year: (raw_date / 2048 + 2004) as u32,
        month: ((raw_date % 2048) / 100) as u32,
        day: ((raw_date % 2048) % 100) as u32,
        hour: (raw_time / 60) as u32,
        minute: (raw_time % 60) as u32,
        open_bits: le_u32_at(rec, 4) as u32,
        high_bits: le_u32_at(rec, 8) as u32,
        low_bits: le_u32_at(rec, 12) as u32,
        close_bits: le_u32_at(rec, 16) as u32,
        amount_bits: le_u32_at(rec, 20) as u32,
        volume: le_u32_at(rec, 24) as u32,
    }
}

/// The minute record that starts at `p`.
pub open spec fn minute_record_at(data: Seq<u8>, p: int) -> MinuteRecord {
    minute_record_of(data.subrange(p, p + 32))
}

fn decode_minute_record(rec: &[u8]) -> (r: MinuteRecord)
    requires
        rec@.len() == 32,
    ensures
        r == minute_record_of(rec@),
{
    let raw_date = read_u16_le(rec, 0);
    let raw_time = read_u16_le(rec, 2);
    MinuteRecord {
        year: (raw_date / 2048) as u32 + 2004,
        month: ((raw_date % 2048) / 100) as u32,
        day: ((raw_date % 2048) % 100) as u32,
        hour: (raw_time / 60) as u32,
        minute: (raw_time % 60) as u32,
        open_bits: read_u32_le(rec, 4),
        high_bits: read_u32_le(rec, 8),
        low_bits: read_u32_le(rec, 12),
        close_bits: read_u32_le(rec, 16),
        amount_bits: read_u32_le(rec, 20),
        volume: read_u32_le(rec, 24),
    }
}

/// Decodes the contents of an `.lc1` / `.lc5` file: one record per whole 32
/// bytes; a trailing partial record is ignored.
pub fn decode_minute_bars(data: &[u8]) -> (r: Vec<MinuteRecord>)
    ensures
        r@.len() == data@.len() / 32,
        forall|i: int| 0 <= i < r@.len() ==> r@[i] == minute_record_at(data@, 32 * i),
        forall|i: int|
            0 <= i < r@.len() ==> {
                let p = 32 * i;
                let data = data@;
                let r = #[trigger] r@[i];
                &&& r.year >= 2004
                &&& (r.year - 2004) * 2048 + r.month * 100 + r.day == le_u16_at(data, p)
                &&& r.day < 100
                &&& r.month * 100 + r.day < 2048
                &&& r.hour * 60 + r.minute == le_u16_at(data, p + 2)
                &&& r.minute < 60
                &&& r.open_bits == le_u32_at(data, p + 4)
                &&& r.high_bits == le_u32_at(data, p + 8)
                &&& r.low_bits == le_u32_at(data, p + 12)
                &&& r.close_bits == le_u32_at(data, p + 16)
                &&& r.amount_bits == le_u32_at(data, p + 20)
                &&& r.volume == le_u32_at(data, p + 24)
            },
{
    let n = data.len();
    let count = n / MINUTE_RECORD_SIZE;
    let mut out: Vec<MinuteRecord> = Vec::new();
    let mut i: usize = 0;
    while i < count
        invariant
            n == data@.len(),
            count == data@.len() / 32,
            i <= count,
            out@.len() == i,
            forall|j: int| 0 <= j < i ==> out@[j] == minute_record_at(data@, 32 * j),
        decreases count - i,
    {
        assert(32 * i + 32 <= data@.len());
        let start = i * MINUTE_RECORD_SIZE;
        out.push(decode_minute_record(&data[start..start + MINUTE_RECORD_SIZE]));
        i = i + 1;
    }
    assert forall|i: int| 0 <= i < out@.len() implies #[trigger] out@[i] == minute_record_at(data@, 32 * i) && {
        let p = 32 * i;
        let data = data@;
        let r = out@[i];
        &&& r.year >= 2004
        &&& (r.year - 2004) * 2048 + r.month * 100 + r.day == le_u16_at(data, p)
        &&& r.day < 100
        &&& r.month * 100 + r.day < 2048
        &&& r.hour * 60 + r.minute == le_u16_at(data, p + 2)
        &&& r.minute < 60
        &&& r.open_bits == le_u32_at(data, p + 4)
        &&& r.high_bits == le_u32_at(data, p + 8)
        &&& r.low_bits == le_u32_at(data, p + 12)
        &&& r.close_bits == le_u32_at(data, p + 16)
        &&& r.amount_bits == le_u32_at(data, p + 20)
        &&& r.volume == le_u32_at(data, p + 24)
    } by {
        lemma_minute_record_layout(data@, 32 * i);
    }
    out
}

/// A minute-file record and a minute bar of the quote protocol encode their
/// timestamp the same way: decoding the first four bytes of any minute-file
/// record as the timestamp of a minute-category bar gives the record's date
/// and time.
pub proof fn lemma_minute_file_dates_match_protocol(data: Seq<u8>, p: int, category: u16)
    requires
        0 <= p,
        p + 32 <= data.len(),
        category < 4 || category == 7 || category == 8,
    ensures
        ({
            let rec = minute_record_at(data, p);
            datetime_at(category, data, p) == Some(
                (
                    rec.year as int,
                    rec.month as int,
                    rec.day as int,
                    rec.hour as int,
                    rec.minute as int,
                    p + 4,
                ),
            )
        }),
{
}

/// A daily-file record and a daily bar of the quote protocol encode their date
/// the same way (`YYYYMMDD`).
pub proof fn lemma_daily_file_dates_match_protocol(data: Seq<u8>, p: int, category: u16)
    requires
        0 <= p,
        p + 32 <= data.len(),
        !(category < 4 || category == 7 || category == 8),
    ensures
        ({
            let rec = daily_record_at(data, p);
            datetime_at(category, data, p) == Some(
                (rec.year as int, rec.month as int, rec.day as int, 15int, 0int, p + 4),
            )
        }),
{
}

proof fn lemma_record_words(data: Seq<u8>, p: int)
    requires
        0 <= p,
        p + 32 <= data.len(),
    ensures
        forall|k: int| 0 <= k <= 28 ==> 0 <= #[trigger] le_u32_at(data, p + k) < 0x1_0000_0000,
        0 <= le_u16_at(data, p) < 0x1_0000,
        0 <= le_u16_at(data, p + 2) < 0x1_0000,
{
    assert forall|k: int| 0 <= k <= 28 implies 0 <= #[trigger] le_u32_at(data, p + k) < 0x1_0000_0000 by {
        lemma_le_u32_bytes(data, p + k);
    }
    lemma_le_u16_bytes(data, p);
    lemma_le_u16_bytes(data, p + 2);
}

/// Layout of a `.day` record: the date's year, month and day pack back into
/// the stored `YYYYMMDD` word, and open, high, low, close, turnover and volume
/// are the little-endian words at offsets 4, 8, 12, 16, 20 and 24.
pub proof fn lemma_daily_record_layout(data: Seq<u8>, p: int)
    requires
        0 <= p,
        p + 32 <= data.len(),
    ensures
        ({
            let r = daily_record_at(data, p);
            &&& r.year * 10000 + r.month * 100 + r.day == le_u32_at(data, p)
            &&& r.month < 100
            &&& r.day < 100
            &&& r.open == le_u32_at(data, p + 4)
            &&& r.high == le_u32_at(data, p + 8)
            &&& r.low == le_u32_at(data, p + 12)
            &&& r.close == le_u32_at(data, p + 16)
            &&& r.amount_bits == le_u32_at(data, p + 20)
            &&& r.volume == le_u32_at(data, p + 24)
        }),
{
    let rec = data.subrange(p, p + 32);
    lemma_record_words(rec, 0);
    let z = le_u32_at(rec, 0);
    assert((z / 10000) * 10000 + ((z % 10000) / 100) * 100 + z % 100 == z) by (nonlinear_arith)
        requires
            z >= 0,
    ;
    assert((z % 10000) / 100 < 100) by (nonlinear_arith)
        requires
            z >= 0,
    ;
}

/// Layout of an `.lc1` / `.lc5` record: the date's fields pack back into the
/// first `u16` (`(year - 2004) * 2048 + month * 100 + day`), the time's into
/// the second (`hour * 60 + minute`), and open, high, low, close, turnover and
/// volume are the little-endian words at offsets 4, 8, 12, 16, 20 and 24.
pub proof fn lemma_minute_record_layout(data: Seq<u8>, p: int)
    requires
        0 <= p,
        p + 32 <= data.len(),
    ensures
        ({
            let r = minute_record_at(data, p);
            &&& r.year >= 2004
            &&& (r.year - 2004) * 2048 + r.month * 100 + r.day == le_u16_at(data, p)
            &&& r.day < 100
            &&& r.month * 100 + r.day < 2048
            &&& r.hour * 60 + r.minute == le_u16_at(data, p + 2)
            &&& r.minute < 60
            &&& r.open_bits == le_u32_at(data, p + 4)
            &&& r.high_bits == le_u32_at(data, p + 8)
            &&& r.low_bits == le_u32_at(data, p + 12)
            &&& r.close_bits == le_u32_at(data, p + 16)
            &&& r.amount_bits == le_u32_at(data, p + 20)
            &&& r.volume == le_u32_at(data, p + 24)
        }),
{
    let rec = data.subrange(p, p + 32);
    lemma_record_words(rec, 0);
    let z = le_u16_at(rec, 0);
    let m = le_u16_at(rec, 2);
    assert((z / 2048) * 2048 + ((z % 2048) / 100) * 100 + (z % 2048) % 100 == z) by (nonlinear_arith)
        requires
            z >= 0,
    ;
    assert(((z % 2048) / 100) * 100 + (z % 2048) % 100 < 2048) by (nonlinear_arith)
        requires
            z >= 0,
    ;
    assert((m / 60) * 60 + m % 60 == m) by (nonlinear_arith)
        requires
            m >= 0,
    ;
}

} // verus!
