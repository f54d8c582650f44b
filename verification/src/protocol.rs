//! Decoding primitives of the TDX wire format: little-endian integers, the
//! variable-length price differences, packed dates and times.

use vstd::prelude::*;

verus! {

/// The unsigned 16-bit little-endian integer stored at `data[i]`, `data[i + 1]`.
pub open spec fn le_u16_at(data: Seq<u8>, i: int) -> int {
    data[i] + 256 * data[i + 1]
}

/// The unsigned 32-bit little-endian integer stored at `data[i .. i + 4]`.
pub open spec fn le_u32_at(data: Seq<u8>, i: int) -> int {
    data[i] + 256 * data[i + 1] + 65536 * data[i + 2] + 16777216 * data[i + 3]
}

/// Reads a little-endian `u16` at `offset`.
pub fn read_u16_le(data: &[u8], offset: usize) -> (v: u16)
    requires
        offset + 2 <= data@.len(),
    ensures
        v == le_u16_at(data@, offset as int),
{
    data[offset] as u16 + (data[offset + 1] as u16) * 256
}

/// Reads a little-endian `u32` at `offset`.
pub fn read_u32_le(data: &[u8], offset: usize) -> (v: u32)
    requires
        offset + 4 <= data@.len(),
    ensures
        v == le_u32_at(data@, offset as int),
{
    data[offset] as u32 + (data[offset + 1] as u32) * 256 + (data[offset + 2] as u32) * 65536
        + (data[offset + 3] as u32) * 16777216
}


/// Reading a little-endian `u16`: the value is below 2^16, its low byte is
/// the first byte read and its high byte the second.
pub proof fn lemma_le_u16_bytes(data: Seq<u8>, i: int)
    requires
        0 <= i,
        i + 2 <= data.len(),
    ensures
        0 <= le_u16_at(data, i) < 0x1_0000,
        le_u16_at(data, i) % 256 == data[i],
        le_u16_at(data, i) / 256 == data[i + 1],
{
}

/// Reading a little-endian `u32`: the value is below 2^32 and its bytes, from
/// the least significant, are the four bytes read in order.
pub proof fn lemma_le_u32_bytes(data: Seq<u8>, i: int)
    requires
        0 <= i,
        i + 4 <= data.len(),
    ensures
        0 <= le_u32_at(data, i) < 0x1_0000_0000,
        le_u32_at(data, i) % 256 == data[i],
        (le_u32_at(data, i) / 256) % 256 == data[i + 1],
        (le_u32_at(data, i) / 65536) % 256 == data[i + 2],
        le_u32_at(data, i) / 16777216 == data[i + 3],
{
    let b0 = data[i] as int;
    let b1 = data[i + 1] as int;
    let b2 = data[i + 2] as int;
    let b3 = data[i + 3] as int;
    lemma_bytes_of_word(b0, b1, b2, b3);
}

proof fn lemma_bytes_of_word(b0: int, b1: int, b2: int, b3: int)
    requires
        0 <= b0 < 256,
        0 <= b1 < 256,
        0 <= b2 < 256,
        0 <= b3 < 256,
    ensures
        ({
            let v = b0 + 256 * b1 + 65536 * b2 + 16777216 * b3;
            &&& 0 <= v < 0x1_0000_0000
            &&& v % 256 == b0
            &&& (v / 256) % 256 == b1
            &&& (v / 65536) % 256 == b2
            &&& v / 16777216 == b3
        }),
{
    let v = b0 + 256 * b1 + 65536 * b2 + 16777216 * b3;
    assert(v / 256 == b1 + 256 * b2 + 65536 * b3) by (nonlinear_arith)
        requires
            v == b0 + 256 * b1 + 65536 * b2 + 16777216 * b3,
            0 <= b0 < 256,
    ;
    assert(v / 65536 == b2 + 256 * b3) by (nonlinear_arith)
        requires
            v == b0 + 256 * b1 + 65536 * b2 + 16777216 * b3,
            0 <= b0 < 256,
            0 <= b1 < 256,
    ;
    assert(v / 16777216 == b3) by (nonlinear_arith)
        requires
            v == b0 + 256 * b1 + 65536 * b2 + 16777216 * b3,
            0 <= b0 < 256,
            0 <= b1 < 256,
            0 <= b2 < 256,
    ;
    assert(v % 256 == b0) by (nonlinear_arith)
        requires
            v == b0 + 256 * b1 + 65536 * b2 + 16777216 * b3,
            0 <= b0 < 256,
    ;
    assert((b1 + 256 * b2 + 65536 * b3) % 256 == b1) by (nonlinear_arith)
        requires
            0 <= b1 < 256,
            0 <= b2,
            0 <= b3,
    ;
    assert((b2 + 256 * b3) % 256 == b2) by (nonlinear_arith)
        requires
            0 <= b2 < 256,
            0 <= b3,
    ;
}

/// Index at which a run of continuation bytes that starts at `i` ends: the first
/// index at or after `i` holding a byte whose high bit is clear, or the end of
/// the buffer.
pub open spec fn scan_stop(data: Seq<u8>, i: int) -> int
    decreases data.len() - i,
{
    if i >= data.len() {
        i
    } else if data[i] < 128 {
        i
    } else {
        scan_stop(data, i + 1)
    }
}

/// Value of the run of continuation bytes that starts at `i`: the low seven
/// bits of each byte, the first weighted by `weight` and every next one by 128
/// times the weight of the one before.  The run takes every byte up to and
/// including the first one whose high bit is clear, or up to the end.
pub open spec fn tail_value(data: Seq<u8>, i: int, weight: int) -> int
    decreases data.len() - i,
{
    if i >= data.len() {
        0
    } else if data[i] < 128 {
        (data[i] % 128) * weight
    } else {
        (data[i] % 128) * weight + tail_value(data, i + 1, weight * 128)
    }
}

/// Absolute value of the price difference encoded at `pos`: the low six bits
/// of the first byte, plus, when its high bit is set, the continuation run that
/// follows it with weight 64 for its first byte.
pub open spec fn price_magnitude(data: Seq<u8>, pos: int) -> int {
    (data[pos] % 64) + if data[pos] >= 128 {
        tail_value(data, pos + 1, 64)
    } else {
        0
    }
}

/// Bit 6 of the first byte marks a negative price difference.
pub open spec fn price_is_negative(data: Seq<u8>, pos: int) -> bool {
    (data[pos] / 64) % 2 == 1
}

/// Position that follows the price difference encoded at `pos`.  When the
/// buffer ends inside a continuation run this is one past the end.
pub open spec fn price_end(data: Seq<u8>, pos: int) -> int {
    if data[pos] >= 128 {
        scan_stop(data, pos + 1) + 1
    } else {
        pos + 1
    }
}

/// Number of continuation bytes that decoding the price at `pos` reads.
pub open spec fn price_tail_len(data: Seq<u8>, pos: int) -> int {
    if data[pos] >= 128 {
        if scan_stop(data, pos + 1) < data.len() {
            scan_stop(data, pos + 1) - pos
        } else {
            data.len() - 1 - pos
        }
    } else {
        0
    }
}

/// The price difference at `pos` decodes into an `i64`: at most nine
/// continuation bytes (a tenth would be shifted by 69 bits) and a magnitude
/// that fits.  A position at or past the end always decodes (to zero).
pub open spec fn price_decodable(data: Seq<u8>, pos: int) -> bool {
    pos >= data.len() || (price_tail_len(data, pos) <= 9 && price_magnitude(data, pos)
        <= i64::MAX)
}

/// The decoded price difference at `pos` and the position after it.  At or
/// past the end of the buffer nothing is read: the value is 0 and the position
/// stays.
pub open spec fn price_at(data: Seq<u8>, pos: int) -> (int, int) {
    if pos >= data.len() {
        (0, pos)
    } else {
        (
            if price_is_negative(data, pos) {
                -price_magnitude(data, pos)
            } else {
                price_magnitude(data, pos)
            },
            price_end(data, pos),
        )
    }
}

/// Weight of the `n`-th continuation byte of a price, counting from 0.
pub open spec fn tail_weight(n: nat) -> int
    decreases n,
{
    if n == 0 {
        64
    } else {
        128 * tail_weight((n - 1) as nat)
    }
}

proof fn lemma_tail_weight_bound(n: nat)
    requires
        n <= 9,
    ensures
        64 <= tail_weight(n) <= 0x200000000000000000,
    decreases n,
{
    if n > 0 {
        lemma_tail_weight_bound((n - 1) as nat);
        if n == 9 {
            reveal_with_fuel(tail_weight, 10);
        } else {
            lemma_tail_weight_bound_below(n);
        }
    }
}

proof fn lemma_tail_weight_bound_below(n: nat)
    requires
        n < 9,
    ensures
        tail_weight(n) <= 0x4000000000000000,
    decreases n,
{
    if n > 0 {
        lemma_tail_weight_bound_below((n - 1) as nat);
        if n == 8 {
            reveal_with_fuel(tail_weight, 9);
        } else {
            lemma_tail_weight_small((n - 1) as nat);
        }
    }
}

proof fn lemma_tail_weight_small(n: nat)
    requires
        n < 7,
    ensures
        tail_weight(n) <= 0x80000000000000,
    decreases n,
{
    reveal_with_fuel(tail_weight, 8);
}

/// The scan for the end of a run of continuation bytes stops at or after
/// where it starts and no later than the end of the data.
pub proof fn lemma_scan_stop_bounds(data: Seq<u8>, i: int)
    requires
        0 <= i <= data.len(),
    ensures
        i <= scan_stop(data, i) <= data.len(),
    decreases data.len() - i,
{
    if i < data.len() && data[i] >= 128 {
        lemma_scan_stop_bounds(data, i + 1);
    }
}

/// `128` to the power `n`.
pub open spec fn pow128(n: nat) -> int
    decreases n,
{
    if n == 0 {
        1
    } else {
        128 * pow128((n - 1) as nat)
    }
}

proof fn lemma_pow128_pos(n: nat)
    ensures
        pow128(n) >= 1,
        n >= 1 ==> pow128(n) >= 128,
    decreases n,
{
    if n > 0 {
        lemma_pow128_pos((n - 1) as nat);
    }
}

proof fn lemma_scan_stop_at_most(data: Seq<u8>, i: int, j: int)
    requires
        0 <= i <= j,
        j >= data.len() || data[j] < 128,
    ensures
        scan_stop(data, i) <= j,
    decreases j - i,
{
    if i < data.len() && data[i] >= 128 {
        lemma_scan_stop_at_most(data, i + 1, j);
    }
}

proof fn lemma_tail_value_bound(data: Seq<u8>, i: int, w: int, n: nat)
    requires
        0 <= i,
        w > 0,
        n >= 1,
        scan_stop(data, i) < i + n,
    ensures
        0 <= tail_value(data, i, w) <= w * (pow128(n) - 1),
    decreases n,
{
    lemma_pow128_pos(n);
    if i >= data.len() {
        assert(w * (pow128(n) - 1) >= 0) by (nonlinear_arith)
            requires
                w > 0,
                pow128(n) >= 1,
        ;
    } else if data[i] < 128 {
        let d = data[i] % 128;
        assert(0 <= d * w <= w * (pow128(n) - 1)) by (nonlinear_arith)
            requires
                0 <= d <= 127,
                w > 0,
                pow128(n) >= 128,
        ;
    } else {
        lemma_scan_stop_bounds(data, i + 1);
        let m = (n - 1) as nat;
        lemma_tail_value_bound(data, i + 1, w * 128, m);
        lemma_pow128_pos(m);
        let d = data[i] % 128;
        let t = tail_value(data, i + 1, w * 128);
        let p = pow128(m);
        assert(pow128(n) == 128 * p);
        assert(0 <= d * w + t <= w * (128 * p - 1)) by (nonlinear_arith)
            requires
                0 <= d <= 127,
                w > 0,
                0 <= t <= (w * 128) * (p - 1),
        ;
    }
}

/// The byte at `j` ends a price encoding: its high bit is clear, or the
/// buffer has ended.
pub open spec fn ends_encoding(data: Seq<u8>, j: int) -> bool {
    j >= data.len() || data[j] < 128
}

/// A price whose encoding spans at most nine bytes (a byte among the nine at
/// `pos` has its high bit clear, or the buffer ends within them) always
/// decodes: no tenth continuation byte and no overflow, and its value lies
/// strictly between -2^62 and 2^62.
pub proof fn lemma_short_price_fits(data: Seq<u8>, pos: int)
    requires
        0 <= pos,
        exists|j: int| pos <= j < pos + 9 && #[trigger] ends_encoding(data, j),
    ensures
        price_decodable(data, pos),
        -0x4000_0000_0000_0000 < price_at(data, pos).0 < 0x4000_0000_0000_0000,
{
    if pos < data.len() && data[pos] >= 128 {
        let j = choose|j: int| pos <= j < pos + 9 && #[trigger] ends_encoding(data, j);
        assert(j != pos);
        lemma_scan_stop_at_most(data, pos + 1, j);
        lemma_scan_stop_bounds(data, pos + 1);
        lemma_tail_value_bound(data, pos + 1, 64, 8);
        reveal_with_fuel(pow128, 9);
        assert(pow128(8) == 0x100_0000_0000_0000);
    }
}

proof fn lemma_run_local(prefix: Seq<u8>, data: Seq<u8>, suffix: Seq<u8>, i: int, w: int)
    requires
        0 <= i,
        scan_stop(data, i) < data.len(),
    ensures
        scan_stop(prefix + data + suffix, prefix.len() + i) == prefix.len() + scan_stop(data, i),
        tail_value(prefix + data + suffix, prefix.len() + i, w) == tail_value(data, i, w),
    decreases data.len() - i,
{
    let big = prefix + data + suffix;
    let off = prefix.len() as int;
    assert(big[off + i] == data[i]);
    if data[i] >= 128 {
        lemma_run_local(prefix, data, suffix, i + 1, w * 128);
    }
}

/// The price at `pos` depends only on the bytes of its own encoding: when the
/// encoding ends inside `data`, putting any bytes before and after `data`
/// shifts its position and changes nothing else.
pub proof fn lemma_price_local(prefix: Seq<u8>, data: Seq<u8>, suffix: Seq<u8>, pos: int)
    requires
        0 <= pos < data.len(),
        price_at(data, pos).1 <= data.len(),
    ensures
        price_decodable(prefix + data + suffix, prefix.len() + pos) == price_decodable(data, pos),
        price_at(prefix + data + suffix, prefix.len() + pos) == (
            price_at(data, pos).0,
            prefix.len() + price_at(data, pos).1,
        ),
{
    let big = prefix + data + suffix;
    let off = prefix.len() as int;
    assert(big[off + pos] == data[pos]);
    if data[pos] >= 128 {
        lemma_run_local(prefix, data, suffix, pos + 1, 64);
    }
}

/// Decodes the variable-length price difference at `pos`, or `None` where the
/// encoding does not fit an `i64` (see `price_decodable`).
pub fn try_get_price(data: &[u8], pos: usize) -> (r: Option<(i64, usize)>)
    requires
        data@.len() < usize::MAX,
    ensures
        r is Some <==> price_decodable(data@, pos as int),
        r matches Some((v, p)) ==> (v as int, p as int) == price_at(data@, pos as int),
        r matches Some((v, p)) ==> (pos < data@.len() ==> pos < p <= data@.len() + 1),
{
    if pos >= data.len() {
        return Some((0, pos));
    }
    let first = data[pos];
    let mut magnitude: u128 = (first % 64) as u128;
    let mut p: usize = pos;
    let ghost len = data@.len() as int;
    if first >= 128 {
        let mut weight: u128 = 64;
        let mut read: usize = 0;
        let mut more = true;
        proof {
            lemma_scan_stop_bounds(data@, pos + 1);
        }
        while more
            invariant
                data@.len() == len,
                len < usize::MAX,
                pos < len,
                data@[pos as int] == first,
                first >= 128,
                read <= 9,
                weight == tail_weight(read as nat),
                magnitude < weight,
                more ==> p < len && data@[p as int] >= 128 && p == pos + read,
                more ==> price_magnitude(data@, pos as int) == magnitude + tail_value(
                    data@,
                    p + 1,
                    weight as int,
                ),
                more ==> scan_stop(data@, pos + 1) == scan_stop(data@, p + 1),
                !more ==> price_magnitude(data@, pos as int) == magnitude,
                !more ==> scan_stop(data@, pos + 1) == p && p <= len,
                !more ==> price_tail_len(data@, pos as int) == read,
            decreases len - p,
        {
            proof {
                lemma_tail_weight_bound(read as nat);
                lemma_scan_stop_bounds(data@, p + 1);
            }
            p = p + 1;
            if p >= data.len() {
                more = false;
            } else if read == 9 {
                assert(scan_stop(data@, pos + 1) >= p);
                assert(price_tail_len(data@, pos as int) >= 10);
                return None;
            } else {
                let b = data[p];
                let ghost old_mag = magnitude;
                let ghost old_weight = weight;
                assert((b % 128) as u128 * weight < 128 * weight) by (nonlinear_arith)
                    requires
                        b % 128 < 128,
                        weight > 0,
                ;
                assert((b % 128) as u128 * weight + magnitude < 128 * weight) by (nonlinear_arith)
                    requires
                        b % 128 <= 127,
                        magnitude < weight,
                ;
                magnitude = magnitude + (b % 128) as u128 * weight;
                weight = weight * 128;
                read = read + 1;
                if b < 128 {
                    more = false;
                }
            }
        }
    }
    proof {
        lemma_scan_stop_bounds(data@, pos + 1);
    }
    p = p + 1;
    if magnitude > 0x7fff_ffff_ffff_ffff {
        return None;
    }
    let v = magnitude as i64;
    if (first / 64) % 2 == 1 {
        Some((-v, p))
    } else {
        Some((v, p))
    }
}

/// Decodes the TDX variable-length price difference at `pos` and returns it
/// with the position after it.  The first byte holds six value bits (0x3F), a
/// sign flag (0x40) and a continuation flag (0x80); every continuation byte
/// holds seven more value bits, least significant group first.
pub fn get_price(data: &[u8], pos: usize) -> (r: (i64, usize))
    requires
        data@.len() < usize::MAX,
        price_decodable(data@, pos as int),
    ensures
        (r.0 as int, r.1 as int) == price_at(data@, pos as int),
        pos < data@.len() ==> pos < r.1 <= data@.len() + 1,
        pos >= data@.len() ==> r == (0i64, pos),
{
    match try_get_price(data, pos) {
        Some(r) => r,
        None => (0, pos),
    }
}


/// Bar categories whose timestamps carry a time of day (the minute and hour
/// bars); the others carry a date only.
pub open spec fn is_minute_category(category: u16) -> bool {
    category < 4 || category == 7 || category == 8
}

/// The timestamp that `get_datetime` decodes at `pos`, as (year, month, day,
/// hour, minute, next position), or `None` when fewer than four bytes remain.
/// Minute categories pack the date in a `u16` (`year - 2004` in the bits above
/// bit 10, `month * 100 + day` below) followed by a `u16` count of minutes
/// since midnight; the others store `YYYYMMDD` in a `u32` and stand for 15:00.
pub open spec fn datetime_at(category: u16, data: Seq<u8>, pos: int) -> Option<
    (int, int, int, int, int, int),
> {
    if pos + 4 > data.len() {
        None
    } else if is_minute_category(category) {
        let zip_day = le_u16_at(data, pos);
        let minutes = le_u16_at(data, pos + 2);
        Some(
            (
                zip_day / 2048 + 2004,
                (zip_day % 2048) / 100,
                (zip_day % 2048) % 100,
                minutes / 60,
                minutes % 60,
                pos + 4,
            ),
        )
    } else {
        let zip_day = le_u32_at(data, pos);
        Some((zip_day / 10000, (zip_day % 10000) / 100, zip_day % 100, 15, 0, pos + 4))
    }
}

proof fn lemma_split_div(z: int, d: int)
    requires
        0 <= z,
        d > 0,
    ensures
        (z / d) * d + z % d == z,
        0 <= z % d < d,
        0 <= z / d,
{
    vstd::arithmetic::div_mod::lemma_fundamental_div_mod(z, d);
    assert((z / d) * d == d * (z / d)) by (nonlinear_arith);
}

proof fn lemma_split_zip_day(z: int)
    requires
        0 <= z,
    ensures
        (z / 2048) * 2048 + ((z % 2048) / 100) * 100 + (z % 2048) % 100 == z,
        ((z % 2048) / 100) * 100 + (z % 2048) % 100 < 2048,
        0 <= (z % 2048) / 100,
{
    lemma_split_div(z, 2048);
    lemma_split_div(z % 2048, 100);
}

proof fn lemma_split_yyyymmdd(z: int)
    requires
        0 <= z,
    ensures
        (z / 10000) * 10000 + ((z % 10000) / 100) * 100 + z % 100 == z,
        0 <= (z % 10000) / 100 < 100,
{
    lemma_split_div(z, 10000);
    lemma_split_div(z % 10000, 100);
    assert((z % 10000) % 100 == z % 100) by (nonlinear_arith)
        requires
            0 <= z,
    ;
}

/// A bar timestamp decodes whenever four bytes remain, and its fields pack
/// back into the stored words: for minute categories `(year - 2004) * 2048 +
/// month * 100 + day` is the first `u16` (with `day < 100` and `month * 100 +
/// day < 2048`) and `hour * 60 + minute` the second (with `minute < 60`); for
/// the others `year * 10000 + month * 100 + day` is the stored `u32` (with
/// `day < 100`, `month < 100`) and the time is 15:00.  The position advances by
/// four.
pub proof fn lemma_datetime_packs_back(category: u16, data: Seq<u8>, pos: int)
    requires
        0 <= pos,
        pos + 4 <= data.len(),
    ensures
        datetime_at(category, data, pos) is Some,
        ({
            let (y, mo, d, h, mi, p) = datetime_at(category, data, pos).unwrap();
            &&& p == pos + 4
            &&& 0 <= d < 100
            &&& 0 <= mo
            &&& if category < 4 || category == 7 || category == 8 {
                &&& y >= 2004
                &&& (y - 2004) * 2048 + mo * 100 + d == le_u16_at(data, pos)
                &&& mo * 100 + d < 2048
                &&& 0 <= mi < 60
                &&& 0 <= h
                &&& h * 60 + mi == le_u16_at(data, pos + 2)
            } else {
                &&& 0 <= y
                &&& y * 10000 + mo * 100 + d == le_u32_at(data, pos)
                &&& mo < 100
                &&& h == 15
                &&& mi == 0
            }
        }),
{
    lemma_le_u16_bytes(data, pos);
    lemma_le_u16_bytes(data, pos + 2);
    lemma_le_u32_bytes(data, pos);
    let z16 = le_u16_at(data, pos);
    let m16 = le_u16_at(data, pos + 2);
    let z32 = le_u32_at(data, pos);
    lemma_split_zip_day(z16);
    lemma_split_div(m16, 60);
    lemma_split_yyyymmdd(z32);
}

/// Decodes the bar timestamp at `pos` for the given bar category and returns
/// `(year, month, day, hour, minute, next position)`.
pub fn get_datetime(category: u16, data: &[u8], pos: usize) -> (r: Option<
    (u32, u32, u32, u32, u32, usize),
>)
    ensures
        r is None <==> datetime_at(category, data@, pos as int) is None,
        r matches Some((y, mo, d, h, mi, p)) ==> datetime_at(category, data@, pos as int) == Some(
            (y as int, mo as int, d as int, h as int, mi as int, p as int),
        ),
{
    if pos > data.len() || data.len() - pos < 4 {
        return None;
    }
    if category < 4 || category == 7 || category == 8 {
        let zip_day = read_u16_le(data, pos);
        let minutes = read_u16_le(data, pos + 2);
        let month = ((zip_day % 2048) / 100) as u32;
        let year = (zip_day / 2048) as u32 + 2004;
        let day = ((zip_day % 2048) % 100) as u32;
        let minute = (minutes % 60) as u32;
        let hour = (minutes / 60) as u32;
        Some((year, month, day, hour, minute, pos + 4))
    } else {
        let zip_day = read_u32_le(data, pos);
        Some((zip_day / 10000, (zip_day % 10000) / 100, zip_day % 100, 15, 0, pos + 4))
    }
}

/// The time of day that `get_time` decodes at `pos`: a little-endian `u16`
/// count of minutes since midnight, as (hour, minute, next position), or `None`
/// when fewer than two bytes remain.
pub open spec fn time_at(data: Seq<u8>, pos: int) -> Option<(int, int, int)> {
    if pos + 2 > data.len() {
        None
    } else {
        let minutes = le_u16_at(data, pos);
        Some((minutes / 60, minutes % 60, pos + 2))
    }
}

/// A time of day decodes whenever two bytes remain: `hour * 60 + minute` is
/// the stored `u16`, `minute < 60`, and the position advances by two.
pub proof fn lemma_time_packs_back(data: Seq<u8>, pos: int)
    requires
        0 <= pos,
        pos + 2 <= data.len(),
    ensures
        time_at(data, pos) is Some,
        ({
            let (h, mi, p) = time_at(data, pos).unwrap();
            &&& p == pos + 2
            &&& 0 <= h
            &&& 0 <= mi < 60
            &&& h * 60 + mi == le_u16_at(data, pos)
        }),
{
    lemma_le_u16_bytes(data, pos);
}

/// Decodes the time of day (minutes since midnight) at `pos` and returns
/// `(hour, minute, next position)`.
pub fn get_time(data: &[u8], pos: usize) -> (r: Option<(u32, u32, usize)>)
    ensures
        r is None <==> time_at(data@, pos as int) is None,
        r matches Some((h, mi, p)) ==> time_at(data@, pos as int) == Some(
            (h as int, mi as int, p as int),
        ),
{
    if pos > data.len() || data.len() - pos < 2 {
        return None;
    }
    let minutes = read_u16_le(data, pos);
    Some(((minutes / 60) as u32, (minutes % 60) as u32, pos + 2))
}


/// The `k` consecutive price differences that start at `pos`, with the position
/// after the last, or `None` when one of them does not decode (see
/// `price_decodable`).
pub open spec fn prices_at(data: Seq<u8>, pos: int, k: nat) -> Option<(Seq<i64>, int)>
    decreases k,
{
    if k == 0 {
        Some((Seq::<i64>::empty(), pos))
    } else if !price_decodable(data, pos) {
        None
    } else {
        match prices_at(data, price_at(data, pos).1, (k - 1) as nat) {
            None => None,
            Some((vs, end)) => Some((seq![price_at(data, pos).0 as i64] + vs, end)),
        }
    }
}

/// The furthest position that decoding prices from `pos` can reach.
pub open spec fn price_reach(data: Seq<u8>, pos: int) -> int {
    if pos > data.len() + 1 {
        pos
    } else {
        data.len() + 1 as int
    }
}

proof fn lemma_prices_split(data: Seq<u8>, pos: int, k: nat)
    requires
        k > 0,
        price_decodable(data, pos),
    ensures
        prices_at(data, pos, k) == (match prices_at(data, price_at(data, pos).1, (k - 1) as nat) {
            None => None,
            Some((vs, end)) => Some((seq![price_at(data, pos).0 as i64] + vs, end)),
        }),
{
}

/// Decodes `k` consecutive price differences starting at `pos`.
pub fn get_prices(data: &[u8], pos: usize, k: usize) -> (r: Option<(Vec<i64>, usize)>)
    requires
        data@.len() < usize::MAX,
    ensures
        r is None <==> prices_at(data@, pos as int, k as nat) is None,
        r matches Some((vs, p)) ==> prices_at(data@, pos as int, k as nat) == Some(
            (vs@, p as int),
        ),
        r matches Some((vs, p)) ==> p <= price_reach(data@, pos as int),
{
    let mut vals: Vec<i64> = Vec::new();
    let mut p = pos;
    let mut i: usize = 0;
    while i < k
        invariant
            data@.len() < usize::MAX,
            i <= k,
            vals@.len() == i,
            p <= price_reach(data@, pos as int),
            prices_at(data@, pos as int, k as nat) == (match prices_at(
                data@,
                p as int,
                (k - i) as nat,
            ) {
                None => None,
                Some((vs, end)) => Some((vals@ + vs, end)),
            }),
        decreases k - i,
    {
        let ghost old_vals = vals@;
        let ghost old_p = p;
        match try_get_price(data, p) {
            None => {
                return None;
            },
            Some((v, q)) => {
                proof {
                    lemma_prices_split(data@, p as int, (k - i) as nat);
                }
                vals.push(v);
                p = q;
                i = i + 1;
                proof {
                    assert forall|vs: Seq<i64>| #[trigger] (old_vals + (seq![v] + vs)) == vals@
                        + vs by {
                        assert(old_vals + (seq![v] + vs) =~= vals@ + vs);
                    }
                }
            },
        }
    }
    proof {
        assert(vals@ + Seq::<i64>::empty() =~= vals@);
    }
    Some((vals, p))
}


/// The short forms of a price difference, read off the raw bytes: bit 6 of
/// the first byte is the sign and its low six bits the lowest digits; a first
/// byte below 128 stands alone; one at or above 128 followed by a byte below
/// 128 takes that byte's value times 64; with one more continuation byte the
/// third byte counts 8192 times its value.
pub proof fn lemma_price_short_forms(data: Seq<u8>, pos: int)
    requires
        0 <= pos < data.len(),
    ensures
        data[pos] < 128 ==> price_decodable(data, pos) && price_at(data, pos) == (
            if data[pos] >= 64 {
                -(data[pos] - 64)
            } else {
                data[pos] as int
            },
            pos + 1,
        ),
        data[pos] >= 128 && pos + 1 < data.len() && data[pos + 1] < 128 ==> price_decodable(
            data,
            pos,
        ) && price_at(data, pos) == (
            if data[pos] >= 192 {
                -(data[pos] - 192 + 64 * data[pos + 1])
            } else {
                data[pos] - 128 + 64 * data[pos + 1]
            },
            pos + 2,
        ),
        data[pos] >= 128 && pos + 2 < data.len() && data[pos + 1] >= 128 && data[pos + 2] < 128
            ==> price_decodable(data, pos) && price_at(data, pos) == (
            if data[pos] >= 192 {
                -(data[pos] - 192 + 64 * (data[pos + 1] - 128) + 8192 * data[pos + 2])
            } else {
                data[pos] - 128 + 64 * (data[pos + 1] - 128) + 8192 * data[pos + 2]
            },
            pos + 3,
        ),
{
    if data[pos] >= 128 && pos + 1 < data.len() {
        if data[pos + 1] >= 128 && pos + 2 < data.len() && data[pos + 2] < 128 {
            assert(scan_stop(data, pos + 2) == pos + 2);
            assert(scan_stop(data, pos + 1) == pos + 2);
            assert(tail_value(data, pos + 2, 8192) == data[pos + 2] * 8192);
        }
    }
}

} // verus!
