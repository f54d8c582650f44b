use mitdx::protocol::{get_datetime, get_price, get_prices, get_time, read_u16_le, read_u32_le, try_get_price};

#[test]
fn price_single_byte_positive() {
    assert_eq!(get_price(&[0x05], 0), (5, 1));
}

#[test]
fn price_single_byte_negative() {
    assert_eq!(get_price(&[0x45], 0), (-5, 1));
}

#[test]
fn price_two_bytes() {
    assert_eq!(get_price(&[0x81, 0x01], 0), (65, 2));
}

#[test]
fn price_three_bytes_negative() {
    // 1 + 1 * 64 + 2 * 8192, negated
    assert_eq!(get_price(&[0xc1, 0x81, 0x02], 0), (-16449, 3));
}

#[test]
fn price_at_offset() {
    assert_eq!(get_price(&[0xff, 0x05, 0x07], 1), (5, 2));
}

#[test]
fn price_past_end_reads_nothing() {
    assert_eq!(get_price(&[0x05], 1), (0, 1));
    assert_eq!(get_price(&[0x05], 7), (0, 7));
    assert_eq!(get_price(&[], 0), (0, 0));
}

#[test]
fn price_truncated_continuation_ends_one_past_the_end() {
    assert_eq!(get_price(&[0x81], 0), (1, 2));
    assert_eq!(get_price(&[0x81, 0x81], 0), (65, 3));
}

#[test]
fn price_nine_continuation_bytes_decode() {
    let mut data = vec![0x80u8; 9];
    data.push(0x00);
    assert_eq!(try_get_price(&data, 0), Some((0, 10)));
    assert_eq!(get_price(&data, 0), (0, 10));
}

#[test]
fn price_ten_continuation_bytes_refused() {
    let data = vec![0x80u8; 11];
    assert_eq!(try_get_price(&data, 0), None);
}

#[test]
fn price_magnitude_over_i64_refused() {
    let mut data = vec![0xffu8; 9];
    data.push(0x7f);
    assert_eq!(try_get_price(&data, 0), None);
}

#[test]
fn prices_in_sequence() {
    let data = [0x05, 0x81, 0x01, 0x45];
    let (vals, end) = get_prices(&data, 0, 3).unwrap();
    assert_eq!(vals, vec![5, 65, -5]);
    assert_eq!(end, 4);
    let (vals, end) = get_prices(&data, 0, 5).unwrap();
    assert_eq!(vals, vec![5, 65, -5, 0, 0]);
    assert_eq!(end, 4);
}

#[test]
fn prices_refused_when_one_overflows() {
    let mut data = vec![0x05u8];
    data.extend(vec![0x80u8; 11]);
    assert_eq!(get_prices(&data, 0, 2), None);
    assert_eq!(get_prices(&data, 0, 1), Some((vec![5], 1)));
}

#[test]
fn little_endian_reads() {
    let data = [0x34, 0x12, 0x78, 0x56];
    assert_eq!(read_u16_le(&data, 0), 0x1234);
    assert_eq!(read_u32_le(&data, 0), 0x5678_1234);
}

#[test]
fn datetime_minute_category() {
    // 2021-05-20 09:35
    let data = [0x08, 0x8a, 0x3f, 0x02];
    assert_eq!(get_datetime(0, &data, 0), Some((2021, 5, 20, 9, 35, 4)));
    assert_eq!(get_datetime(7, &data, 0), Some((2021, 5, 20, 9, 35, 4)));
    assert_eq!(get_datetime(8, &data, 0), Some((2021, 5, 20, 9, 35, 4)));
}

#[test]
fn datetime_day_category() {
    // 20250520
    let data = [0xaa, 152, 255, 52, 1];
    assert_eq!(get_datetime(9, &data, 1), Some((2025, 5, 20, 15, 0, 5)));
    assert_eq!(get_datetime(4, &data, 1), Some((2025, 5, 20, 15, 0, 5)));
}

#[test]
fn datetime_needs_four_bytes() {
    assert_eq!(get_datetime(9, &[1, 2, 3], 0), None);
    assert_eq!(get_datetime(9, &[1, 2, 3, 4], 1), None);
    assert_eq!(get_datetime(9, &[1, 2, 3, 4], 9), None);
}

#[test]
fn time_of_day() {
    assert_eq!(get_time(&[0x3f, 0x02], 0), Some((9, 35, 2)));
    assert_eq!(get_time(&[0x3f], 0), None);
}

#[test]
fn price_nine_byte_encoding_stays_below_2_pow_62() {
    let mut data = vec![0xffu8; 8];
    data.push(0x7f);
    let (v, end) = get_price(&data, 0);
    assert_eq!(v, -((1i64 << 62) - 1));
    assert_eq!(end, 9);
}

#[test]
fn price_is_unchanged_by_surrounding_bytes() {
    let enc = [0xc1u8, 0x81, 0x02];
    let (v, end) = get_price(&enc, 0);
    let mut framed = vec![0x81u8, 0x7f, 0x33];
    framed.extend(enc);
    framed.extend([0xff, 0x80]);
    assert_eq!(get_price(&framed, 3), (v, 3 + end));
}
