use mitdx::protocol::get_datetime;
use mitdx::vipdoc::{decode_daily_bars, decode_minute_bars};

fn daily(date: u32, prices: [u32; 4], amount: f32, volume: u32) -> Vec<u8> {
    let mut r = date.to_le_bytes().to_vec();
    for p in prices {
        r.extend(p.to_le_bytes());
    }
    r.extend(amount.to_bits().to_le_bytes());
    r.extend(volume.to_le_bytes());
    r.extend([0u8; 4]);
    r
}

#[test]
fn daily_records() {
    let mut data = daily(20240102, [3510, 3560, 3490, 3520], 1.25e9, 123456);
    data.extend(daily(20240103, [3520, 3530, 3500, 3505], 2.5, 7));
    data.extend([1, 2, 3]);
    let out = decode_daily_bars(&data);
    assert_eq!(out.len(), 2);
    assert_eq!((out[0].year, out[0].month, out[0].day), (2024, 1, 2));
    assert_eq!((out[0].open, out[0].high, out[0].low, out[0].close), (3510, 3560, 3490, 3520));
    assert_eq!(f32::from_bits(out[0].amount_bits), 1.25e9);
    assert_eq!(out[0].volume, 123456);
    assert_eq!(out[1].day, 3);
    assert_eq!(decode_daily_bars(&data[..31]).len(), 0);
}

fn minute(raw_date: u16, raw_time: u16, close: f32, volume: u32) -> Vec<u8> {
    let mut r = raw_date.to_le_bytes().to_vec();
    r.extend(raw_time.to_le_bytes());
    for p in [1.0f32, 2.0, 0.5, close, 1000.0] {
        r.extend(p.to_bits().to_le_bytes());
    }
    r.extend(volume.to_le_bytes());
    r.extend([0u8; 4]);
    r
}

#[test]
fn minute_records() {
    // 2021-05-20 09:35
    let data = minute(35336, 575, 1.75, 42);
    let out = decode_minute_bars(&data);
    assert_eq!(out.len(), 1);
    let r = out[0];
    assert_eq!((r.year, r.month, r.day, r.hour, r.minute), (2021, 5, 20, 9, 35));
    assert_eq!(f32::from_bits(r.close_bits), 1.75);
    assert_eq!(f32::from_bits(r.amount_bits), 1000.0);
    assert_eq!(r.volume, 42);
}

#[test]
fn minute_file_dates_match_protocol_minute_bars() {
    let data = minute(35336, 575, 1.0, 1);
    let r = decode_minute_bars(&data)[0];
    assert_eq!(get_datetime(0, &data, 0), Some((r.year, r.month, r.day, r.hour, r.minute, 4)));
}

#[test]
fn daily_file_dates_match_protocol_daily_bars() {
    let data = daily(20250520, [1, 2, 3, 4], 0.0, 0);
    let r = decode_daily_bars(&data)[0];
    assert_eq!(get_datetime(9, &data, 0), Some((r.year, r.month, r.day, 15, 0, 4)));
}
