use std::io::Write;

use mitdx::parse::{parse_security_bars, parse_security_quotes, parse_transaction_data};
use mitdx::response::{decode_response_body, response_body_sizes, ProtocolError};

/// Encodes a price difference the way the server does.
fn enc(v: i64) -> Vec<u8> {
    let neg = v < 0;
    let mut m = v.unsigned_abs();
    let mut first = (m & 0x3f) as u8;
    if neg {
        first |= 0x40;
    }
    m >>= 6;
    if m > 0 {
        first |= 0x80;
    }
    let mut out = vec![first];
    while m > 0 {
        let mut b = (m & 0x7f) as u8;
        m >>= 7;
        if m > 0 {
            b |= 0x80;
        }
        out.push(b);
    }
    out
}

fn zlib(data: &[u8]) -> Vec<u8> {
    let mut e = flate2::write::ZlibEncoder::new(Vec::new(), flate2::Compression::default());
    e.write_all(data).unwrap();
    e.finish().unwrap()
}

#[test]
fn header_sizes() {
    let mut header = [0u8; 16];
    header[12] = 0x34;
    header[13] = 0x12;
    header[14] = 0x00;
    header[15] = 0x20;
    assert_eq!(response_body_sizes(&header), (0x1234, 0x2000));
}

#[test]
fn uncompressed_body_is_kept() {
    let raw = vec![1u8, 2, 3];
    assert_eq!(decode_response_body(raw.clone(), 3, 3), Ok(raw));
}

#[test]
fn compressed_body_is_inflated() {
    let payload: Vec<u8> = (0..200u32).map(|i| (i % 7) as u8).collect();
    let packed = zlib(&payload);
    assert_ne!(packed.len(), payload.len());
    let n = packed.len() as u16;
    assert_eq!(decode_response_body(packed, n, 200), Ok(payload));
}

#[test]
fn corrupt_body_is_refused() {
    assert_eq!(decode_response_body(vec![1, 2, 3, 4], 4, 50), Err(ProtocolError::Inflate));
    let payload = vec![9u8; 100];
    let packed = zlib(&payload);
    let n = packed.len() as u16;
    // the stream holds fewer bytes than announced
    assert_eq!(decode_response_body(packed, n, 101), Err(ProtocolError::Inflate));
}

fn bar_bytes(date: u32, diffs: [i64; 4], vol: u32, amount: u32) -> Vec<u8> {
    let mut b = date.to_le_bytes().to_vec();
    for d in diffs {
        b.extend(enc(d));
    }
    b.extend(vol.to_le_bytes());
    b.extend(amount.to_le_bytes());
    b
}

#[test]
fn bars_prices_chain_from_the_previous_close() {
    let mut data = 2u16.to_le_bytes().to_vec();
    data.extend(bar_bytes(20250519, [10000, 50, 100, -20], 7, 8));
    data.extend(bar_bytes(20250520, [-30, 10, 40, -5], 9, 10));
    let bars = parse_security_bars(9, &data).unwrap();
    assert_eq!(bars.len(), 2);
    let b0 = bars[0];
    assert_eq!((b0.year, b0.month, b0.day, b0.hour, b0.minute), (2025, 5, 19, 15, 0));
    assert_eq!((b0.open, b0.close, b0.high, b0.low), (10000, 10050, 10100, 9980));
    assert_eq!((b0.vol_raw, b0.amount_raw), (7, 8));
    let b1 = bars[1];
    assert_eq!(b1.day, 20);
    // open relative to the previous close 10050
    assert_eq!((b1.open, b1.close, b1.high, b1.low), (10020, 10030, 10060, 10015));
    assert_eq!((b1.vol_raw, b1.amount_raw), (9, 10));
}

#[test]
fn bars_minute_category_timestamps() {
    let mut data = 1u16.to_le_bytes().to_vec();
    data.extend([0x08, 0x8a, 0x3f, 0x02]);
    data.extend(enc(12345));
    data.extend(enc(0));
    data.extend(enc(0));
    data.extend(enc(0));
    data.extend([0u8; 8]);
    let bars = parse_security_bars(0, &data).unwrap();
    assert_eq!(bars.len(), 1);
    assert_eq!((bars[0].year, bars[0].month, bars[0].day, bars[0].hour, bars[0].minute), (2021, 5, 20, 9, 35));
    assert_eq!(bars[0].open, 12345);
}

#[test]
fn bars_stop_at_a_truncated_bar() {
    let mut data = 3u16.to_le_bytes().to_vec();
    data.extend(bar_bytes(20250519, [1, 2, 3, 4], 7, 8));
    let mut second = bar_bytes(20250520, [1, 2, 3, 4], 7, 8);
    second.truncate(second.len() - 1);
    data.extend(second);
    let bars = parse_security_bars(9, &data).unwrap();
    assert_eq!(bars.len(), 1);
}

#[test]
fn bars_short_or_empty_response() {
    assert_eq!(parse_security_bars(9, &[]).unwrap().len(), 0);
    assert_eq!(parse_security_bars(9, &[5]).unwrap().len(), 0);
    assert_eq!(parse_security_bars(9, &[0, 0, 1, 2, 3]).unwrap().len(), 0);
}

#[test]
fn bars_with_an_undecodable_price_are_refused() {
    let mut data = 1u16.to_le_bytes().to_vec();
    data.extend(20250519u32.to_le_bytes());
    data.extend(vec![0x80u8; 11]);
    data.extend([0u8; 20]);
    assert_eq!(parse_security_bars(9, &data), Err(ProtocolError::PriceOverflow));
}

#[test]
fn transactions_accumulate_prices() {
    let mut data = 2u16.to_le_bytes().to_vec();
    data.extend(575u16.to_le_bytes());
    for v in [1234, 100, 5, 1, 0] {
        data.extend(enc(v));
    }
    data.extend(576u16.to_le_bytes());
    for v in [-4, 200, 7, 0, 0] {
        data.extend(enc(v));
    }
    let ticks = parse_transaction_data(&data).unwrap();
    assert_eq!(ticks.len(), 2);
    assert_eq!((ticks[0].hour, ticks[0].minute, ticks[0].price), (9, 35, 1234));
    assert_eq!((ticks[0].vol, ticks[0].num, ticks[0].buyorsell), (100, 5, 1));
    assert_eq!((ticks[1].hour, ticks[1].minute, ticks[1].price), (9, 36, 1230));
    assert_eq!((ticks[1].vol, ticks[1].num, ticks[1].buyorsell), (200, 7, 0));
}

#[test]
fn transactions_stop_when_no_time_is_left() {
    let mut data = 5u16.to_le_bytes().to_vec();
    data.extend(575u16.to_le_bytes());
    for v in [1, 2, 3, 4, 5] {
        data.extend(enc(v));
    }
    data.push(0x01);
    let ticks = parse_transaction_data(&data).unwrap();
    assert_eq!(ticks.len(), 1);
    assert_eq!(parse_transaction_data(&[1]).unwrap().len(), 0);
}

fn quote_bytes(market: u8, code: &[u8; 6], price: i64) -> Vec<u8> {
    let mut b = vec![market];
    b.extend(code);
    b.extend([0, 0]);
    // price, last close, open, high, low, server time, unused, vol, cur vol
    for v in [price, -10, 5, 20, -15, 14_250_000, 0, 5000, 30] {
        b.extend(enc(v));
    }
    b.extend(0x4a00_0000u32.to_le_bytes());
    // sell vol, buy vol, two unused
    for v in [2000, 3000, 0, 0] {
        b.extend(enc(v));
    }
    for level in 0..5i64 {
        b.extend(enc(-(level + 1)));
        b.extend(enc(level + 1));
        b.extend(enc(100 * (level + 1)));
        b.extend(enc(200 * (level + 1)));
    }
    b.extend([0, 0]);
    for v in [1, 2, 3, 4] {
        b.extend(enc(v));
    }
    b.extend([0, 0, 0, 0]);
    b
}

#[test]
fn quotes_are_relative_to_the_price() {
    let mut data = vec![0xb1, 0xcb];
    data.extend(2u16.to_le_bytes());
    data.extend(quote_bytes(1, b"600036", 3520));
    data.extend(quote_bytes(0, b"00001\0", 1000));
    let quotes = parse_security_quotes(&data).unwrap();
    assert_eq!(quotes.len(), 2);
    let q = &quotes[0];
    assert_eq!(q.market, 1);
    assert_eq!(q.code, "600036");
    assert_eq!((q.price, q.last_close, q.open, q.high, q.low), (3520, 3510, 3525, 3540, 3505));
    assert_eq!((q.servertime, q.vol, q.cur_vol, q.amount_raw), (14_250_000, 5000, 30, 0x4a00_0000));
    assert_eq!((q.s_vol, q.b_vol), (2000, 3000));
    assert_eq!(q.levels.len(), 5);
    assert_eq!((q.levels[0].bid, q.levels[0].ask, q.levels[0].bid_vol, q.levels[0].ask_vol), (3519, 3521, 100, 200));
    assert_eq!((q.levels[4].bid, q.levels[4].ask, q.levels[4].bid_vol, q.levels[4].ask_vol), (3515, 3525, 500, 1000));
    assert_eq!(quotes[1].code, "00001");
    assert_eq!(quotes[1].price, 1000);
}

#[test]
fn quote_code_that_is_not_utf8_is_empty() {
    let mut data = vec![0, 0];
    data.extend(1u16.to_le_bytes());
    data.extend(quote_bytes(0, &[0xff, 0xfe, b'1', b'2', b'3', b'4'], 1));
    let quotes = parse_security_quotes(&data).unwrap();
    assert_eq!(quotes.len(), 1);
    assert_eq!(quotes[0].code, "");
}

#[test]
fn quotes_without_the_trailer_are_dropped() {
    let mut data = vec![0, 0];
    data.extend(1u16.to_le_bytes());
    let mut q = quote_bytes(1, b"600036", 3520);
    q.truncate(q.len() - 12);
    data.extend(q);
    assert_eq!(parse_security_quotes(&data).unwrap().len(), 0);
    assert_eq!(parse_security_quotes(&[0, 0, 1]).unwrap().len(), 0);
}

#[test]
fn inflated_body_has_the_announced_length() {
    let payload: Vec<u8> = (0..300u32).map(|i| (i % 3) as u8).collect();
    let packed = zlib(&payload);
    let n = packed.len() as u16;
    let body = decode_response_body(packed, n, 120).unwrap();
    assert_eq!(body.len(), 120);
    assert_eq!(&body[..], &payload[..120]);
}
