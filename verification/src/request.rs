//! Request packets of the TDX quote protocol.
//!
//! Every request starts with a ten-byte header whose bytes 6..8 and 8..10
//! both hold the little-endian length of the rest of the packet; the server
//! does not answer a packet whose declared length differs from what follows.

use vstd::prelude::*;
use vstd::utf8::encode_utf8;

verus! {

/// Little-endian encoding of the low 16 bits of `v`.
pub open spec fn le16(v: int) -> Seq<u8> {
    seq![(v % 256) as u8, ((v / 256) % 256) as u8]
}

/// Little-endian encoding of the low 32 bits of `v`.
pub open spec fn le32(v: int) -> Seq<u8> {
    seq![
        (v % 256) as u8,
        ((v / 256) % 256) as u8,
        ((v / 65536) % 256) as u8,
        ((v / 16777216) % 256) as u8,
    ]
}

/// The first `n` bytes of `bytes`, followed by zeros up to length `n`.
pub open spec fn zero_padded(bytes: Seq<u8>, n: nat) -> Seq<u8> {
    Seq::new(n, |i: int| if i < bytes.len() { bytes[i] } else { 0u8 })
}

/// The packet declares, twice, the length of what follows its header.
pub open spec fn well_framed(req: Seq<u8>) -> bool {
    &&& req.len() >= 10
    &&& req.len() - 10 < 65536
    &&& req.subrange(6, 8) == le16(req.len() - 10)
    &&& req.subrange(8, 10) == le16(req.len() - 10)
}

fn push_u16(buf: &mut Vec<u8>, v: u16)
    ensures
        final(buf)@ == old(buf)@ + le16(v as int),
{
    buf.push((v % 256) as u8);
    buf.push((v / 256) as u8);
    assert(final(buf)@ =~= old(buf)@ + le16(v as int));
}

fn push_u32(buf: &mut Vec<u8>, v: u32)
    ensures
        final(buf)@ == old(buf)@ + le32(v as int),
{
    buf.push((v % 256) as u8);
    buf.push(((v / 256) % 256) as u8);
    buf.push(((v / 65536) % 256) as u8);
    buf.push((v / 16777216) as u8);
    assert(final(buf)@ =~= old(buf)@ + le32(v as int));
}

fn push_padded(buf: &mut Vec<u8>, bytes: &[u8], n: usize)
    ensures
        final(buf)@ == old(buf)@ + zero_padded(bytes@, n as nat),
{
    let ghost start = buf@;
    let mut i: usize = 0;
    while i < n
        invariant
            i <= n,
            buf@ == start + zero_padded(bytes@, i as nat),
        decreases n - i,
    {
        if i < bytes.len() {
            buf.push(bytes[i]);
        } else {
            buf.push(0);
        }
        i = i + 1;
        assert(buf@ =~= start + zero_padded(bytes@, i as nat));
    }
}

/// The six bytes that stand for a security code: its UTF-8 bytes, cut or
/// zero-padded to six.
pub fn code_bytes(code: &str) -> (b: Vec<u8>)
    ensures
        b@ == zero_padded(encode_utf8(code@), 6),
        b@.len() == 6,
        forall|k: int|
            0 <= k < 6 ==> #[trigger] b@[k] == if k < encode_utf8(code@).len() {
                encode_utf8(code@)[k]
            } else {
                0u8
            },
{
    let mut b: Vec<u8> = Vec::new();
    push_padded(&mut b, code.as_bytes(), 6);
    assert(b@ =~= zero_padded(encode_utf8(code@), 6));
    b
}

/// Request for K-line bars (command 0x052d).
pub open spec fn security_bars_packet(
    category: u16,
    market: u8,
    code: Seq<u8>,
    start: u16,
    count: u16,
) -> Seq<u8> {
    le16(0x10c) + le32(0x01016408) + le16(0x1c) + le16(0x1c) + le16(0x052d) + le16(market as int)
        + zero_padded(code, 6) + le16(category as int) + le16(1) + le16(start as int) + le16(
        count as int,
    ) + le32(0) + le32(0) + le16(0)
}

/// Builds the request for `count` bars of `category` from offset `start`.
pub fn security_bars_request(category: u16, market: u8, code: &str, start: u16, count: u16) -> (req:
    Vec<u8>)
    ensures
        req@ == security_bars_packet(category, market, encode_utf8(code@), start, count),
        well_framed(req@),
{
    let mut req: Vec<u8> = Vec::new();
    push_u16(&mut req, 0x10c);
    push_u32(&mut req, 0x01016408);
    push_u16(&mut req, 0x1c);
    push_u16(&mut req, 0x1c);
    push_u16(&mut req, 0x052d);
    push_u16(&mut req, market as u16);
    push_all(&mut req, code_bytes(code).as_slice());
    push_u16(&mut req, category);
    push_u16(&mut req, 1);
    push_u16(&mut req, start);
    push_u16(&mut req, count);
    push_u32(&mut req, 0);
    push_u32(&mut req, 0);
    push_u16(&mut req, 0);
    assert(req@.subrange(6, 8) =~= le16(req@.len() - 10));
    assert(req@.subrange(8, 10) =~= le16(req@.len() - 10));
    req
}


fn push_all(buf: &mut Vec<u8>, bytes: &[u8])
    ensures
        final(buf)@ == old(buf)@ + bytes@,
{
    let ghost start = buf@;
    let mut i: usize = 0;
    while i < bytes.len()
        invariant
            i <= bytes@.len(),
            buf@ == start + bytes@.subrange(0, i as int),
        decreases bytes@.len() - i,
    {
        buf.push(bytes[i]);
        i = i + 1;
        assert(buf@ =~= start + bytes@.subrange(0, i as int));
    }
    assert(bytes@.subrange(0, i as int) =~= bytes@);
}

/// First handshake packet sent after connecting (0x9318).
pub open spec fn setup_packet_1() -> Seq<u8> {
    seq![0x0cu8, 0x02, 0x18, 0x93, 0x00, 0x01, 0x03, 0x00, 0x03, 0x00, 0x0d, 0x00, 0x01]
}

/// Builds the first handshake packet.
pub fn setup_command_1() -> (req: Vec<u8>)
    ensures
        req@ == setup_packet_1(),
        well_framed(req@),
{
    let mut req: Vec<u8> = Vec::new();
    push_all(&mut req, &[0x0c, 0x02, 0x18, 0x93, 0x00, 0x01, 0x03, 0x00, 0x03, 0x00, 0x0d, 0x00, 0x01]);
    assert(req@ =~= setup_packet_1());
    assert(req@.subrange(6, 8) =~= le16(req@.len() - 10));
    assert(req@.subrange(8, 10) =~= le16(req@.len() - 10));
    req
}


/// Second handshake packet (0x9418).
pub open spec fn setup_packet_2() -> Seq<u8> {
    seq![0x0cu8, 0x02, 0x18, 0x94, 0x00, 0x01, 0x03, 0x00, 0x03, 0x00, 0x0d, 0x00, 0x02]
}

/// Builds the second handshake packet.
pub fn setup_command_2() -> (req: Vec<u8>)
    ensures
        req@ == setup_packet_2(),
        well_framed(req@),
{
    let mut req: Vec<u8> = Vec::new();
    push_all(&mut req, &[0x0c, 0x02, 0x18, 0x94, 0x00, 0x01, 0x03, 0x00, 0x03, 0x00, 0x0d, 0x00, 0x02]);
    assert(req@ =~= setup_packet_2());
    assert(req@.subrange(6, 8) =~= le16(req@.len() - 10));
    assert(req@.subrange(8, 10) =~= le16(req@.len() - 10));
    req
}

/// Third handshake packet: the client's identification.
pub open spec fn setup_packet_3() -> Seq<u8> {
    seq![
        0x0cu8, 0x03, 0x18, 0x99, 0x00, 0x01, 0x20, 0x00, 0x20, 0x00, 0xdb, 0x0f, 0xd5, 0xd0,
        0xc9, 0xcc, 0xd6, 0xa4, 0xa8, 0xaf, 0x00, 0x00, 0x00, 0x8f, 0xc2, 0x25, 0x40, 0x13,
        0x00, 0x00, 0xd5, 0x00, 0xc9, 0xcc, 0xbd, 0xf0, 0xd7, 0xea, 0x00, 0x00, 0x00, 0x02,
    ]
}

/// Builds the third handshake packet.
pub fn setup_command_3() -> (req: Vec<u8>)
    ensures
        req@ == setup_packet_3(),
        well_framed(req@),
{
    let mut req: Vec<u8> = Vec::new();
    push_all(
        &mut req,
        &[
            0x0c, 0x03, 0x18, 0x99, 0x00, 0x01, 0x20, 0x00, 0x20, 0x00, 0xdb, 0x0f, 0xd5, 0xd0,
            0xc9, 0xcc, 0xd6, 0xa4, 0xa8, 0xaf, 0x00, 0x00, 0x00, 0x8f, 0xc2, 0x25, 0x40, 0x13,
            0x00, 0x00, 0xd5, 0x00, 0xc9, 0xcc, 0xbd, 0xf0, 0xd7, 0xea, 0x00, 0x00, 0x00, 0x02,
        ],
    );
    assert(req@ =~= setup_packet_3());
    assert(req@.subrange(6, 8) =~= le16(req@.len() - 10));
    assert(req@.subrange(8, 10) =~= le16(req@.len() - 10));
    req
}

/// Request for a chunk of a report file (command 0x06b9): at most 30000 bytes
/// from `offset` of the file whose name is cut or zero-padded to 100 bytes.
pub open spec fn report_file_packet(filename: Seq<u8>, offset: u32) -> Seq<u8> {
    seq![0x0cu8, 0x12, 0x34, 0x00, 0x00, 0x00] + le16(110) + le16(110) + le16(0x06b9) + le32(
        offset as int,
    ) + le32(0x7530) + zero_padded(filename, 100)
}

/// Builds the request for the report-file chunk at `offset`.
pub fn report_file_request(filename: &str, offset: u32) -> (req: Vec<u8>)
    ensures
        req@ == report_file_packet(encode_utf8(filename@), offset),
        well_framed(req@),
{
    let mut req: Vec<u8> = Vec::new();
    push_all(&mut req, &[0x0c, 0x12, 0x34, 0x00, 0x00, 0x00]);
    push_u16(&mut req, 110);
    push_u16(&mut req, 110);
    push_u16(&mut req, 0x06b9);
    push_u32(&mut req, offset);
    push_u32(&mut req, 0x7530);
    push_padded(&mut req, filename.as_bytes(), 100);
    assert(req@.subrange(6, 8) =~= le16(req@.len() - 10));
    assert(req@.subrange(8, 10) =~= le16(req@.len() - 10));
    req
}

/// Request for the ex-rights / ex-dividend events of one security (command 0x000f).
pub open spec fn xdxr_packet(market: u8, code: Seq<u8>) -> Seq<u8> {
    seq![0x0cu8, 0x1f, 0x18, 0x76, 0x00, 0x01, 0x0b, 0x00, 0x0b, 0x00] + le16(0x000f) + le16(1)
        + seq![market] + zero_padded(code, 6)
}

/// Builds the request for the ex-rights / ex-dividend events of a security.
pub fn xdxr_request(market: u8, code: &str) -> (req: Vec<u8>)
    ensures
        req@ == xdxr_packet(market, encode_utf8(code@)),
        well_framed(req@),
{
    let mut req: Vec<u8> = Vec::new();
    push_all(&mut req, &[0x0c, 0x1f, 0x18, 0x76, 0x00, 0x01, 0x0b, 0x00, 0x0b, 0x00]);
    push_u16(&mut req, 0x000f);
    push_u16(&mut req, 1);
    req.push(market);
    push_all(&mut req, code_bytes(code).as_slice());
    assert(req@ =~= xdxr_packet(market, encode_utf8(code@)));
    assert(req@.subrange(6, 8) =~= le16(req@.len() - 10));
    assert(req@.subrange(8, 10) =~= le16(req@.len() - 10));
    req
}

/// Request for `count` ticks of the day's transactions from offset `start`
/// (command 0x0fc5).
pub open spec fn transaction_packet(market: u8, code: Seq<u8>, start: u16, count: u16) -> Seq<u8> {
    seq![0x0cu8, 0x17, 0x08, 0x01, 0x01, 0x01, 0x0e, 0x00, 0x0e, 0x00] + le16(0x0fc5) + le16(
        market as int,
    ) + zero_padded(code, 6) + le16(start as int) + le16(count as int)
}

/// Builds the request for the day's transactions of a security.
pub fn transaction_request(market: u8, code: &str, start: u16, count: u16) -> (req: Vec<u8>)
    ensures
        req@ == transaction_packet(market, encode_utf8(code@), start, count),
        well_framed(req@),
{
    let mut req: Vec<u8> = Vec::new();
    push_all(&mut req, &[0x0c, 0x17, 0x08, 0x01, 0x01, 0x01, 0x0e, 0x00, 0x0e, 0x00]);
    push_u16(&mut req, 0x0fc5);
    push_u16(&mut req, market as u16);
    push_all(&mut req, code_bytes(code).as_slice());
    push_u16(&mut req, start);
    push_u16(&mut req, count);
    assert(req@.subrange(6, 8) =~= le16(req@.len() - 10));
    assert(req@.subrange(8, 10) =~= le16(req@.len() - 10));
    req
}

/// The (market, code) entries of a quotes request: one market byte and six
/// code bytes each.
pub open spec fn stock_entries(stocks: Seq<(u8, String)>) -> Seq<u8>
    decreases stocks.len(),
{
    if stocks.len() == 0 {
        Seq::<u8>::empty()
    } else {
        stock_entries(stocks.drop_last()) + seq![stocks.last().0] + zero_padded(
            encode_utf8(stocks.last().1@),
            6,
        )
    }
}

/// Request for real-time quotes of several securities (command 0x5053e).  The
/// declared length and the entry count are kept to their low 16 bits.
pub open spec fn security_quotes_packet(stocks: Seq<(u8, String)>) -> Seq<u8> {
    let data_len = (stocks.len() * 7 + 12) as int % 65536;
    le16(0x10c) + le32(0x02006320) + le16(data_len) + le16(data_len) + le32(0x5053e) + le32(0)
        + le16(0) + le16(stocks.len() as int % 65536) + stock_entries(stocks)
}

fn push_stock_entries(buf: &mut Vec<u8>, stocks: &Vec<(u8, String)>)
    ensures
        final(buf)@ == old(buf)@ + stock_entries(stocks@),
{
    let ghost header = buf@;
    let n = stocks.len();
    let mut i: usize = 0;
    while i < n
        invariant
            n == stocks@.len(),
            i <= n,
            buf@ == header + stock_entries(stocks@.subrange(0, i as int)),
        decreases n - i,
    {
        let market = stocks[i].0;
        let code = stocks[i].1.as_str();
        buf.push(market);
        push_padded(buf, code.as_bytes(), 6);
        proof {
            let s = stocks@.subrange(0, i + 1);
            assert(s.drop_last() =~= stocks@.subrange(0, i as int));
        }
        i = i + 1;
        assert(buf@ =~= header + stock_entries(stocks@.subrange(0, i as int)));
    }
    assert(stocks@.subrange(0, n as int) =~= stocks@);
}

proof fn lemma_quotes_framed(stocks: Seq<(u8, String)>, entries: Seq<u8>, req: Seq<u8>)
    requires
        stocks.len() * 7 + 12 < 65536,
        entries.len() == stocks.len() * 7,
        req == le16(0x10c) + le32(0x02006320) + le16((stocks.len() * 7 + 12) as int) + le16(
            (stocks.len() * 7 + 12) as int,
        ) + le32(0x5053e) + le32(0) + le16(0) + le16(stocks.len() as int) + entries,
    ensures
        well_framed(req),
{
    assert(req.subrange(6, 8) =~= le16(req.len() - 10));
    assert(req.subrange(8, 10) =~= le16(req.len() - 10));
}

proof fn lemma_stock_entries_len(stocks: Seq<(u8, String)>)
    ensures
        stock_entries(stocks).len() == stocks.len() * 7,
    decreases stocks.len(),
{
    if stocks.len() > 0 {
        lemma_stock_entries_len(stocks.drop_last());
    }
}

/// Builds the quotes request for the given (market, code) pairs.
#[verifier::spinoff_prover]
#[verifier::rlimit(40)]
pub fn security_quotes_request(stocks: &Vec<(u8, String)>) -> (req: Vec<u8>)
    ensures
        req@ == security_quotes_packet(stocks@),
        stocks@.len() * 7 + 12 < 65536 ==> well_framed(req@),
{
    let n = stocks.len();
    let data_len = ((n as u128 * 7 + 12) % 65536) as u16;
    let count = (n % 65536) as u16;
    assert(data_len as int == (stocks@.len() * 7 + 12) as int % 65536);
    assert(count as int == stocks@.len() as int % 65536);
    let mut req: Vec<u8> = Vec::new();
    push_u16(&mut req, 0x10c);
    push_u32(&mut req, 0x02006320);
    push_u16(&mut req, data_len);
    push_u16(&mut req, data_len);
    push_u32(&mut req, 0x5053e);
    push_u32(&mut req, 0);
    push_u16(&mut req, 0);
    push_u16(&mut req, count);
    let ghost header = req@;
    push_stock_entries(&mut req, stocks);
    assert(header == le16(0x10c) + le32(0x02006320) + le16(data_len as int) + le16(data_len as int) + le32(0x5053e) + le32(0)
        + le16(0) + le16(count as int));
    proof {
        lemma_stock_entries_len(stocks@);
        if stocks@.len() * 7 + 12 < 65536 {
            lemma_quotes_framed(stocks@, stock_entries(stocks@), req@);
        }
    }
    req
}

/// Request for the table of contents of a security's F10 company files
/// (command 0x02cf).
pub open spec fn company_info_category_packet(market: u8, code: Seq<u8>) -> Seq<u8> {
    seq![0x0cu8, 0x0f, 0x10, 0x9b, 0x00, 0x01, 0x0e, 0x00, 0x0e, 0x00] + le16(0x02cf) + le16(
        market as int,
    ) + zero_padded(code, 6) + le32(0)
}

/// Builds the request for a security's F10 table of contents.
pub fn company_info_category_request(market: u8, code: &str) -> (req: Vec<u8>)
    ensures
        req@ == company_info_category_packet(market, encode_utf8(code@)),
        well_framed(req@),
{
    let mut req: Vec<u8> = Vec::new();
    push_all(&mut req, &[0x0c, 0x0f, 0x10, 0x9b, 0x00, 0x01, 0x0e, 0x00, 0x0e, 0x00]);
    push_u16(&mut req, 0x02cf);
    push_u16(&mut req, market as u16);
    push_all(&mut req, code_bytes(code).as_slice());
    push_u32(&mut req, 0);
    assert(req@.subrange(6, 8) =~= le16(req@.len() - 10));
    assert(req@.subrange(8, 10) =~= le16(req@.len() - 10));
    req
}

/// Request for `length` bytes from `start` of an F10 company file
/// (command 0x02d0); the file name is cut or zero-padded to 80 bytes.
pub open spec fn company_info_content_packet(
    market: u8,
    code: Seq<u8>,
    filename: Seq<u8>,
    start: u32,
    length: u32,
) -> Seq<u8> {
    seq![0x0cu8, 0x07, 0x10, 0x9c, 0x00, 0x01, 0x68, 0x00, 0x68, 0x00] + le16(0x02d0) + le16(
        market as int,
    ) + zero_padded(code, 6) + le16(0) + zero_padded(filename, 80) + le32(start as int) + le32(
        length as int,
    ) + le32(0)
}

/// Builds the request for a slice of an F10 company file.
pub fn company_info_content_request(
    market: u8,
    code: &str,
    filename: &str,
    start: u32,
    length: u32,
) -> (req: Vec<u8>)
    ensures
        req@ == company_info_content_packet(
            market,
            encode_utf8(code@),
            encode_utf8(filename@),
            start,
            length,
        ),
        well_framed(req@),
{
    let mut req: Vec<u8> = Vec::new();
    push_all(&mut req, &[0x0c, 0x07, 0x10, 0x9c, 0x00, 0x01, 0x68, 0x00, 0x68, 0x00]);
    push_u16(&mut req, 0x02d0);
    push_u16(&mut req, market as u16);
    push_all(&mut req, code_bytes(code).as_slice());
    push_u16(&mut req, 0);
    push_padded(&mut req, filename.as_bytes(), 80);
    push_u32(&mut req, start);
    push_u32(&mut req, length);
    push_u32(&mut req, 0);
    assert(req@.subrange(6, 8) =~= le16(req@.len() - 10));
    assert(req@.subrange(8, 10) =~= le16(req@.len() - 10));
    req
}

/// Request for the financial summary of a security (command 0x0010).
pub open spec fn finance_info_packet(market: u8, code: Seq<u8>) -> Seq<u8> {
    seq![0x0cu8, 0x1f, 0x18, 0x76, 0x00, 0x01, 0x0b, 0x00, 0x0b, 0x00] + le16(0x0010) + le16(1)
        + seq![market] + zero_padded(code, 6)
}

/// Builds the request for a security's financial summary.
pub fn finance_info_request(market: u8, code: &str) -> (req: Vec<u8>)
    ensures
        req@ == finance_info_packet(market, encode_utf8(code@)),
        well_framed(req@),
{
    let mut req: Vec<u8> = Vec::new();
    push_all(&mut req, &[0x0c, 0x1f, 0x18, 0x76, 0x00, 0x01, 0x0b, 0x00, 0x0b, 0x00]);
    push_u16(&mut req, 0x0010);
    push_u16(&mut req, 1);
    req.push(market);
    push_all(&mut req, code_bytes(code).as_slice());
    assert(req@ =~= finance_info_packet(market, encode_utf8(code@)));
    assert(req@.subrange(6, 8) =~= le16(req@.len() - 10));
    assert(req@.subrange(8, 10) =~= le16(req@.len() - 10));
    req
}

/// Request for the number of securities of a market (command 0x044e).
pub open spec fn security_count_packet(market: u8) -> Seq<u8> {
    seq![0x0cu8, 0x0c, 0x18, 0x6c, 0x00, 0x01, 0x08, 0x00, 0x08, 0x00] + le16(0x044e) + le16(
        market as int,
    ) + seq![0x75u8, 0xc7, 0x33, 0x01]
}

/// Builds the request for the number of securities of a market.
pub fn security_count_request(market: u8) -> (req: Vec<u8>)
    ensures
        req@ == security_count_packet(market),
        well_framed(req@),
{
    let mut req: Vec<u8> = Vec::new();
    push_all(&mut req, &[0x0c, 0x0c, 0x18, 0x6c, 0x00, 0x01, 0x08, 0x00, 0x08, 0x00]);
    push_u16(&mut req, 0x044e);
    push_u16(&mut req, market as u16);
    push_all(&mut req, &[0x75, 0xc7, 0x33, 0x01]);
    assert(req@.subrange(6, 8) =~= le16(req@.len() - 10));
    assert(req@.subrange(8, 10) =~= le16(req@.len() - 10));
    req
}

/// Request for the batch of securities of a market from offset `start`
/// (command 0x0450).
pub open spec fn security_list_packet(market: u8, start: u16) -> Seq<u8> {
    seq![0x0cu8, 0x01, 0x18, 0x64, 0x01, 0x01, 0x06, 0x00, 0x06, 0x00] + le16(0x0450) + le16(
        market as int,
    ) + le16(start as int)
}

/// Builds the request for a batch of the securities of a market.
pub fn security_list_request(market: u8, start: u16) -> (req: Vec<u8>)
    ensures
        req@ == security_list_packet(market, start),
        well_framed(req@),
{
    let mut req: Vec<u8> = Vec::new();
    push_all(&mut req, &[0x0c, 0x01, 0x18, 0x64, 0x01, 0x01, 0x06, 0x00, 0x06, 0x00]);
    push_u16(&mut req, 0x0450);
    push_u16(&mut req, market as u16);
    push_u16(&mut req, start);
    assert(req@.subrange(6, 8) =~= le16(req@.len() - 10));
    assert(req@.subrange(8, 10) =~= le16(req@.len() - 10));
    req
}

/// Byte layout of the K-line request: the market as a `u16` at 12, the code at 14..20, the category at 20, the flag 1 at 22, the offset at 24 and the count at 26, then ten zero bytes.
/// The packet is 38 bytes long.
pub proof fn lemma_security_bars_layout(category: u16, market: u8, code: Seq<u8>, start: u16, count: u16)
    ensures
        ({
            let p = security_bars_packet(category, market, code, start, count);
            &&& p.len() == 38
            &&& p.subrange(0, 12) == seq![0xcu8, 0x1, 0x8, 0x64, 0x1, 0x1, 0x1c, 0x0, 0x1c, 0x0, 0x2d, 0x5]
            &&& p[12] == market
            &&& p[13] == 0
            &&& forall|k: int| 0 <= k < 6 ==> #[trigger] p[14 + k] == if k < code.len() { code[k] } else { 0u8 }
            &&& p[20] == category % 256
            &&& p[21] == category / 256
            &&& p.subrange(22, 24) == seq![0x1u8, 0x0]
            &&& p[24] == start % 256
            &&& p[25] == start / 256
            &&& p[26] == count % 256
            &&& p[27] == count / 256
            &&& p.subrange(28, 38) == seq![0x0u8, 0x0, 0x0, 0x0, 0x0, 0x0, 0x0, 0x0, 0x0, 0x0]
        }),
{
}

/// Byte layout of the report-file request: the offset at 12, the chunk limit 30000 at 16, the file name at 20..120.
/// The packet is 120 bytes long.
pub proof fn lemma_report_file_layout(filename: Seq<u8>, offset: u32)
    ensures
        ({
            let p = report_file_packet(filename, offset);
            &&& p.len() == 120
            &&& p.subrange(0, 12) == seq![0xcu8, 0x12, 0x34, 0x0, 0x0, 0x0, 0x6e, 0x0, 0x6e, 0x0, 0xb9, 0x6]
            &&& p[12] == offset % 256
            &&& p[13] == (offset / 256) % 256
            &&& p[14] == (offset / 65536) % 256
            &&& p[15] == offset / 16777216
            &&& p.subrange(16, 20) == seq![0x30u8, 0x75, 0x0, 0x0]
            &&& forall|k: int| 0 <= k < 100 ==> #[trigger] p[20 + k] == if k < filename.len() { filename[k] } else { 0u8 }
        }),
{
}

/// Byte layout of the ex-rights request: one market byte at 14 and the code at 15..21.
/// The packet is 21 bytes long.
pub proof fn lemma_xdxr_layout(market: u8, code: Seq<u8>)
    ensures
        ({
            let p = xdxr_packet(market, code);
            &&& p.len() == 21
            &&& p.subrange(0, 14) == seq![0xcu8, 0x1f, 0x18, 0x76, 0x0, 0x1, 0xb, 0x0, 0xb, 0x0, 0xf, 0x0, 0x1, 0x0]
            &&& p[14] == market
            &&& forall|k: int| 0 <= k < 6 ==> #[trigger] p[15 + k] == if k < code.len() { code[k] } else { 0u8 }
        }),
{
}

/// Byte layout of the transaction request: the market as a `u16` at 12, the code at 14..20, the offset at 20 and the count at 22.
/// The packet is 24 bytes long.
pub proof fn lemma_transaction_layout(market: u8, code: Seq<u8>, start: u16, count: u16)
    ensures
        ({
            let p = transaction_packet(market, code, start, count);
            &&& p.len() == 24
            &&& p.subrange(0, 12) == seq![0xcu8, 0x17, 0x8, 0x1, 0x1, 0x1, 0xe, 0x0, 0xe, 0x0, 0xc5, 0xf]
            &&& p[12] == market
            &&& p[13] == 0
            &&& forall|k: int| 0 <= k < 6 ==> #[trigger] p[14 + k] == if k < code.len() { code[k] } else { 0u8 }
            &&& p[20] == start % 256
            &&& p[21] == start / 256
            &&& p[22] == count % 256
            &&& p[23] == count / 256
        }),
{
}

/// Byte layout of the F10 table-of-contents request: the market as a `u16` at 12, the code at 14..20, four zero bytes.
/// The packet is 24 bytes long.
pub proof fn lemma_company_info_category_layout(market: u8, code: Seq<u8>)
    ensures
        ({
            let p = company_info_category_packet(market, code);
            &&& p.len() == 24
            &&& p.subrange(0, 12) == seq![0xcu8, 0xf, 0x10, 0x9b, 0x0, 0x1, 0xe, 0x0, 0xe, 0x0, 0xcf, 0x2]
            &&& p[12] == market
            &&& p[13] == 0
            &&& forall|k: int| 0 <= k < 6 ==> #[trigger] p[14 + k] == if k < code.len() { code[k] } else { 0u8 }
            &&& p.subrange(20, 24) == seq![0x0u8, 0x0, 0x0, 0x0]
        }),
{
}

/// Byte layout of the F10 content request: the market as a `u16` at 12, the code at 14..20, the file name at 22..102, the offset at 102, the length at 106, four zero bytes.
/// The packet is 114 bytes long.
pub proof fn lemma_company_info_content_layout(market: u8, code: Seq<u8>, filename: Seq<u8>, start: u32, length: u32)
    ensures
        ({
            let p = company_info_content_packet(market, code, filename, start, length);
            &&& p.len() == 114
            &&& p.subrange(0, 12) == seq![0xcu8, 0x7, 0x10, 0x9c, 0x0, 0x1, 0x68, 0x0, 0x68, 0x0, 0xd0, 0x2]
            &&& p[12] == market
            &&& p[13] == 0
            &&& forall|k: int| 0 <= k < 6 ==> #[trigger] p[14 + k] == if k < code.len() { code[k] } else { 0u8 }
            &&& p.subrange(20, 22) == seq![0x0u8, 0x0]
            &&& forall|k: int| 0 <= k < 80 ==> #[trigger] p[22 + k] == if k < filename.len() { filename[k] } else { 0u8 }
            &&& p[102] == start % 256
            &&& p[103] == (start / 256) % 256
            &&& p[104] == (start / 65536) % 256
            &&& p[105] == start / 16777216
            &&& p[106] == length % 256
            &&& p[107] == (length / 256) % 256
            &&& p[108] == (length / 65536) % 256
            &&& p[109] == length / 16777216
            &&& p.subrange(110, 114) == seq![0x0u8, 0x0, 0x0, 0x0]
        }),
{
}

/// Byte layout of the financial-summary request: one market byte at 14 and the code at 15..21.
/// The packet is 21 bytes long.
pub proof fn lemma_finance_info_layout(market: u8, code: Seq<u8>)
    ensures
        ({
            let p = finance_info_packet(market, code);
            &&& p.len() == 21
            &&& p.subrange(0, 14) == seq![0xcu8, 0x1f, 0x18, 0x76, 0x0, 0x1, 0xb, 0x0, 0xb, 0x0, 0x10, 0x0, 0x1, 0x0]
            &&& p[14] == market
            &&& forall|k: int| 0 <= k < 6 ==> #[trigger] p[15 + k] == if k < code.len() { code[k] } else { 0u8 }
        }),
{
}

/// Byte layout of the security-count request: the market as a `u16` at 12, then the bytes 75 c7 33 01.
/// The packet is 18 bytes long.
pub proof fn lemma_security_count_layout(market: u8)
    ensures
        ({
            let p = security_count_packet(market);
            &&& p.len() == 18
            &&& p.subrange(0, 12) == seq![0xcu8, 0xc, 0x18, 0x6c, 0x0, 0x1, 0x8, 0x0, 0x8, 0x0, 0x4e, 0x4]
            &&& p[12] == market
            &&& p[13] == 0
            &&& p.subrange(14, 18) == seq![0x75u8, 0xc7, 0x33, 0x1]
        }),
{
}

/// Byte layout of the security-list request: the market as a `u16` at 12 and the offset at 14.
/// The packet is 16 bytes long.
pub proof fn lemma_security_list_layout(market: u8, start: u16)
    ensures
        ({
            let p = security_list_packet(market, start);
            &&& p.len() == 16
            &&& p.subrange(0, 12) == seq![0xcu8, 0x1, 0x18, 0x64, 0x1, 0x1, 0x6, 0x0, 0x6, 0x0, 0x50, 0x4]
            &&& p[12] == market
            &&& p[13] == 0
            &&& p[14] == start % 256
            &&& p[15] == start / 256
        }),
{
}

/// The entries of a quotes request: entry `j` takes seven bytes at `7 * j`,
/// the market byte of the `j`-th pair followed by its code cut or
/// zero-padded to six bytes.
pub proof fn lemma_stock_entries_layout(stocks: Seq<(u8, String)>)
    ensures
        stock_entries(stocks).len() == 7 * stocks.len(),
        forall|j: int|
            0 <= j < stocks.len() ==> #[trigger] stock_entries(stocks)[7 * j] == stocks[j].0,
        forall|j: int, k: int|
            0 <= j < stocks.len() && 0 <= k < 6 ==> #[trigger] stock_entries(stocks)[7 * j + 1 + k]
                == if k < encode_utf8(stocks[j].1@).len() {
                encode_utf8(#[trigger] stocks[j].1@)[k]
            } else {
                0u8
            },
    decreases stocks.len(),
{
    if stocks.len() > 0 {
        let init = stocks.drop_last();
        lemma_stock_entries_layout(init);
        let e = stock_entries(stocks);
        let ei = stock_entries(init);
        assert(e == ei + seq![stocks.last().0] + zero_padded(encode_utf8(stocks.last().1@), 6));
        assert forall|j: int| 0 <= j < stocks.len() implies #[trigger] e[7 * j] == stocks[j].0 by {
            if j < stocks.len() - 1 {
                assert(init[j] == stocks[j]);
            }
        }
        assert forall|j: int, k: int|
            0 <= j < stocks.len() && 0 <= k < 6 implies #[trigger] e[7 * j + 1 + k] == if k
            < encode_utf8(stocks[j].1@).len() {
            encode_utf8(#[trigger] stocks[j].1@)[k]
        } else {
            0u8
        } by {
            if j < stocks.len() - 1 {
                assert(init[j] == stocks[j]);
            }
        }
    }
}

/// Byte layout of the quotes request: after the header (whose length fields
/// hold `7 * n + 12` and whose count field holds `n`, both kept to 16 bits)
/// comes entry `j` of the `n` pairs at `22 + 7 * j`: its market byte and its
/// code cut or zero-padded to six bytes.
pub proof fn lemma_security_quotes_layout(stocks: Seq<(u8, String)>)
    ensures
        ({
            let p = security_quotes_packet(stocks);
            let n = stocks.len() as int;
            let dl = (7 * n + 12) % 65536;
            &&& p.len() == 22 + 7 * n
            &&& p.subrange(0, 6) == seq![0x0cu8, 0x01, 0x20, 0x63, 0x00, 0x02]
            &&& p[6] == dl % 256 && p[7] == dl / 256
            &&& p[8] == dl % 256 && p[9] == dl / 256
            &&& p.subrange(10, 20) == seq![0x3eu8, 0x05, 0x05, 0x00, 0, 0, 0, 0, 0, 0]
            &&& p[20] == (n % 65536) % 256 && p[21] == (n % 65536) / 256
            &&& forall|j: int| 0 <= j < n ==> #[trigger] p[22 + 7 * j] == stocks[j].0
            &&& forall|j: int, k: int|
                0 <= j < n && 0 <= k < 6 ==> #[trigger] p[22 + 7 * j + 1 + k] == if k
                    < encode_utf8(stocks[j].1@).len() {
                    encode_utf8(#[trigger] stocks[j].1@)[k]
                } else {
                    0u8
                }
        }),
{
    lemma_stock_entries_layout(stocks);
    let p = security_quotes_packet(stocks);
    let e = stock_entries(stocks);
    let n = stocks.len() as int;
    assert forall|j: int| 0 <= j < n implies #[trigger] p[22 + 7 * j] == stocks[j].0 by {
        assert(p[22 + 7 * j] == e[7 * j]);
    }
    assert forall|j: int, k: int| 0 <= j < n && 0 <= k < 6 implies #[trigger] p[22 + 7 * j + 1 + k]
        == if k < encode_utf8(stocks[j].1@).len() {
        encode_utf8(#[trigger] stocks[j].1@)[k]
    } else {
        0u8
    } by {
        assert(p[22 + 7 * j + 1 + k] == e[7 * j + 1 + k]);
    }
}

} // verus!
