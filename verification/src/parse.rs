//! Parsers of the payloads that the TDX quote server sends back, one per
//! command.  Prices come out as integers in the unit the protocol counts in
//! (thousandths of a yuan for bars, hundredths for ticks and quotes); the
//! packed floating-point fields come out as their raw 32 bits.

use vstd::prelude::*;
use crate::protocol::{
    datetime_at, get_datetime, get_prices, get_time, le_u16_at, le_u32_at, lemma_scan_stop_bounds,
    price_at, prices_at, read_u16_le, read_u32_le, time_at,
};
use crate::response::ProtocolError;
use crate::text::{trim_trailing_nul, utf8_string, without_trailing_nul};
use vstd::utf8::{decode_utf8, valid_utf8};

verus! {

/// `acc` followed by the records of `rest`, or the error of `rest`.
pub open spec fn prepend_records<T>(acc: Seq<T>, rest: Result<Seq<T>, ProtocolError>) -> Result<
    Seq<T>,
    ProtocolError,
> {
    match rest {
        Ok(s) => Ok(acc + s),
        Err(e) => Err(e),
    }
}

/// One K-line bar.  Prices are in thousandths; `vol_raw` and `amount_raw` hold
/// the packed volume and turnover words.
#[derive(Clone, Copy, Debug, PartialEq, Eq, Structural)]
pub struct Bar {
    pub year: u32,
    pub month: u32,
    pub day: u32,
    pub hour: u32,
    pub minute: u32,
    pub open: i128,
    pub close: i128,
    pub high: i128,
    pub low: i128,
    pub vol_raw: u32,
    pub amount_raw: u32,
}

/// Bound on the size of the running price base after `n` records.
pub open spec fn base_bound(n: int) -> int {
    n * 0x1_0000_0000_0000_0000
}

/// The bar at `pos` with its open price relative to `base`, and the position
/// after it; `Ok(None)` when the bar is cut short, an error when one of its
/// prices does not decode.
#[verifier::opaque]
pub open spec fn bar_at(category: u16, data: Seq<u8>, pos: int, base: int) -> Result<
    Option<(Bar, int)>,
    ProtocolError,
> {
    match datetime_at(category, data, pos) {
        None => Ok(None),
        Some((year, month, day, hour, minute, p)) => match prices_at(data, p, 4) {
            None => Err(ProtocolError::PriceOverflow),
            Some((ps, q)) => if q + 8 > data.len() {
                Ok(None)
            } else {
                let open = ps[0] + base;
                Ok(
                    Some(
                        (
                            Bar {
                                year: year as u32,
                                month: month as u32,
                                day: day as u32,
                                hour: hour as u32,
                                minute: minute as u32,
                                open: open as i128,
                                close: (open + ps[1]) as i128,
                                high: (open + ps[2]) as i128,
                                low: (open + ps[3]) as i128,
                                vol_raw: le_u32_at(data, q) as u32,
                                amount_raw: le_u32_at(data, q + 4) as u32,
                            },
                            q + 8,
                        ),
                    ),
                )
            },
        },
    }
}

/// Up to `n` bars decoded from `pos`; each bar's open price is relative to
/// `base`, which is the close of the bar before (0 for the first), and its
/// other prices are relative to its open.  Decoding stops at a truncated bar;
/// an undecodable price is an error.
pub open spec fn bars_from(category: u16, data: Seq<u8>, pos: int, base: int, n: nat) -> Result<
    Seq<Bar>,
    ProtocolError,
>
    decreases n,
{
    if n == 0 {
        Ok(Seq::<Bar>::empty())
    } else {
        match bar_at(category, data, pos, base) {
            Err(e) => Err(e),
            Ok(None) => Ok(Seq::<Bar>::empty()),
            Ok(Some((bar, next))) => prepend_records(
                seq![bar],
                bars_from(category, data, next, bar.close as int, (n - 1) as nat),
            ),
        }
    }
}

/// The bars of a K-line response: a `u16` count, then the bars.
pub open spec fn security_bars_of(category: u16, data: Seq<u8>) -> Result<Seq<Bar>, ProtocolError> {
    if data.len() < 2 {
        Ok(Seq::<Bar>::empty())
    } else {
        bars_from(category, data, 2, 0, le_u16_at(data, 0) as nat)
    }
}

proof fn lemma_prepend_assoc<T>(a: Seq<T>, b: Seq<T>, r: Result<Seq<T>, ProtocolError>)
    ensures
        prepend_records(a, prepend_records(b, r)) == prepend_records(a + b, r),
{
    if let Ok(s) = r {
        assert(a + (b + s) =~= (a + b) + s);
    }
}

proof fn lemma_prices_len(data: Seq<u8>, pos: int, k: nat)
    requires
        prices_at(data, pos, k) is Some,
    ensures
        prices_at(data, pos, k).unwrap().0.len() == k,
    decreases k,
{
    if k > 0 {
        lemma_prices_len(data, price_at(data, pos).1, (k - 1) as nat);
    }
}

/// Decodes the bar at `pos` (see `bar_at`).
fn decode_bar(category: u16, data: &[u8], pos: usize, base: i128) -> (r: Result<
    Option<(Bar, usize)>,
    ProtocolError,
>)
    requires
        data@.len() < usize::MAX,
        -0x1_0000_0000_0000_0000_0000_0000 <= base <= 0x1_0000_0000_0000_0000_0000_0000,
    ensures
        match r {
            Err(e) => bar_at(category, data@, pos as int, base as int) == Err::<
                Option<(Bar, int)>,
                ProtocolError,
            >(e),
            Ok(None) => bar_at(category, data@, pos as int, base as int) == Ok::<
                Option<(Bar, int)>,
                ProtocolError,
            >(None),
            Ok(Some((bar, next))) => bar_at(category, data@, pos as int, base as int) == Ok::<
                Option<(Bar, int)>,
                ProtocolError,
            >(Some((bar, next as int))) && next <= data@.len() && base - 0x1_0000_0000_0000_0000
                <= bar.close <= base + 0x1_0000_0000_0000_0000,
        },
{
    reveal(bar_at);
    match get_datetime(category, data, pos) {
        None => Ok(None),
        Some((year, month, day, hour, minute, p)) => {
            match get_prices(data, p, 4) {
                None => Err(ProtocolError::PriceOverflow),
                Some((ps, q)) => {
                    proof {
                        lemma_prices_len(data@, p as int, 4);
                    }
                    if q > data.len() || data.len() - q < 8 {
                        Ok(None)
                    } else {
                        let open = ps[0] as i128 + base;
                        let bar = Bar {
                            year,
                            month,
                            day,
                            hour,
                            minute,
                            open,
                            close: open + ps[1] as i128,
                            high: open + ps[2] as i128,
                            low: open + ps[3] as i128,
                            vol_raw: read_u32_le(data, q),
                            amount_raw: read_u32_le(data, q + 4),
                        };
                        Ok(Some((bar, q + 8)))
                    }
                },
            }
        },
    }
}

/// Decodes a K-line response for bars of `category`.
pub fn parse_security_bars(category: u16, data: &[u8]) -> (r: Result<Vec<Bar>, ProtocolError>)
    requires
        data@.len() < usize::MAX,
    ensures
        match r {
            Ok(bars) => security_bars_of(category, data@) == Ok::<Seq<Bar>, ProtocolError>(bars@),
            Err(e) => security_bars_of(category, data@) == Err::<Seq<Bar>, ProtocolError>(e),
        },
        r matches Ok(bars) ==> bars@.len() <= (if data@.len() < 2 {
            0
        } else {
            le_u16_at(data@, 0)
        }),
{
    let mut bars: Vec<Bar> = Vec::new();
    if data.len() < 2 {
        return Ok(bars);
    }
    let count = read_u16_le(data, 0);
    let mut pos: usize = 2;
    let mut base: i128 = 0;
    let mut i: u16 = 0;
    let mut done = false;
    assert(bars@ + Seq::<Bar>::empty() =~= Seq::<Bar>::empty());
    while i < count && !done
        invariant
            data@.len() < usize::MAX,
            i <= count,
            count == le_u16_at(data@, 0),
            bars@.len() == i,
            -base_bound(i as int) <= base <= base_bound(i as int),
            security_bars_of(category, data@) == prepend_records(
                bars@,
                if done {
                    Ok(Seq::<Bar>::empty())
                } else {
                    bars_from(category, data@, pos as int, base as int, (count - i) as nat)
                },
            ),
        decreases 2 * (count - i) + if done { 0int } else { 1int },
    {
        match decode_bar(category, data, pos, base) {
            Err(e) => {
                return Err(e);
            },
            Ok(None) => {
                done = true;
            },
            Ok(Some((bar, next))) => {
                let ghost old_bars = bars@;
                proof {
                    lemma_prepend_assoc(
                        bars@,
                        seq![bar],
                        bars_from(category, data@, next as int, bar.close as int, (count - i - 1) as nat),
                    );
                }
                bars.push(bar);
                assert(bars@ =~= old_bars + seq![bar]);
                pos = next;
                base = bar.close;
                i = i + 1;
            },
        }
    }
    assert(bars@ + Seq::<Bar>::empty() =~= bars@);
    Ok(bars)
}


/// One trade of the day's transaction list.  `price` is in hundredths.
#[derive(Clone, Copy, Debug, PartialEq, Eq, Structural)]
pub struct Tick {
    pub hour: u32,
    pub minute: u32,
    pub price: i128,
    pub vol: i64,
    pub num: i64,
    pub buyorsell: i64,
}

/// The trade at `pos`, its price relative to `last` (the price of the trade
/// before), and the position after it; `Ok(None)` when no time of day is left,
/// an error when one of its five numbers does not decode.
#[verifier::opaque]
pub open spec fn tick_at(data: Seq<u8>, pos: int, last: int) -> Result<
    Option<(Tick, int)>,
    ProtocolError,
> {
    match time_at(data, pos) {
        None => Ok(None),
        Some((hour, minute, p)) => match prices_at(data, p, 5) {
            None => Err(ProtocolError::PriceOverflow),
            Some((ps, q)) => Ok(
                Some(
                    (
                        Tick {
                            hour: hour as u32,
                            minute: minute as u32,
                            price: (last + ps[0]) as i128,
                            vol: ps[1],
                            num: ps[2],
                            buyorsell: ps[3],
                        },
                        q,
                    ),
                ),
            ),
        },
    }
}

/// Up to `n` trades decoded from `pos`, each price relative to the one before
/// (to `last` for the first).
pub open spec fn ticks_from(data: Seq<u8>, pos: int, last: int, n: nat) -> Result<
    Seq<Tick>,
    ProtocolError,
>
    decreases n,
{
    if n == 0 {
        Ok(Seq::<Tick>::empty())
    } else {
        match tick_at(data, pos, last) {
            Err(e) => Err(e),
            Ok(None) => Ok(Seq::<Tick>::empty()),
            Ok(Some((tick, next))) => prepend_records(
                seq![tick],
                ticks_from(data, next, tick.price as int, (n - 1) as nat),
            ),
        }
    }
}

/// The trades of a transaction response: a `u16` count, then the trades, the
/// first one's price relative to 0.
pub open spec fn transactions_of(data: Seq<u8>) -> Result<Seq<Tick>, ProtocolError> {
    if data.len() < 2 {
        Ok(Seq::<Tick>::empty())
    } else {
        ticks_from(data, 2, 0, le_u16_at(data, 0) as nat)
    }
}

/// Decodes the trade at `pos` (see `tick_at`).
fn decode_tick(data: &[u8], pos: usize, last: i128) -> (r: Result<
    Option<(Tick, usize)>,
    ProtocolError,
>)
    requires
        data@.len() < usize::MAX,
        pos <= data@.len() + 1,
        -0x1_0000_0000_0000_0000_0000_0000 <= last <= 0x1_0000_0000_0000_0000_0000_0000,
    ensures
        match r {
            Err(e) => tick_at(data@, pos as int, last as int) == Err::<
                Option<(Tick, int)>,
                ProtocolError,
            >(e),
            Ok(None) => tick_at(data@, pos as int, last as int) == Ok::<
                Option<(Tick, int)>,
                ProtocolError,
            >(None),
            Ok(Some((tick, next))) => tick_at(data@, pos as int, last as int) == Ok::<
                Option<(Tick, int)>,
                ProtocolError,
            >(Some((tick, next as int))) && next <= data@.len() + 1 && last
                - 0x1_0000_0000_0000_0000 <= tick.price <= last + 0x1_0000_0000_0000_0000,
        },
{
    reveal(tick_at);
    match get_time(data, pos) {
        None => Ok(None),
        Some((hour, minute, p)) => {
            match get_prices(data, p, 5) {
                None => Err(ProtocolError::PriceOverflow),
                Some((ps, q)) => {
                    proof {
                        lemma_prices_len(data@, p as int, 5);
                    }
                    let tick = Tick {
                        hour,
                        minute,
                        price: last + ps[0] as i128,
                        vol: ps[1],
                        num: ps[2],
                        buyorsell: ps[3],
                    };
                    Ok(Some((tick, q)))
                },
            }
        },
    }
}

/// Decodes the response to a request for the day's transactions.
pub fn parse_transaction_data(data: &[u8]) -> (r: Result<Vec<Tick>, ProtocolError>)
    requires
        data@.len() < usize::MAX,
    ensures
        match r {
            Ok(ticks) => transactions_of(data@) == Ok::<Seq<Tick>, ProtocolError>(ticks@),
            Err(e) => transactions_of(data@) == Err::<Seq<Tick>, ProtocolError>(e),
        },
        r matches Ok(ticks) ==> ticks@.len() <= (if data@.len() < 2 {
            0
        } else {
            le_u16_at(data@, 0)
        }),
{
    let mut ticks: Vec<Tick> = Vec::new();
    if data.len() < 2 {
        return Ok(ticks);
    }
    let count = read_u16_le(data, 0);
    let mut pos: usize = 2;
    let mut last: i128 = 0;
    let mut i: u16 = 0;
    let mut done = false;
    assert(ticks@ + Seq::<Tick>::empty() =~= Seq::<Tick>::empty());
    while i < count && !done
        invariant
            data@.len() < usize::MAX,
            i <= count,
            count == le_u16_at(data@, 0),
            pos <= data@.len() + 1,
            ticks@.len() == i,
            -base_bound(i as int) <= last <= base_bound(i as int),
            transactions_of(data@) == prepend_records(
                ticks@,
                if done {
                    Ok(Seq::<Tick>::empty())
                } else {
                    ticks_from(data@, pos as int, last as int, (count - i) as nat)
                },
            ),
        decreases 2 * (count - i) + if done { 0int } else { 1int },
    {
        match decode_tick(data, pos, last) {
            Err(e) => {
                return Err(e);
            },
            Ok(None) => {
                done = true;
            },
            Ok(Some((tick, next))) => {
                let ghost old_ticks = ticks@;
                proof {
                    lemma_prepend_assoc(
                        ticks@,
                        seq![tick],
                        ticks_from(data@, next as int, tick.price as int, (count - i - 1) as nat),
                    );
                }
                ticks.push(tick);
                assert(ticks@ =~= old_ticks + seq![tick]);
                pos = next;
                last = tick.price;
                i = i + 1;
            },
        }
    }
    assert(ticks@ + Seq::<Tick>::empty() =~= ticks@);
    Ok(ticks)
}


/// One level of the order book: bid and ask prices (hundredths) and volumes.
#[derive(Clone, Copy, Debug, PartialEq, Eq, Structural)]
pub struct QuoteLevel {
    pub bid: i128,
    pub ask: i128,
    pub bid_vol: i64,
    pub ask_vol: i64,
}

/// Real-time quote of one security.  Prices are in hundredths; `amount_raw`
/// holds the packed turnover word; `levels` holds the five book levels.
pub struct Quote {
    pub market: u8,
    pub code: String,
    pub price: i128,
    pub last_close: i128,
    pub open: i128,
    pub high: i128,
    pub low: i128,
    pub servertime: i64,
    pub vol: i64,
    pub cur_vol: i64,
    pub amount_raw: u32,
    pub s_vol: i64,
    pub b_vol: i64,
    pub levels: Vec<QuoteLevel>,
}

/// What a `Quote` holds, with its code as characters and its levels as a
/// sequence.
pub struct QuoteView {
    pub market: u8,
    pub code: Seq<char>,
    pub price: i128,
    pub last_close: i128,
    pub open: i128,
    pub high: i128,
    pub low: i128,
    pub servertime: i64,
    pub vol: i64,
    pub cur_vol: i64,
    pub amount_raw: u32,
    pub s_vol: i64,
    pub b_vol: i64,
    pub levels: Seq<QuoteLevel>,
}

impl View for Quote {
    type V = QuoteView;

    open spec fn view(&self) -> QuoteView {
        QuoteView {
            market: self.market,
            code: self.code@,
            price: self.price,
            last_close: self.last_close,
            open: self.open,
            high: self.high,
            low: self.low,
            servertime: self.servertime,
            vol: self.vol,
            cur_vol: self.cur_vol,
            amount_raw: self.amount_raw,
            s_vol: self.s_vol,
            b_vol: self.b_vol,
            levels: self.levels@,
        }
    }
}

/// The views of a sequence of quotes.
pub open spec fn quote_views(quotes: Seq<Quote>) -> Seq<QuoteView> {
    quotes.map_values(|q: Quote| q@)
}

/// The code of a quote record: its six bytes decoded as UTF-8 (nothing when
/// they are not valid UTF-8), without trailing NULs.
pub open spec fn quote_code(bytes: Seq<u8>) -> Seq<char> {
    without_trailing_nul(
        if valid_utf8(bytes) {
            decode_utf8(bytes)
        } else {
            Seq::<char>::empty()
        },
    )
}

/// The five book levels whose twenty numbers start at `vals[4]`, prices
/// relative to `price`.
pub open spec fn quote_levels(price: int, vals: Seq<i64>) -> Seq<QuoteLevel> {
    Seq::new(
        5,
        |l: int|
            QuoteLevel {
                bid: (price + vals[4 + 4 * l]) as i128,
                ask: (price + vals[5 + 4 * l]) as i128,
                bid_vol: vals[6 + 4 * l],
                ask_vol: vals[7 + 4 * l],
            },
    )
}

/// The quote record at `pos` and the position after it.  A record holds the
/// market byte, six code bytes and two unused bytes; nine numbers (price,
/// then last close, open, high and low relative to it, server time, an unused
/// number, volume, current volume); the packed turnover word; four numbers
/// (sell volume, buy volume, two unused) and the five book levels; then two
/// bytes, four numbers and four bytes that are skipped as far as present.
/// `Ok(None)` when the record is cut short, an error when a number does not
/// decode.
#[verifier::opaque]
pub open spec fn quote_at(data: Seq<u8>, pos: int) -> Result<Option<(QuoteView, int)>, ProtocolError> {
    if pos + 9 > data.len() {
        Ok(None)
    } else {
        match prices_at(data, pos + 9, 9) {
            None => Err(ProtocolError::PriceOverflow),
            Some((a, p1)) => if p1 + 4 > data.len() {
                Ok(None)
            } else {
                match prices_at(data, p1 + 4, 24) {
                    None => Err(ProtocolError::PriceOverflow),
                    Some((b, p2)) => if p2 >= data.len() {
                        Ok(None)
                    } else {
                        let p3 = if p2 + 2 <= data.len() {
                            p2 + 2
                        } else {
                            p2
                        };
                        match prices_at(data, p3, 4) {
                            None => Err(ProtocolError::PriceOverflow),
                            Some((_, p4)) => {
                                let p5 = if p4 + 4 <= data.len() {
                                    p4 + 4
                                } else {
                                    p4
                                };
                                let price = a[0] as int;
                                Ok(
                                    Some(
                                        (
                                            QuoteView {
                                                market: data[pos],
                                                code: quote_code(data.subrange(pos + 1, pos + 7)),
                                                price: price as i128,
                                                last_close: (price + a[1]) as i128,
                                                open: (price + a[2]) as i128,
                                                high: (price + a[3]) as i128,
                                                low: (price + a[4]) as i128,
                                                servertime: a[5],
                                                vol: a[7],
                                                cur_vol: a[8],
                                                amount_raw: le_u32_at(data, p1) as u32,
                                                s_vol: b[0],
                                                b_vol: b[1],
                                                levels: quote_levels(price, b),
                                            },
                                            p5,
                                        ),
                                    ),
                                )
                            },
                        }
                    },
                }
            },
        }
    }
}

/// Up to `n` quote records decoded from `pos`.
pub open spec fn quotes_from(data: Seq<u8>, pos: int, n: nat) -> Result<
    Seq<QuoteView>,
    ProtocolError,
>
    decreases n,
{
    if n == 0 {
        Ok(Seq::<QuoteView>::empty())
    } else {
        match quote_at(data, pos) {
            Err(e) => Err(e),
            Ok(None) => Ok(Seq::<QuoteView>::empty()),
            Ok(Some((q, next))) => prepend_records(seq![q], quotes_from(data, next, (n - 1) as nat)),
        }
    }
}

/// The quotes of a quotes response: two unused bytes, a `u16` count, then the
/// records.
pub open spec fn security_quotes_of(data: Seq<u8>) -> Result<Seq<QuoteView>, ProtocolError> {
    if data.len() < 4 {
        Ok(Seq::<QuoteView>::empty())
    } else {
        quotes_from(data, 4, le_u16_at(data, 2) as nat)
    }
}

fn decode_quote_code(bytes: &[u8]) -> (code: String)
    ensures
        code@ == quote_code(bytes@),
{
    match utf8_string(bytes) {
        Some(s) => trim_trailing_nul(s.as_str()),
        None => String::new(),
    }
}

fn quote_levels_of(price: i64, vals: &Vec<i64>) -> (levels: Vec<QuoteLevel>)
    requires
        vals@.len() == 24,
    ensures
        levels@ == quote_levels(price as int, vals@),
{
    let mut levels: Vec<QuoteLevel> = Vec::new();
    let mut l: usize = 0;
    while l < 5
        invariant
            vals@.len() == 24,
            l <= 5,
            levels@ == quote_levels(price as int, vals@).subrange(0, l as int),
        decreases 5 - l,
    {
        levels.push(
            QuoteLevel {
                bid: price as i128 + vals[4 + 4 * l] as i128,
                ask: price as i128 + vals[5 + 4 * l] as i128,
                bid_vol: vals[6 + 4 * l],
                ask_vol: vals[7 + 4 * l],
            },
        );
        l = l + 1;
        assert(levels@ =~= quote_levels(price as int, vals@).subrange(0, l as int));
    }
    assert(levels@ =~= quote_levels(price as int, vals@));
    levels
}

/// Decodes the quote record at `pos` (see `quote_at`).
fn decode_quote(data: &[u8], pos: usize) -> (r: Result<Option<(Quote, usize)>, ProtocolError>)
    requires
        data@.len() < usize::MAX,
        pos <= data@.len() + 1,
    ensures
        match r {
            Err(e) => quote_at(data@, pos as int) == Err::<Option<(QuoteView, int)>, ProtocolError>(
                e,
            ),
            Ok(None) => quote_at(data@, pos as int) == Ok::<
                Option<(QuoteView, int)>,
                ProtocolError,
            >(None),
            Ok(Some((q, next))) => quote_at(data@, pos as int) == Ok::<
                Option<(QuoteView, int)>,
                ProtocolError,
            >(Some((q@, next as int))) && next <= data@.len() + 1,
        },
{
    reveal(quote_at);
    if pos > data.len() || data.len() - pos < 9 {
        return Ok(None);
    }
    let market = data[pos];
    let code = decode_quote_code(&data[pos + 1..pos + 7]);
    let (a, p1) = match get_prices(data, pos + 9, 9) {
        None => {
            return Err(ProtocolError::PriceOverflow);
        },
        Some(r) => r,
    };
    proof {
        lemma_prices_len(data@, pos + 9, 9);
    }
    if p1 > data.len() || data.len() - p1 < 4 {
        return Ok(None);
    }
    let amount_raw = read_u32_le(data, p1);
    let (b, p2) = match get_prices(data, p1 + 4, 24) {
        None => {
            return Err(ProtocolError::PriceOverflow);
        },
        Some(r) => r,
    };
    proof {
        lemma_prices_len(data@, p1 + 4, 24);
    }
    if p2 >= data.len() {
        return Ok(None);
    }
    let p3 = if data.len() - p2 >= 2 {
        p2 + 2
    } else {
        p2
    };
    let p4 = match get_prices(data, p3, 4) {
        None => {
            return Err(ProtocolError::PriceOverflow);
        },
        Some((_, p4)) => p4,
    };
    let p5 = if p4 <= data.len() && data.len() - p4 >= 4 {
        p4 + 4
    } else {
        p4
    };
    let price = a[0];
    let levels = quote_levels_of(price, &b);
    let q = Quote {
        market,
        code,
        price: price as i128,
        last_close: price as i128 + a[1] as i128,
        open: price as i128 + a[2] as i128,
        high: price as i128 + a[3] as i128,
        low: price as i128 + a[4] as i128,
        servertime: a[5],
        vol: a[7],
        cur_vol: a[8],
        amount_raw,
        s_vol: b[0],
        b_vol: b[1],
        levels,
    };
    Ok(Some((q, p5)))
}

/// Decodes the response to a quotes request.
pub fn parse_security_quotes(data: &[u8]) -> (r: Result<Vec<Quote>, ProtocolError>)
    requires
        data@.len() < usize::MAX,
    ensures
        match r {
            Ok(quotes) => security_quotes_of(data@) == Ok::<Seq<QuoteView>, ProtocolError>(
                quote_views(quotes@),
            ),
            Err(e) => security_quotes_of(data@) == Err::<Seq<QuoteView>, ProtocolError>(e),
        },
        r matches Ok(quotes) ==> quotes@.len() <= (if data@.len() < 4 {
            0
        } else {
            le_u16_at(data@, 2)
        }),
{
    let mut quotes: Vec<Quote> = Vec::new();
    if data.len() < 4 {
        assert(quote_views(quotes@) =~= Seq::<QuoteView>::empty());
        return Ok(quotes);
    }
    let count = read_u16_le(data, 2);
    let mut pos: usize = 4;
    let mut i: u16 = 0;
    let mut done = false;
    assert(quote_views(quotes@) + Seq::<QuoteView>::empty() =~= Seq::<QuoteView>::empty());
    while i < count && !done
        invariant
            data@.len() < usize::MAX,
            i <= count,
            count == le_u16_at(data@, 2),
            pos <= data@.len() + 1,
            quotes@.len() == i,
            security_quotes_of(data@) == prepend_records(
                quote_views(quotes@),
                if done {
                    Ok(Seq::<QuoteView>::empty())
                } else {
                    quotes_from(data@, pos as int, (count - i) as nat)
                },
            ),
        decreases 2 * (count - i) + if done { 0int } else { 1int },
    {
        match decode_quote(data, pos) {
            Err(e) => {
                return Err(e);
            },
            Ok(None) => {
                done = true;
            },
            Ok(Some((q, next))) => {
                let ghost old_views = quote_views(quotes@);
                proof {
                    lemma_prepend_assoc(
                        old_views,
                        seq![q@],
                        quotes_from(data@, next as int, (count - i - 1) as nat),
                    );
                }
                quotes.push(q);
                assert(quote_views(quotes@) =~= old_views + seq![q@]);
                pos = next;
                i = i + 1;
            },
        }
    }
    assert(quote_views(quotes@) + Seq::<QuoteView>::empty() =~= quote_views(quotes@));
    Ok(quotes)
}

/// Layout of a bar: its timestamp is the one at `pos`; the four price
/// differences that follow give the open relative to `base` and the close,
/// high and low relative to the open; the volume and turnover words follow
/// them, and the next bar starts after those.  An error means the timestamp
/// is there and a price does not decode; no bar means the timestamp or the
/// two words are cut off.
pub proof fn lemma_bar_layout(category: u16, data: Seq<u8>, pos: int, base: int)
    requires
        0 <= pos,
        -0x1_0000_0000_0000_0000_0000_0000 <= base <= 0x1_0000_0000_0000_0000_0000_0000,
    ensures
        bar_at(category, data, pos, base) matches Ok(Some((bar, next))) ==> {
            let (y, mo, d, h, mi, p) = datetime_at(category, data, pos).unwrap();
            let (ps, q) = prices_at(data, pos + 4, 4).unwrap();
            &&& datetime_at(category, data, pos) is Some
            &&& prices_at(data, pos + 4, 4) is Some
            &&& p == pos + 4
            &&& bar.year == y && bar.month == mo && bar.day == d
            &&& bar.hour == h && bar.minute == mi
            &&& bar.open == base + ps[0]
            &&& bar.close == bar.open + ps[1]
            &&& bar.high == bar.open + ps[2]
            &&& bar.low == bar.open + ps[3]
            &&& q + 8 <= data.len()
            &&& bar.vol_raw == le_u32_at(data, q)
            &&& bar.amount_raw == le_u32_at(data, q + 4)
            &&& next == q + 8
        },
        bar_at(category, data, pos, base) is Err ==> pos + 4 <= data.len() && prices_at(
            data,
            pos + 4,
            4,
        ) is None,
        bar_at(category, data, pos, base) == Ok::<Option<(Bar, int)>, ProtocolError>(None) ==> (
        pos + 4 > data.len() || prices_at(data, pos + 4, 4).unwrap().1 + 8 > data.len()),
{
    reveal(bar_at);
    if let Some((ps, q)) = prices_at(data, pos + 4, 4) {
        lemma_prices_len(data, pos + 4, 4);
    }
}

/// Layout of a trade: its time of day is the one at `pos`; of the five numbers
/// that follow, the first is its price relative to `last`, then come volume,
/// number of deals and the buy/sell flag; the next trade starts after the
/// fifth.
pub proof fn lemma_tick_layout(data: Seq<u8>, pos: int, last: int)
    requires
        0 <= pos,
        -0x1_0000_0000_0000_0000_0000_0000 <= last <= 0x1_0000_0000_0000_0000_0000_0000,
    ensures
        tick_at(data, pos, last) matches Ok(Some((t, next))) ==> {
            let (h, mi, p) = time_at(data, pos).unwrap();
            let (ps, q) = prices_at(data, pos + 2, 5).unwrap();
            &&& time_at(data, pos) is Some
            &&& prices_at(data, pos + 2, 5) is Some
            &&& p == pos + 2
            &&& t.hour == h && t.minute == mi
            &&& t.price == last + ps[0]
            &&& t.vol == ps[1]
            &&& t.num == ps[2]
            &&& t.buyorsell == ps[3]
            &&& next == q
        },
        tick_at(data, pos, last) is Err ==> pos + 2 <= data.len() && prices_at(data, pos + 2, 5)
            is None,
        tick_at(data, pos, last) == Ok::<Option<(Tick, int)>, ProtocolError>(None) ==> pos + 2
            > data.len(),
{
    reveal(tick_at);
    if prices_at(data, pos + 2, 5) is Some {
        lemma_prices_len(data, pos + 2, 5);
    }
}

/// Layout of a quote record: the market is byte `pos` and the code comes from
/// the six bytes after it; of the nine numbers from `pos + 9`, the first is the
/// price and the next four are last close, open, high and low relative to it,
/// then the server time, one unused number, volume and current volume; the
/// turnover word follows; of the next 24 numbers the first two are the sell
/// and buy volumes and, from the fifth, each level takes four: bid and ask
/// relative to the price, bid and ask volume.
pub proof fn lemma_quote_layout(data: Seq<u8>, pos: int)
    requires
        0 <= pos,
    ensures
        quote_at(data, pos) matches Ok(Some((q, next))) ==> {
            let (a, p1) = prices_at(data, pos + 9, 9).unwrap();
            let (b, p2) = prices_at(data, p1 + 4, 24).unwrap();
            &&& pos + 9 <= data.len()
            &&& prices_at(data, pos + 9, 9) is Some
            &&& prices_at(data, p1 + 4, 24) is Some
            &&& q.market == data[pos]
            &&& q.code == quote_code(data.subrange(pos + 1, pos + 7))
            &&& q.price == a[0]
            &&& q.last_close == a[0] + a[1]
            &&& q.open == a[0] + a[2]
            &&& q.high == a[0] + a[3]
            &&& q.low == a[0] + a[4]
            &&& q.servertime == a[5]
            &&& q.vol == a[7]
            &&& q.cur_vol == a[8]
            &&& p1 + 4 <= data.len()
            &&& q.amount_raw == le_u32_at(data, p1)
            &&& q.s_vol == b[0]
            &&& q.b_vol == b[1]
            &&& q.levels.len() == 5
            &&& forall|l: int|
                0 <= l < 5 ==> {
                    &&& (#[trigger] q.levels[l]).bid == a[0] + b[4 + 4 * l]
                    &&& q.levels[l].ask == a[0] + b[5 + 4 * l]
                    &&& q.levels[l].bid_vol == b[6 + 4 * l]
                    &&& q.levels[l].ask_vol == b[7 + 4 * l]
                }
            &&& p2 < data.len()
            &&& pos < next
        },
{
    reveal(quote_at);
    if pos + 9 <= data.len() {
        if let Some((a, p1)) = prices_at(data, pos + 9, 9) {
            lemma_prices_len(data, pos + 9, 9);
            lemma_prices_reach(data, pos + 9, 9);
            if p1 + 4 <= data.len() {
                if let Some((b, p2)) = prices_at(data, p1 + 4, 24) {
                    lemma_prices_len(data, p1 + 4, 24);
                    lemma_prices_reach(data, p1 + 4, 24);
                    let p3 = if p2 + 2 <= data.len() {
                        p2 + 2
                    } else {
                        p2
                    };
                    if prices_at(data, p3, 4) is Some {
                        lemma_prices_reach(data, p3, 4);
                    }
                    let levels = quote_levels(a[0] as int, b);
                    assert forall|l: int| 0 <= l < 5 implies {
                        &&& (#[trigger] levels[l]).bid == a[0] + b[4 + 4 * l]
                        &&& levels[l].ask == a[0] + b[5 + 4 * l]
                    } by {}
                }
            }
        }
    }
}

proof fn lemma_prices_reach(data: Seq<u8>, pos: int, k: nat)
    requires
        0 <= pos,
        prices_at(data, pos, k) is Some,
    ensures
        prices_at(data, pos, k).unwrap().1 >= pos,
    decreases k,
{
    if k > 0 {
        let q = price_at(data, pos).1;
        if pos < data.len() {
            lemma_scan_stop_bounds(data, pos + 1);
        }
        lemma_prices_reach(data, q, (k - 1) as nat);
    }
}

/// The code of a quote record: the UTF-8 decoding of its bytes without
/// trailing NULs, and empty when the bytes are not valid UTF-8.
pub proof fn lemma_quote_code(bytes: Seq<u8>)
    ensures
        valid_utf8(bytes) ==> quote_code(bytes) == without_trailing_nul(decode_utf8(bytes)),
        !valid_utf8(bytes) ==> quote_code(bytes).len() == 0,
{
}

/// Decoding up to `n` bars: at most `n` come out; the first is the bar at
/// `pos` relative to `base`, and the others are decoded from where it ends,
/// relative to its close.
pub proof fn lemma_bars_chain(category: u16, data: Seq<u8>, pos: int, base: int, n: nat)
    ensures
        bars_from(category, data, pos, base, n) matches Ok(s) ==> {
            &&& s.len() <= n
            &&& s.len() > 0 ==> (bar_at(category, data, pos, base) matches Ok(Some((b, next)))
                && b == s[0] && bars_from(category, data, next, b.close as int, (n - 1) as nat)
                == Ok::<Seq<Bar>, ProtocolError>(s.drop_first()))
        },
    decreases n,
{
    if n > 0 {
        if let Ok(Some((b, next))) = bar_at(category, data, pos, base) {
            lemma_bars_chain(category, data, next, b.close as int, (n - 1) as nat);
            if let Ok(rest) = bars_from(category, data, next, b.close as int, (n - 1) as nat) {
                assert((seq![b] + rest).drop_first() =~= rest);
            }
        }
    }
}

/// Decoding up to `n` trades: at most `n` come out; the first is the trade at
/// `pos` relative to `last`, and the others are decoded from where it ends,
/// relative to its price.
pub proof fn lemma_ticks_chain(data: Seq<u8>, pos: int, last: int, n: nat)
    ensures
        ticks_from(data, pos, last, n) matches Ok(s) ==> {
            &&& s.len() <= n
            &&& s.len() > 0 ==> (tick_at(data, pos, last) matches Ok(Some((t, next))) && t
                == s[0] && ticks_from(data, next, t.price as int, (n - 1) as nat) == Ok::<
                Seq<Tick>,
                ProtocolError,
            >(s.drop_first()))
        },
    decreases n,
{
    if n > 0 {
        if let Ok(Some((t, next))) = tick_at(data, pos, last) {
            lemma_ticks_chain(data, next, t.price as int, (n - 1) as nat);
            if let Ok(rest) = ticks_from(data, next, t.price as int, (n - 1) as nat) {
                assert((seq![t] + rest).drop_first() =~= rest);
            }
        }
    }
}

/// Decoding up to `n` quotes: at most `n` come out; the first is the record
/// at `pos`, and the others are decoded from where it ends.
pub proof fn lemma_quotes_chain(data: Seq<u8>, pos: int, n: nat)
    ensures
        quotes_from(data, pos, n) matches Ok(s) ==> {
            &&& s.len() <= n
            &&& s.len() > 0 ==> (quote_at(data, pos) matches Ok(Some((q, next))) && q == s[0]
                && quotes_from(data, next, (n - 1) as nat) == Ok::<Seq<QuoteView>, ProtocolError>(
                s.drop_first(),
            ))
        },
    decreases n,
{
    if n > 0 {
        if let Ok(Some((q, next))) = quote_at(data, pos) {
            lemma_quotes_chain(data, next, (n - 1) as nat);
            if let Ok(rest) = quotes_from(data, next, (n - 1) as nat) {
                assert((seq![q] + rest).drop_first() =~= rest);
            }
        }
    }
}

/// The three responses start with their record count: bars and trades with a
/// `u16` at 0 and records from 2, quotes with a `u16` at 2 and records from 4;
/// shorter responses hold no records.
pub proof fn lemma_response_headers(category: u16, data: Seq<u8>)
    ensures
        data.len() < 2 ==> security_bars_of(category, data) == Ok::<Seq<Bar>, ProtocolError>(
            Seq::empty(),
        ) && transactions_of(data) == Ok::<Seq<Tick>, ProtocolError>(Seq::empty()),
        data.len() >= 2 ==> security_bars_of(category, data) == bars_from(
            category,
            data,
            2,
            0,
            (data[0] + 256 * data[1]) as nat,
        ) && transactions_of(data) == ticks_from(data, 2, 0, (data[0] + 256 * data[1]) as nat),
        data.len() < 4 ==> security_quotes_of(data) == Ok::<Seq<QuoteView>, ProtocolError>(
            Seq::empty(),
        ),
        data.len() >= 4 ==> security_quotes_of(data) == quotes_from(
            data,
            4,
            (data[2] + 256 * data[3]) as nat,
        ),
{
}

} // verus!
