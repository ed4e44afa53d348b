//! What the HTTP API answers: fixed-point values as decimal text, the orderbook
//! summary of a merged book, chart candles and wallet addresses.
use vstd::prelude::*;
use vstd::arithmetic::power::{lemma_pow_positive, pow};
use crate::pepdex::orderbook::{AggregatedLevel, AggregatedOrderBook};
use crate::pepdex::venue::aster::{fixed_value, FIXED_SCALE};
use crate::text::{
    all_digits, digits_value, is_digit, join_spec, lemma_decimal_digits, lemma_decimal_len, lemma_leading_zeros,
    lemma_split_join, split_spec,
    decimal, push_char, push_str, to_upper, trim, trim_spec, u64_text, u64_text_padded, unicode_upper, zero_pad,
};

verus! {

/// How many levels of each side the orderbook answer lists.
pub const ORDERBOOK_DEPTH: usize = 50;

/// Fewest and most candles a chart request may ask for.
pub const KLINE_LIMIT_MIN: usize = 1;
pub const KLINE_LIMIT_MAX: usize = 1500;

/// One level of the orderbook answer, as decimal text.
#[derive(Debug)]
pub struct OrderBookLevelResponse {
    pub price: String,
    pub quantity: String,
}

/// The orderbook answer: a summary of the best prices and the top levels.
#[derive(Debug)]
pub struct OrderBookResponse {
    pub market: String,
    pub venue_count: usize,
    pub timestamp_ms: u64,
    pub last_price: Option<String>,
    pub best_bid: Option<String>,
    pub best_ask: Option<String>,
    pub spread: Option<String>,
    pub mid_price: Option<String>,
    pub bids: Vec<OrderBookLevelResponse>,
    pub asks: Vec<OrderBookLevelResponse>,
}

/// The divisor of a scale: `10^scale`, or 1 when that does not fit in a `u64`.
pub open spec fn scale_divisor(scale: u32) -> int {
    if pow(10, scale as nat) <= u64::MAX { pow(10, scale as nat) } else { 1 }
}

/// Decimal text of a fixed-point value with `scale` decimal places: the integer
/// part, a point and the fraction padded with zeros to `scale` digits.
pub open spec fn fixed_text(value: u64, scale: u32) -> Seq<char> {
    if scale == 0 {
        decimal(value as nat)
    } else {
        let d = scale_divisor(scale);
        decimal((value as int / d) as nat) + seq!['.'] + zero_pad(decimal((value as int % d) as nat), scale as nat)
    }
}

pub open spec fn text_of(s: Option<String>) -> Option<Seq<char>> {
    match s {
        Some(t) => Some(t@),
        None => None,
    }
}

pub open spec fn saturating_diff(a: u64, b: u64) -> u64 {
    if a >= b { (a - b) as u64 } else { 0 }
}

/// The price halfway between the best bid and the best ask.
pub open spec fn mid_of(bid: u64, ask: u64) -> u64 {
    let m = bid + saturating_diff(ask, bid) / 2;
    if m > u64::MAX { u64::MAX } else { m as u64 }
}

/// The response lists `levels` at fixed-point scale eight, up to the depth.
pub open spec fn lists_levels(out: Seq<OrderBookLevelResponse>, levels: Seq<AggregatedLevel>) -> bool {
    &&& out.len() == if levels.len() < ORDERBOOK_DEPTH { levels.len() } else { ORDERBOOK_DEPTH as nat }
    &&& forall|i: int| 0 <= i < out.len() ==> {
        &&& (#[trigger] out[i]).price@ == fixed_text(levels[i].price, 8)
        &&& out[i].quantity@ == fixed_text(levels[i].quantity, 8)
    }
}

proof fn lemma_pow10_not_max(n: nat)
    requires
        n >= 1,
    ensures
        pow(10, n) != u64::MAX,
        pow(10, n) >= 1,
{
    lemma_pow_positive(10, n);
    reveal(pow);
    let p = pow(10, (n - 1) as nat);
    assert(pow(10, n) == 10 * p);
    assert((10 * p) % 10 == 0) by (nonlinear_arith);
}

/// Fixed-point value as decimal text.
pub fn format_fixed(value: u64, scale: u32) -> (r: String)
    ensures
        r@ == fixed_text(value, scale),
{
    if scale == 0 {
        return u64_text(value);
    }
    let p = 10u64.saturating_pow(scale);
    proof {
        lemma_pow10_not_max(scale as nat);
    }
    let divisor: u64 = if p == u64::MAX { 1 } else { p };
    assert(divisor as int == scale_divisor(scale));
    let integer = value / divisor;
    let fractional = value % divisor;
    let mut out = u64_text(integer);
    push_char(&mut out, '.');
    let frac = u64_text_padded(fractional, scale as usize);
    push_str(&mut out, frac.as_str());
    out
}

fn level_lines(levels: &Vec<AggregatedLevel>) -> (r: Vec<OrderBookLevelResponse>)
    ensures
        lists_levels(r@, levels@),
{
    let mut out: Vec<OrderBookLevelResponse> = Vec::new();
    let mut i: usize = 0;
    while i < levels.len() && i < ORDERBOOK_DEPTH
        invariant
            i <= levels@.len(),
            i <= ORDERBOOK_DEPTH,
            out@.len() == i,
            forall|k: int| 0 <= k < i ==> {
                &&& (#[trigger] out@[k]).price@ == fixed_text(levels@[k].price, 8)
                &&& out@[k].quantity@ == fixed_text(levels@[k].quantity, 8)
            },
        decreases levels@.len() - i,
    {
        let price = format_fixed(levels[i].price, FIXED_SCALE);
        let quantity = format_fixed(levels[i].quantity, FIXED_SCALE);
        out.push(OrderBookLevelResponse { price, quantity });
        i += 1;
    }
    out
}

/// The orderbook answer for a merged book: the market as `BASE/QUOTE` in upper
/// case, best bid and ask, spread and mid price when both sides have a level,
/// and the top levels of each side, all at fixed-point scale eight.
pub fn orderbook_response(
    base: &str,
    quote: &str,
    venue_count: usize,
    book: &AggregatedOrderBook,
    last_price: Option<u64>,
) -> (r: OrderBookResponse)
    ensures
        r.market@ == unicode_upper(base@) + seq!['/'] + unicode_upper(quote@),
        r.venue_count == venue_count,
        r.timestamp_ms == book.timestamp_ms,
        text_of(r.last_price) == match last_price {
            Some(p) => Some(fixed_text(p, 8)),
            None => None::<Seq<char>>,
        },
        text_of(r.best_bid) == if book.bids@.len() > 0 { Some(fixed_text(book.bids@[0].price, 8)) } else { None },
        text_of(r.best_ask) == if book.asks@.len() > 0 { Some(fixed_text(book.asks@[0].price, 8)) } else { None },
        text_of(r.spread) == if book.bids@.len() > 0 && book.asks@.len() > 0 {
            Some(fixed_text(saturating_diff(book.asks@[0].price, book.bids@[0].price), 8))
        } else {
            None
        },
        text_of(r.mid_price) == if book.bids@.len() > 0 && book.asks@.len() > 0 {
            Some(fixed_text(mid_of(book.bids@[0].price, book.asks@[0].price), 8))
        } else {
            None
        },
        lists_levels(r.bids@, book.bids@),
        lists_levels(r.asks@, book.asks@),
{
    let last = match last_price {
        Some(p) => Some(format_fixed(p, FIXED_SCALE)),
        None => None,
    };
    let best_bid = match book.best_bid() {
        Some(level) => Some(format_fixed(level.price, FIXED_SCALE)),
        None => None,
    };
    let best_ask = match book.best_ask() {
        Some(level) => Some(format_fixed(level.price, FIXED_SCALE)),
        None => None,
    };
    let (spread, mid_price) = match (book.best_ask(), book.best_bid()) {
        (Some(ask), Some(bid)) => {
            let gap = ask.price.saturating_sub(bid.price);
            let mid = bid.price.saturating_add(gap / 2);
            (Some(format_fixed(gap, FIXED_SCALE)), Some(format_fixed(mid, FIXED_SCALE)))
        },
        _ => (None, None),
    };
    let mut market = to_upper(base);
    push_char(&mut market, '/');
    let q = to_upper(quote);
    push_str(&mut market, q.as_str());
    OrderBookResponse {
        market,
        venue_count,
        timestamp_ms: book.timestamp_ms,
        last_price: last,
        best_bid,
        best_ask,
        spread,
        mid_price,
        bids: level_lines(&book.bids),
        asks: level_lines(&book.asks),
    }
}

/// The number of candles a chart request gets: its limit kept within bounds.
pub fn kline_limit(requested: usize) -> (r: usize)
    ensures
        r == if requested < KLINE_LIMIT_MIN {
            KLINE_LIMIT_MIN
        } else if requested > KLINE_LIMIT_MAX {
            KLINE_LIMIT_MAX
        } else {
            requested
        },
{
    if requested < KLINE_LIMIT_MIN {
        KLINE_LIMIT_MIN
    } else if requested > KLINE_LIMIT_MAX {
        KLINE_LIMIT_MAX
    } else {
        requested
    }
}

/// One cell of a candle row as the venue sends it.
#[derive(Debug)]
pub enum KlineCell {
    /// A non-negative integer.
    Number(u64),
    Text(String),
    Other,
}

/// A chart candle: open time in seconds, then the venue's decimal texts.
#[derive(Debug)]
pub struct KlinePoint {
    pub time: u64,
    pub open: String,
    pub high: String,
    pub low: String,
    pub close: String,
    pub volume: String,
}

pub open spec fn cell_text(c: KlineCell) -> Option<Seq<char>> {
    match c {
        KlineCell::Text(s) => Some(s@),
        _ => None,
    }
}

pub open spec fn point_view(p: KlinePoint) -> (u64, Seq<char>, Seq<char>, Seq<char>, Seq<char>, Seq<char>) {
    (p.time, p.open@, p.high@, p.low@, p.close@, p.volume@)
}

/// The candle a row of at least six cells gives, or the first problem with it.
pub open spec fn row_point(row: Seq<KlineCell>) -> Result<(u64, Seq<char>, Seq<char>, Seq<char>, Seq<char>, Seq<char>), Seq<char>> {
    if !(row[0] is Number) {
        Err("invalid kline timestamp"@)
    } else if cell_text(row[1]) is None {
        Err("invalid kline open"@)
    } else if cell_text(row[2]) is None {
        Err("invalid kline high"@)
    } else if cell_text(row[3]) is None {
        Err("invalid kline low"@)
    } else if cell_text(row[4]) is None {
        Err("invalid kline close"@)
    } else if cell_text(row[5]) is None {
        Err("invalid kline volume"@)
    } else {
        Ok((
            (row[0]->Number_0 / 1000) as u64,
            cell_text(row[1])->0,
            cell_text(row[2])->0,
            cell_text(row[3])->0,
            cell_text(row[4])->0,
            cell_text(row[5])->0,
        ))
    }
}

/// Candles of the rows in order, rows shorter than six cells skipped; the first
/// bad row's problem otherwise.
pub open spec fn kline_result(rows: Seq<Seq<KlineCell>>) -> Result<Seq<(u64, Seq<char>, Seq<char>, Seq<char>, Seq<char>, Seq<char>)>, Seq<char>>
    decreases rows.len(),
{
    if rows.len() == 0 {
        Ok(Seq::empty())
    } else {
        match kline_result(rows.drop_last()) {
            Err(m) => Err(m),
            Ok(prev) => if rows.last().len() < 6 {
                Ok(prev)
            } else {
                match row_point(rows.last()) {
                    Err(m) => Err(m),
                    Ok(p) => Ok(prev.push(p)),
                }
            },
        }
    }
}

pub open spec fn row_views(rows: Seq<Vec<KlineCell>>) -> Seq<Seq<KlineCell>> {
    rows.map_values(|r: Vec<KlineCell>| r@)
}

fn cell_string(c: &KlineCell) -> (r: Option<String>)
    ensures
        text_of(r) == cell_text(*c),
{
    match c {
        KlineCell::Text(s) => Some(s.clone()),
        _ => None,
    }
}

fn point_of(row: &Vec<KlineCell>) -> (r: Result<KlinePoint, String>)
    requires
        row@.len() >= 6,
    ensures
        match (r, row_point(row@)) {
            (Ok(p), Ok(q)) => point_view(p) == q,
            (Err(m), Err(n)) => m@ == n,
            _ => false,
        },
{
    let time = match &row[0] {
        KlineCell::Number(t) => *t / 1000,
        _ => { return Err("invalid kline timestamp".to_string()); },
    };
    let open = match cell_string(&row[1]) {
        Some(s) => s,
        None => { return Err("invalid kline open".to_string()); },
    };
    let high = match cell_string(&row[2]) {
        Some(s) => s,
        None => { return Err("invalid kline high".to_string()); },
    };
    let low = match cell_string(&row[3]) {
        Some(s) => s,
        None => { return Err("invalid kline low".to_string()); },
    };
    let close = match cell_string(&row[4]) {
        Some(s) => s,
        None => { return Err("invalid kline close".to_string()); },
    };
    let volume = match cell_string(&row[5]) {
        Some(s) => s,
        None => { return Err("invalid kline volume".to_string()); },
    };
    Ok(KlinePoint { time, open, high, low, close, volume })
}

/// The chart candles of the rows a venue sent.
pub fn kline_points(rows: &Vec<Vec<KlineCell>>) -> (r: Result<Vec<KlinePoint>, String>)
    ensures
        match (r, kline_result(row_views(rows@))) {
            (Ok(v), Ok(s)) => v@.map_values(|p: KlinePoint| point_view(p)) == s,
            (Err(m), Err(n)) => m@ == n,
            _ => false,
        },
{
    let ghost rv = row_views(rows@);
    let mut out: Vec<KlinePoint> = Vec::new();
    let mut i: usize = 0;
    assert(rv.take(0) =~= Seq::<Seq<KlineCell>>::empty());
    assert(out@.map_values(|p: KlinePoint| point_view(p)) =~= Seq::empty());
    while i < rows.len()
        invariant
            i <= rows@.len(),
            rv == row_views(rows@),
            kline_result(rv.take(i as int)) == Ok::<Seq<(u64, Seq<char>, Seq<char>, Seq<char>, Seq<char>, Seq<char>)>, Seq<char>>(
                out@.map_values(|p: KlinePoint| point_view(p))),
        decreases rows@.len() - i,
    {
        assert(rv.take(i + 1).drop_last() =~= rv.take(i as int));
        assert(rv.take(i + 1).last() == rows@[i as int]@);
        if rows[i].len() >= 6 {
            match point_of(&rows[i]) {
                Ok(p) => {
                    let ghost before = out@;
                    out.push(p);
                    assert(out@.map_values(|p: KlinePoint| point_view(p))
                        =~= before.map_values(|p: KlinePoint| point_view(p)).push(point_view(p)));
                },
                Err(m) => {
                    proof {
                        lemma_kline_err_sticks(rv, i as int + 1);
                    }
                    assert(rv.take(rv.len() as int) =~= rv);
                    return Err(m);
                },
            }
        }
        i += 1;
    }
    assert(rv.take(rows@.len() as int) =~= rv);
    Ok(out)
}

proof fn lemma_kline_err_sticks(rows: Seq<Seq<KlineCell>>, n: int)
    requires
        0 <= n <= rows.len(),
        kline_result(rows.take(n)) is Err,
    ensures
        kline_result(rows) == kline_result(rows.take(n)),
    decreases rows.len() - n,
{
    if n < rows.len() {
        assert(rows.take(n + 1).drop_last() =~= rows.take(n));
        lemma_kline_err_sticks(rows, n + 1);
    } else {
        assert(rows.take(n) =~= rows);
    }
}

/// The address a wallet connects with: the request's text trimmed; `None` when
/// nothing is left.
pub fn wallet_address(raw: &str) -> (r: Option<String>)
    ensures
        r is None <==> trim_spec(raw@).len() == 0,
        r matches Some(a) ==> a@ == trim_spec(raw@),
{
    let t = trim(raw);
    if t.unicode_len() == 0 {
        return None;
    }
    Some(t.to_string())
}

/// Writing a fixed-point value with eight decimal places and reading the text
/// back as a venue decimal gives the value again.
pub proof fn lemma_fixed_round_trip(v: u64)
    ensures
        fixed_value(fixed_text(v, 8)) == Some(v as nat),
{
    reveal(pow);
    reveal_with_fuel(pow, 9);
    assert(pow(10, 8) == 100000000);
    assert(pow(10, 0) == 1);
    let d: int = 100000000;
    assert(scale_divisor(8) == d);
    let a = (v as int / d) as nat;
    let m = (v as int % d) as nat;
    lemma_decimal_digits(a);
    lemma_decimal_digits(m);
    lemma_decimal_len(m, 8);
    let x = decimal(a);
    let dm = decimal(m);
    let zs = Seq::new((8 - dm.len()) as nat, |i: int| '0');
    let y = zero_pad(dm, 8);
    if dm.len() < 8 {
        assert(y == zs + dm);
        lemma_leading_zeros((8 - dm.len()) as nat, dm);
    } else {
        assert(y == dm);
    }
    assert(y.len() == 8);
    assert(digits_value(y) == m);
    assert(all_digits(y)) by {
        assert forall|i: int| 0 <= i < y.len() implies is_digit(#[trigger] y[i]) by {
            if dm.len() < 8 && i < 8 - dm.len() {
                assert(y[i] == '0');
            } else if dm.len() < 8 {
                assert(y[i] == dm[i - (8 - dm.len())]);
            }
        }
    }
    let t = fixed_text(v, 8);
    assert(t == x + seq!['.'] + y);
    let pieces = seq![x, y];
    assert forall|i: int, j: int| 0 <= i < pieces.len() && 0 <= j < pieces[i].len() implies pieces[i][j] != '.' by {
        if i == 0 {
            assert(is_digit(x[j]));
        } else {
            assert(is_digit(y[j]));
        }
    }
    lemma_split_join(pieces, '.');
    assert(pieces.drop_last() =~= seq![x]);
    assert(join_spec(pieces, '.') == join_spec(seq![x], '.').push('.') + y);
    assert(join_spec(seq![x], '.') == x);
    assert(t =~= join_spec(pieces, '.'));
    assert(split_spec(t, '.') == pieces);
    assert(is_digit(x[0]));
    assert(t[0] == x[0]);
    assert(digits_value(x) * pow(10, 8) + digits_value(y) * pow(10, 0) == a * d + m);
    assert(a * d + m == v) by (nonlinear_arith)
        requires a == v as int / d, m == v as int % d, d == 100000000;
}

} // verus!
