//! Aster adapter: the symbol it trades under, and the reading of its decimal
//! prices, depth levels and ticker into the engine's fixed-point values.
use vstd::prelude::*;
use vstd::arithmetic::power::pow;
use crate::pepdex::market::MarketId;
use crate::clock::now_ms;
use crate::pepdex::venue::{
    MarketDataVenue, OrderBookLevel, Venue, VenueError, VenueId, VenueOrder, VenueOrderBook, VenueOrderRequest,
};
use crate::pepdex::api::{kline_points, kline_result, point_view, row_views, KlineCell, KlinePoint};
use crate::text::{
    all_digits, chars_of, decimal, digit_value, digits_value, is_digit, push_str, u64_text,
    split, split_spec, to_upper, trim, trim_spec, unicode_upper,
};

verus! {

/// Decimal places of the fixed-point values Aster's decimals become.
pub const FIXED_SCALE: u32 = 8;

/// The fixed-point value of a non-negative decimal with at most eight decimal
/// places (`65052.45` is `6505245000000`), when it fits in a `u64`.
pub open spec fn fixed_value(s: Seq<char>) -> Option<nat> {
    let pieces = split_spec(s, '.');
    let int_part = pieces[0];
    let frac = if pieces.len() > 1 { pieces[1] } else { Seq::<char>::empty() };
    if s.len() == 0 || s[0] == '-' || pieces.len() > 2 || int_part.len() == 0 || !all_digits(int_part)
        || !all_digits(frac) || frac.len() > 8 {
        None
    } else {
        let v = digits_value(int_part) * pow(10, 8) + digits_value(frac) * pow(10, (8 - frac.len()) as nat);
        if v <= u64::MAX { Some(v as nat) } else { None }
    }
}

/// The levels Aster's depth pairs `[price, quantity]` give, after trimming each
/// decimal; levels of zero quantity are left out; `None` when a decimal is invalid.
pub open spec fn parsed_levels(levels: Seq<(Seq<char>, Seq<char>)>) -> Option<Seq<OrderBookLevel>>
    decreases levels.len(),
{
    if levels.len() == 0 {
        Some(Seq::empty())
    } else {
        match parsed_levels(levels.drop_last()) {
            None => None,
            Some(prev) => {
                let price = fixed_value(trim_spec(levels.last().0));
                let quantity = fixed_value(trim_spec(levels.last().1));
                if price is Some && quantity is Some {
                    if quantity->0 == 0 {
                        Some(prev)
                    } else {
                        Some(prev.push(OrderBookLevel { price: price->0 as u64, quantity: quantity->0 as u64 }))
                    }
                } else {
                    None
                }
            },
        }
    }
}

/// The pairs of a depth side as plain values.
pub open spec fn pair_views(levels: Seq<[String; 2]>) -> Seq<(Seq<char>, Seq<char>)> {
    levels.map_values(|l: [String; 2]| (l@[0]@, l@[1]@))
}

/// The symbol Aster lists a market under: base and quote in upper case.
pub open spec fn aster_symbol(market: (Seq<char>, Seq<char>)) -> Seq<char> {
    unicode_upper(market.0) + unicode_upper(market.1)
}

#[derive(Debug, Clone, Copy)]
pub struct Aster {
    pub enabled: bool,
}

proof fn lemma_digits_bound(s: Seq<char>)
    requires
        all_digits(s),
    ensures
        digits_value(s) < pow(10, s.len()),
    decreases s.len(),
{
    if s.len() > 0 {
        let t = s.drop_last();
        assert(all_digits(t)) by {
            assert forall|i: int| 0 <= i < t.len() implies is_digit(#[trigger] t[i]) by {
                assert(t[i] == s[i]);
            }
        }
        lemma_digits_bound(t);
        assert(is_digit(s[s.len() - 1]));
        let d = digit_value(s.last());
        let p = pow(10, t.len());
        lemma_pow10_step(t.len());
        assert(digits_value(s) == digits_value(t) * 10 + d);
        assert(digits_value(t) * 10 + d < 10 * p) by (nonlinear_arith)
            requires
                digits_value(t) < p,
                d < 10,
        ;
    } else {
        lemma_pow10_step(0);
    }
}

proof fn lemma_pow10_step(k: nat)
    ensures
        pow(10, 0) == 1,
        pow(10, k + 1) == 10 * pow(10, k),
{
    reveal(pow);
}

proof fn lemma_digits_prefix_mono(s: Seq<char>, k: int)
    requires
        0 <= k <= s.len(),
    ensures
        digits_value(s.take(k)) <= digits_value(s),
    decreases s.len() - k,
{
    if k < s.len() {
        lemma_digits_prefix_mono(s, k + 1);
        assert(s.take(k + 1).drop_last() =~= s.take(k));
    } else {
        assert(s.take(k) =~= s);
    }
}

/// Reads a run of digits; `None` when it is not all digits, or its value
/// does not fit in a `u64`.
fn digits_u64(cs: &Vec<char>) -> (r: (bool, Option<u64>))
    ensures
        r.0 == all_digits(cs@),
        r.0 ==> (r.1 matches Some(v) ==> v == digits_value(cs@)),
        r.0 ==> (r.1 is None <==> digits_value(cs@) > u64::MAX),
{
    let mut i: usize = 0;
    while i < cs.len()
        invariant
            i <= cs@.len(),
            forall|j: int| 0 <= j < i ==> is_digit(#[trigger] cs@[j]),
        decreases cs@.len() - i,
    {
        if !('0' <= cs[i] && cs[i] <= '9') {
            return (false, None);
        }
        i += 1;
    }
    let mut acc: u64 = 0;
    let mut k: usize = 0;
    while k < cs.len()
        invariant
            k <= cs@.len(),
            all_digits(cs@),
            acc == digits_value(cs@.take(k as int)),
        decreases cs@.len() - k,
    {
        let c = cs[k];
        assert(cs@.take(k + 1).drop_last() =~= cs@.take(k as int));
        assert(is_digit(cs@[k as int]));
        let d: u64 = ((c as u32) - ('0' as u32)) as u64;
        assert(d == digit_value(c));
        match acc.checked_mul(10) {
            None => {
                proof {
                    lemma_digits_prefix_mono(cs@, k + 1);
                }
                return (true, None);
            },
            Some(m) => match m.checked_add(d) {
                None => {
                    proof {
                        lemma_digits_prefix_mono(cs@, k + 1);
                    }
                    return (true, None);
                },
                Some(v) => {
                    acc = v;
                },
            },
        }
        k += 1;
    }
    assert(cs@.take(cs@.len() as int) =~= cs@);
    (true, Some(acc))
}

fn invalid_value(kind: &str, field: &str, value: &str) -> (r: VenueError)
    ensures
        r is Internal,
{
    let mut m = kind.to_string();
    push_str(&mut m, " Aster ");
    push_str(&mut m, field);
    push_str(&mut m, " '");
    push_str(&mut m, value);
    push_str(&mut m, "'");
    VenueError::Internal(m)
}

/// A reply of an HTTP GET: its status code and its body.
pub struct HttpReply {
    pub status: u16,
    /// The status as `reqwest` writes it (code and reason).
    pub status_text: String,
    pub body: String,
}

/// `reqwest::blocking::get` and `Response::text`: the reply to a GET of the
/// URL, or the transport error's text. Nothing is stated of the reply: it is
/// the remote service's.
#[verifier::external_body]
fn http_get(url: &str) -> (r: Result<HttpReply, String>) {
    let response = reqwest::blocking::get(url).map_err(|e| e.to_string())?;
    let status = response.status().as_u16();
    let status_text = response.status().to_string();
    let body = response.text().map_err(|e| e.to_string())?;
    Ok(HttpReply { status, status_text, body })
}

/// What `serde_json` reads from a depth answer: its `bids` and `asks`, each a
/// list of `[price, quantity]` texts.
pub uninterp spec fn depth_pairs(body: Seq<char>) -> Option<(Seq<(Seq<char>, Seq<char>)>, Seq<(Seq<char>, Seq<char>)>)>;

/// `serde_json::from_str` of a depth answer into its `bids` and `asks`
/// arrays (other fields ignored); the error text on a failed read.
#[verifier::external_body]
fn read_depth(body: &str) -> (r: Result<(Vec<[String; 2]>, Vec<[String; 2]>), String>)
    ensures
        match r {
            Ok((b, a)) => depth_pairs(body@) == Some((pair_views(b@), pair_views(a@))),
            Err(_) => depth_pairs(body@) is None,
        },
{
    let v: serde_json::Value = serde_json::from_str(body).map_err(|e| e.to_string())?;
    let bids = serde_json::from_value(v["bids"].clone()).map_err(|e| e.to_string())?;
    let asks = serde_json::from_value(v["asks"].clone()).map_err(|e| e.to_string())?;
    Ok((bids, asks))
}

/// What `serde_json` reads from a ticker answer: its `symbol` and `price`.
pub uninterp spec fn ticker_fields(body: Seq<char>) -> Option<(Seq<char>, Seq<char>)>;

/// `serde_json::from_str` of a ticker answer into its `symbol` and `price`
/// texts; the error text on a failed read.
#[verifier::external_body]
fn read_ticker(body: &str) -> (r: Result<(String, String), String>)
    ensures
        match r {
            Ok((s, p)) => ticker_fields(body@) == Some((s@, p@)),
            Err(_) => ticker_fields(body@) is None,
        },
{
    let v: serde_json::Value = serde_json::from_str(body).map_err(|e| e.to_string())?;
    let symbol = serde_json::from_value(v["symbol"].clone()).map_err(|e| e.to_string())?;
    let price = serde_json::from_value(v["price"].clone()).map_err(|e| e.to_string())?;
    Ok((symbol, price))
}

/// What `serde_json` reads from a candle answer: its rows, each cell a
/// non-negative integer, a text, or anything else.
pub uninterp spec fn kline_cells(body: Seq<char>) -> Option<Seq<Seq<KlineCell>>>;

/// `serde_json::from_str` of a candle answer as a list of rows of JSON
/// values, each value taken as a cell (a number that fits `u64`, a string, or
/// other); the error text on a failed read.
#[verifier::external_body]
fn read_klines(body: &str) -> (r: Result<Vec<Vec<KlineCell>>, String>)
    ensures
        match r {
            Ok(rows) => kline_cells(body@) == Some(row_views(rows@)),
            Err(_) => kline_cells(body@) is None,
        },
{
    let payload: Vec<Vec<serde_json::Value>> = serde_json::from_str(body).map_err(|e| e.to_string())?;
    Ok(payload.iter().map(|row| row.iter().map(|v| match (v.as_u64(), v.as_str()) {
        (Some(n), _) => KlineCell::Number(n),
        (None, Some(t)) => KlineCell::Text(t.to_string()),
        (None, None) => KlineCell::Other,
    }).collect()).collect())
}

/// An `Internal` error: a prefix and a detail.
fn internal(prefix: &str, detail: &str) -> (r: VenueError)
    ensures
        r matches VenueError::Internal(m) && m@ == prefix@ + detail@,
{
    let mut m = prefix.to_string();
    push_str(&mut m, detail);
    VenueError::Internal(m)
}

impl Aster {
    pub fn new() -> (r: Self)
        ensures
            r.enabled,
    {
        Aster { enabled: true }
    }

    pub fn disabled() -> (r: Self)
        ensures
            !r.enabled,
    {
        Aster { enabled: false }
    }

    /// `BASEQUOTE` in upper case, as Aster lists the market.
    pub fn symbol(market: &MarketId) -> (r: String)
        ensures
            r@ == aster_symbol(market@),
    {
        let mut s = to_upper(market.base.as_str());
        let q = to_upper(market.quote.as_str());
        push_str(&mut s, q.as_str());
        s
    }

    /// Refuses every request while the adapter is disabled.
    pub fn ensure_enabled(&self) -> (r: Result<(), VenueError>)
        ensures
            r is Ok <==> self.enabled,
            r matches Err(e) ==> (e matches VenueError::Internal(m) && m@ == "Aster adapter is disabled"@),
    {
        if !self.enabled {
            return Err(VenueError::Internal("Aster adapter is disabled".to_string()));
        }
        Ok(())
    }

    /// Reads a non-negative decimal with at most eight decimal places as a
    /// fixed-point value with eight decimal places.
    pub fn parse_decimal_to_fixed(value: &str, field: &str) -> (r: Result<u64, VenueError>)
        ensures
            r is Ok <==> fixed_value(value@) is Some,
            r matches Ok(v) ==> fixed_value(value@) == Some(v as nat),
            r matches Err(e) ==> e is Internal,
    {
        let cs = chars_of(value);
        if cs.len() == 0 {
            let mut m = "Empty Aster ".to_string();
            push_str(&mut m, field);
            return Err(VenueError::Internal(m));
        }
        if cs[0] == '-' {
            let mut m = "Negative Aster ".to_string();
            push_str(&mut m, field);
            push_str(&mut m, " is invalid: '");
            push_str(&mut m, value);
            push_str(&mut m, "'");
            return Err(VenueError::Internal(m));
        }
        let pieces = split(value, '.');
        let ghost sp = split_spec(value@, '.');
        proof {
            lemma_split_nonempty(value@, '.');
        }
        if pieces.len() > 2 {
            return Err(invalid_value("Invalid", field, value));
        }
        let int_chars = chars_of(pieces[0].as_str());
        let frac_chars: Vec<char> = if pieces.len() > 1 { chars_of(pieces[1].as_str()) } else { Vec::new() };
        assert(int_chars@ == sp[0]);
        assert(frac_chars@ == if sp.len() > 1 { sp[1] } else { Seq::<char>::empty() });
        if int_chars.len() == 0 {
            return Err(invalid_value("Invalid", field, value));
        }
        let (int_ok, integer) = digits_u64(&int_chars);
        if !int_ok {
            return Err(invalid_value("Invalid", field, value));
        }
        let (frac_ok, fraction) = digits_u64(&frac_chars);
        if !frac_ok {
            return Err(invalid_value("Invalid", field, value));
        }
        if frac_chars.len() > 8 {
            let mut m = "Aster ".to_string();
            push_str(&mut m, field);
            push_str(&mut m, " has more than 8 decimal places: '");
            push_str(&mut m, value);
            push_str(&mut m, "'");
            return Err(VenueError::Internal(m));
        }
        proof {
            lemma_digits_bound(frac_chars@);
            lemma_pow10_small(frac_chars@.len());
            lemma_pow10_small((8 - frac_chars@.len()) as nat);
            lemma_pow10_small(8);
        }
        let ghost iv = digits_value(int_chars@);
        let ghost fv = digits_value(frac_chars@);
        let ghost pad = pow(10, (8 - frac_chars@.len()) as nat);
        let integer = match integer {
            Some(i) => i,
            None => {
                proof {
                    assert(iv * pow(10, 8) + fv * pad > u64::MAX) by (nonlinear_arith)
                        requires
                            iv > u64::MAX,
                            pow(10, 8) == 100000000,
                            fv >= 0,
                            pad >= 1,
                    ;
                }
                let mut m = "Invalid Aster ".to_string();
                push_str(&mut m, field);
                push_str(&mut m, " '");
                push_str(&mut m, value);
                push_str(&mut m, "': number too large to fit in target type");
                return Err(VenueError::Internal(m));
            },
        };
        let fraction = match fraction {
            Some(f) => f,
            None => { return Err(invalid_value("Invalid", field, value)); },
        };
        let integer_scaled = match integer.checked_mul(100_000_000) {
            Some(v) => v,
            None => {
                proof {
                    assert(iv * pow(10, 8) + fv * pad > u64::MAX) by (nonlinear_arith)
                        requires
                            iv * 100000000 > u64::MAX,
                            pow(10, 8) == 100000000,
                            fv >= 0,
                            pad >= 1,
                    ;
                }
                let mut m = "Aster ".to_string();
                push_str(&mut m, field);
                push_str(&mut m, " overflow: '");
                push_str(&mut m, value);
                push_str(&mut m, "'");
                return Err(VenueError::Internal(m));
            },
        };
        let missing: usize = 8 - frac_chars.len();
        let mut padding: u64 = 1;
        let mut k: usize = 0;
        proof {
            lemma_pow10_step(0);
        }
        while k < missing
            invariant
                k <= missing <= 8,
                padding == pow(10, k as nat),
                pow(10, k as nat) <= 100000000,
            decreases missing - k,
        {
            proof {
                lemma_pow10_small((k + 1) as nat);
                lemma_pow10_step(k as nat);
            }
            padding = padding * 10;
            k += 1;
        }
        assert(padding == pad);
        assert(fraction * padding <= 100000000 * 100000000) by (nonlinear_arith)
            requires
                fraction < 100000000,
                padding <= 100000000,
        ;
        let fraction_scaled = fraction * padding;
        match integer_scaled.checked_add(fraction_scaled) {
            Some(v) => Ok(v),
            None => {
                let mut m = "Aster ".to_string();
                push_str(&mut m, field);
                push_str(&mut m, " fixed-point overflow: '");
                push_str(&mut m, value);
                push_str(&mut m, "'");
                Err(VenueError::Internal(m))
            },
        }
    }

    /// Reads depth pairs `[price, quantity]`; the first invalid decimal is the error.
    pub fn parse_levels(levels: &Vec<[String; 2]>) -> (r: Result<Vec<OrderBookLevel>, VenueError>)
        ensures
            r is Ok <==> parsed_levels(pair_views(levels@)) is Some,
            r matches Ok(v) ==> parsed_levels(pair_views(levels@)) == Some(v@),
            r matches Err(e) ==> e is Internal,
    {
        let ghost pv = pair_views(levels@);
        let mut result: Vec<OrderBookLevel> = Vec::new();
        let mut i: usize = 0;
        while i < levels.len()
            invariant
                i <= levels@.len(),
                pv == pair_views(levels@),
                parsed_levels(pv.take(i as int)) == Some(result@),
            decreases levels@.len() - i,
        {
            assert(pv.take(i + 1).drop_last() =~= pv.take(i as int));
            assert(pv.take(i + 1).last() == (levels@[i as int]@[0]@, levels@[i as int]@[1]@));
            let level = &levels[i];
            let raw_price = trim(level[0].as_str());
            let raw_quantity = trim(level[1].as_str());
            let price = match Aster::parse_decimal_to_fixed(raw_price, "price") {
                Ok(p) => p,
                Err(e) => {
                    proof {
                        lemma_parsed_levels_none(pv, i as int);
                    }
                    return Err(e);
                },
            };
            let quantity = match Aster::parse_decimal_to_fixed(raw_quantity, "quantity") {
                Ok(q) => q,
                Err(e) => {
                    proof {
                        lemma_parsed_levels_none(pv, i as int);
                    }
                    return Err(e);
                },
            };
            if quantity != 0 {
                result.push(OrderBookLevel { price, quantity });
            }
            i += 1;
        }
        assert(pv.take(levels@.len() as int) =~= pv);
        Ok(result)
    }

    /// The orderbook a depth answer describes: both sides read, then refused when
    /// both are empty.
    pub fn orderbook_from_depth(
        market: &MarketId,
        bids: &Vec<[String; 2]>,
        asks: &Vec<[String; 2]>,
        timestamp_ms: u64,
    ) -> (r: Result<VenueOrderBook, VenueError>)
        ensures
            r is Ok <==> ({
                &&& parsed_levels(pair_views(bids@)) is Some
                &&& parsed_levels(pair_views(asks@)) is Some
                &&& (parsed_levels(pair_views(bids@))->0.len() > 0 || parsed_levels(pair_views(asks@))->0.len() > 0)
            }),
            r matches Ok(book) ==> {
                &&& book.venue == VenueId::Aster
                &&& book.market@ == market@
                &&& Some(book.bids@) == parsed_levels(pair_views(bids@))
                &&& Some(book.asks@) == parsed_levels(pair_views(asks@))
                &&& book.timestamp_ms == timestamp_ms
            },
            r matches Err(e) ==> e is Internal,
    {
        let bid_levels = Aster::parse_levels(bids)?;
        let ask_levels = Aster::parse_levels(asks)?;
        if bid_levels.len() == 0 && ask_levels.len() == 0 {
            let mut m = "Aster returned empty orderbook for ".to_string();
            let symbol = Aster::symbol(market);
            push_str(&mut m, symbol.as_str());
            return Err(VenueError::Internal(m));
        }
        Ok(VenueOrderBook {
            venue: VenueId::Aster,
            market: market.clone(),
            bids: bid_levels,
            asks: ask_levels,
            timestamp_ms,
        })
    }

    /// The last price a ticker answer gives: refused when its symbol is not the
    /// market's, else the trimmed price read as a fixed-point value.
    pub fn last_price_from_ticker(market: &MarketId, ticker_symbol: &str, price: &str) -> (r: Result<u64, VenueError>)
        ensures
            unicode_upper(ticker_symbol@) != aster_symbol(market@) ==> r matches Err(VenueError::Internal(_)),
            unicode_upper(ticker_symbol@) == aster_symbol(market@) ==> {
                &&& (r is Ok <==> fixed_value(trim_spec(price@)) is Some)
                &&& (r matches Ok(v) ==> fixed_value(trim_spec(price@)) == Some(v as nat))
                &&& (r matches Err(e) ==> e is Internal)
            },
    {
        let symbol = Aster::symbol(market);
        let reported = to_upper(ticker_symbol);
        if !reported.eq(&symbol) {
            let mut m = "Aster ticker symbol mismatch: expected ".to_string();
            push_str(&mut m, symbol.as_str());
            push_str(&mut m, ", got ");
            push_str(&mut m, ticker_symbol);
            return Err(VenueError::Internal(m));
        }
        Aster::parse_decimal_to_fixed(trim(price), "last price")
    }

    /// The address of Aster's depth service for a market (100 levels a side).
    pub fn depth_url(market: &MarketId) -> (r: String)
        ensures
            r@ == "https://fapi.asterdex.com/fapi/v1/depth?symbol="@ + aster_symbol(market@) + "&limit=100"@,
    {
        let symbol = Aster::symbol(market);
        let mut url = "https://fapi.asterdex.com/fapi/v1/depth?symbol=".to_string();
        push_str(&mut url, symbol.as_str());
        push_str(&mut url, "&limit=100");
        url
    }

    /// The address of Aster's ticker service for a market.
    pub fn ticker_url(market: &MarketId) -> (r: String)
        ensures
            r@ == "https://fapi.asterdex.com/fapi/v1/ticker/price?symbol="@ + aster_symbol(market@),
    {
        let symbol = Aster::symbol(market);
        let mut url = "https://fapi.asterdex.com/fapi/v1/ticker/price?symbol=".to_string();
        push_str(&mut url, symbol.as_str());
        url
    }

    /// The orderbook a reply of the depth service gives: refused unless the
    /// status is 2xx and the body reads as depth, then as `orderbook_from_depth`.
    pub fn orderbook_from_reply(market: &MarketId, reply: &HttpReply, timestamp_ms: u64) -> (r: Result<VenueOrderBook, VenueError>)
        ensures
            !(200 <= reply.status < 300) ==> (r matches Err(VenueError::Internal(m))
                && m@ == "Aster orderbook HTTP error: "@ + reply.status_text@),
            200 <= reply.status < 300 && depth_pairs(reply.body@) is None ==> r matches Err(VenueError::Internal(_)),
            200 <= reply.status < 300 ==> (depth_pairs(reply.body@) matches Some((b, a)) ==> {
                &&& (r is Ok <==> (parsed_levels(b) is Some && parsed_levels(a) is Some
                    && (parsed_levels(b)->0.len() > 0 || parsed_levels(a)->0.len() > 0)))
                &&& (r matches Ok(book) ==> book.venue == VenueId::Aster && book.market@ == market@
                    && Some(book.bids@) == parsed_levels(b) && Some(book.asks@) == parsed_levels(a)
                    && book.timestamp_ms == timestamp_ms)
            }),
            r matches Err(e) ==> e is Internal,
    {
        if reply.status < 200 || reply.status >= 300 {
            return Err(internal("Aster orderbook HTTP error: ", reply.status_text.as_str()));
        }
        let (bids, asks) = match read_depth(reply.body.as_str()) {
            Ok(pairs) => pairs,
            Err(e) => return Err(internal("Aster orderbook JSON parse failed: ", e.as_str())),
        };
        Aster::orderbook_from_depth(market, &bids, &asks, timestamp_ms)
    }

    /// The last price a reply of the ticker service gives: refused unless the
    /// status is 2xx and the body reads as a ticker, then as `last_price_from_ticker`.
    pub fn last_price_from_reply(market: &MarketId, reply: &HttpReply) -> (r: Result<u64, VenueError>)
        ensures
            !(200 <= reply.status < 300) ==> (r matches Err(VenueError::Internal(m))
                && m@ == "Aster ticker HTTP error: "@ + reply.status_text@),
            200 <= reply.status < 300 && ticker_fields(reply.body@) is None ==> r matches Err(VenueError::Internal(_)),
            200 <= reply.status < 300 ==> (ticker_fields(reply.body@) matches Some((sym, price)) ==> {
                &&& (unicode_upper(sym) != aster_symbol(market@) ==> r matches Err(VenueError::Internal(_)))
                &&& (unicode_upper(sym) == aster_symbol(market@) ==> {
                    &&& (r is Ok <==> fixed_value(trim_spec(price)) is Some)
                    &&& (r matches Ok(v) ==> fixed_value(trim_spec(price)) == Some(v as nat))
                })
            }),
            r matches Err(e) ==> e is Internal,
    {
        if reply.status < 200 || reply.status >= 300 {
            return Err(internal("Aster ticker HTTP error: ", reply.status_text.as_str()));
        }
        let (ticker_symbol, price) = match read_ticker(reply.body.as_str()) {
            Ok(fields) => fields,
            Err(e) => return Err(internal("Aster ticker JSON parse failed: ", e.as_str())),
        };
        Aster::last_price_from_ticker(market, ticker_symbol.as_str(), price.as_str())
    }

    /// The market's depth from Aster's REST service: the depth URL is requested
    /// and its reply read as `orderbook_from_reply` does. Whether the request
    /// goes through, and what comes back, is the service's.
    pub fn fetch_orderbook(&self, market: &MarketId) -> (r: Result<VenueOrderBook, VenueError>)
        ensures
            r matches Ok(book) ==> book.venue == VenueId::Aster && book.market@ == market@,
            r matches Ok(book) ==> exists|body: Seq<char>| #[trigger] depth_pairs(body) matches Some((b, a))
                && Some(book.bids@) == parsed_levels(b) && Some(book.asks@) == parsed_levels(a)
                && (book.bids@.len() > 0 || book.asks@.len() > 0),
            r matches Err(e) ==> e is Internal,
    {
        let url = Aster::depth_url(market);
        let reply = match http_get(url.as_str()) {
            Ok(reply) => reply,
            Err(e) => return Err(internal("Aster orderbook request failed: ", e.as_str())),
        };
        Aster::orderbook_from_reply(market, &reply, now_ms())
    }

    /// The market's last traded price from Aster's ticker, as a fixed-point
    /// value with eight decimal places: the ticker URL is requested and its
    /// reply read as `last_price_from_reply` does.
    pub fn last_price(&self, market: &MarketId) -> (r: Result<u64, VenueError>)
        ensures
            !self.enabled ==> (r matches Err(VenueError::Internal(m)) && m@ == "Aster adapter is disabled"@),
            r matches Ok(v) ==> self.enabled && exists|body: Seq<char>| #[trigger] ticker_fields(body) matches Some((sym, price))
                && unicode_upper(sym) == aster_symbol(market@) && fixed_value(trim_spec(price)) == Some(v as nat),
            r matches Err(e) ==> e is Internal,
    {
        self.ensure_enabled()?;
        let url = Aster::ticker_url(market);
        let reply = match http_get(url.as_str()) {
            Ok(reply) => reply,
            Err(e) => return Err(internal("Aster ticker request failed: ", e.as_str())),
        };
        Aster::last_price_from_reply(market, &reply)
    }

/// The address of Aster's candle service for a market, an interval and a count.
    pub fn klines_url(market: &MarketId, interval: &str, limit: u64) -> (r: String)
        ensures
            r@ == "https://fapi.asterdex.com/fapi/v1/klines?symbol="@ + aster_symbol(market@) + "&interval="@
                + interval@ + "&limit="@ + decimal(limit as nat),
    {
        let symbol = Aster::symbol(market);
        let mut url = "https://fapi.asterdex.com/fapi/v1/klines?symbol=".to_string();
        push_str(&mut url, symbol.as_str());
        push_str(&mut url, "&interval=");
        push_str(&mut url, interval);
        push_str(&mut url, "&limit=");
        let n = u64_text(limit);
        push_str(&mut url, n.as_str());
        url
    }

    /// The candles a reply of the candle service gives: refused unless the
    /// status is 2xx and the body reads as rows of cells, then as `kline_points`.
    pub fn klines_from_reply(reply: &HttpReply) -> (r: Result<Vec<KlinePoint>, String>)
        ensures
            !(200 <= reply.status < 300) ==> (r matches Err(m) && m@ == "Aster kline HTTP error: "@ + reply.status_text@),
            200 <= reply.status < 300 && kline_cells(reply.body@) is None
                ==> (r matches Err(m) && exists|e: Seq<char>| m@ == "Aster kline JSON parse failed: "@ + e),
            200 <= reply.status < 300 ==> (kline_cells(reply.body@) matches Some(rows) ==> match (r, kline_result(rows)) {
                (Ok(v), Ok(s)) => v@.map_values(|p: KlinePoint| point_view(p)) == s,
                (Err(m), Err(n)) => m@ == n,
                _ => false,
            }),
    {
        if reply.status < 200 || reply.status >= 300 {
            let mut m = "Aster kline HTTP error: ".to_string();
            push_str(&mut m, reply.status_text.as_str());
            return Err(m);
        }
        let rows = match read_klines(reply.body.as_str()) {
            Ok(rows) => rows,
            Err(e) => {
                let mut m = "Aster kline JSON parse failed: ".to_string();
                push_str(&mut m, e.as_str());
                return Err(m);
            },
        };
        kline_points(&rows)
    }

    /// A market's candles from Aster's REST service: the candle URL is
    /// requested and its reply read as `klines_from_reply` does. Whether the
    /// request goes through, and what comes back, is the service's.
    pub fn fetch_klines(market: &MarketId, interval: &str, limit: u64) -> (r: Result<Vec<KlinePoint>, String>)
        ensures
            r matches Ok(v) ==> exists|body: Seq<char>| #[trigger] kline_cells(body) matches Some(rows)
                && kline_result(rows) == Ok::<_, Seq<char>>(v@.map_values(|p: KlinePoint| point_view(p))),
    {
        let url = Aster::klines_url(market, interval, limit);
        let reply = match http_get(url.as_str()) {
            Ok(reply) => reply,
            Err(e) => {
                let mut m = "Aster kline request failed: ".to_string();
                push_str(&mut m, e.as_str());
                return Err(m);
            },
        };
        Aster::klines_from_reply(&reply)
    }

    pub fn place_order(&self, _request: &VenueOrderRequest) -> (r: Result<VenueOrder, VenueError>)
        ensures
            r matches Err(VenueError::Unsupported(m)) && m@ == "Aster order execution is not connected yet"@,
    {
        Err(VenueError::Unsupported("Aster order execution is not connected yet".to_string()))
    }

    pub fn cancel_order(&self, _external_order_id: &str) -> (r: Result<(), VenueError>)
        ensures
            r matches Err(VenueError::Unsupported(m)) && m@ == "Aster order cancellation is not connected yet"@,
    {
        Err(VenueError::Unsupported("Aster order cancellation is not connected yet".to_string()))
    }

    pub fn get_order(&self, _external_order_id: &str) -> (r: Result<VenueOrder, VenueError>)
        ensures
            r matches Err(VenueError::Unsupported(m)) && m@ == "Aster order query is not connected yet"@,
    {
        Err(VenueError::Unsupported("Aster order query is not connected yet".to_string()))
    }
}

impl Venue for Aster {
    open spec fn venue_id(&self) -> VenueId {
        VenueId::Aster
    }

    fn id(&self) -> (r: VenueId) {
        VenueId::Aster
    }

    fn get_orderbook(&self, market: &MarketId) -> (r: Result<VenueOrderBook, VenueError>)
        ensures
            !self.enabled ==> (r matches Err(VenueError::Internal(m)) && m@ == "Aster adapter is disabled"@),
            r matches Ok(book) ==> book.venue == VenueId::Aster && book.market@ == market@,
            r matches Ok(book) ==> exists|body: Seq<char>| #[trigger] depth_pairs(body) matches Some((b, a))
                && Some(book.bids@) == parsed_levels(b) && Some(book.asks@) == parsed_levels(a)
                && (book.bids@.len() > 0 || book.asks@.len() > 0),
            r matches Err(e) ==> e is Internal,
    {
        self.ensure_enabled()?;
        self.fetch_orderbook(market)
    }

    fn place_order(&self, request: &VenueOrderRequest) -> (r: Result<VenueOrder, VenueError>)
        ensures
            r matches Err(VenueError::Unsupported(m)) && m@ == "Aster order execution is not connected yet"@,
    {
        Aster::place_order(self, request)
    }

    fn cancel_order(&self, external_order_id: &str) -> (r: Result<(), VenueError>)
        ensures
            r matches Err(VenueError::Unsupported(m)) && m@ == "Aster order cancellation is not connected yet"@,
    {
        Aster::cancel_order(self, external_order_id)
    }

    fn get_order(&self, external_order_id: &str) -> (r: Result<VenueOrder, VenueError>)
        ensures
            r matches Err(VenueError::Unsupported(m)) && m@ == "Aster order query is not connected yet"@,
    {
        Aster::get_order(self, external_order_id)
    }
}

impl MarketDataVenue for Aster {
    fn id(&self) -> VenueId {
        VenueId::Aster
    }

    fn snapshot(&self, market: &MarketId) -> (r: Result<VenueOrderBook, VenueError>)
        ensures
            !self.enabled ==> (r matches Err(VenueError::Internal(m)) && m@ == "Aster adapter is disabled"@),
            r matches Ok(book) ==> book.venue == VenueId::Aster && book.market@ == market@,
            r matches Ok(book) ==> exists|body: Seq<char>| #[trigger] depth_pairs(body) matches Some((b, a))
                && Some(book.bids@) == parsed_levels(b) && Some(book.asks@) == parsed_levels(a)
                && (book.bids@.len() > 0 || book.asks@.len() > 0),
            r matches Err(e) ==> e is Internal,
    {
        self.ensure_enabled()?;
        self.fetch_orderbook(market)
    }
}

impl Default for Aster {
    fn default() -> (r: Self)
        ensures
            r.enabled,
    {
        Self::new()
    }
}

proof fn lemma_pow10_small(k: nat)
    requires
        k <= 8,
    ensures
        1 <= pow(10, k) <= 100000000,
        pow(10, 8) == 100000000,
{
    reveal(pow);
    reveal_with_fuel(pow, 9);
    assert(pow(10, 0) == 1);
    assert(pow(10, 1) == 10);
    assert(pow(10, 2) == 100);
    assert(pow(10, 3) == 1000);
    assert(pow(10, 4) == 10000);
    assert(pow(10, 5) == 100000);
    assert(pow(10, 6) == 1000000);
    assert(pow(10, 7) == 10000000);
    assert(pow(10, 8) == 100000000);
}

proof fn lemma_split_nonempty(s: Seq<char>, sep: char)
    ensures
        split_spec(s, sep).len() >= 1,
    decreases s.len(),
{
    if s.len() > 0 {
        lemma_split_nonempty(s.drop_last(), sep);
    }
}

proof fn lemma_parsed_levels_none(pv: Seq<(Seq<char>, Seq<char>)>, i: int)
    requires
        0 <= i < pv.len(),
        fixed_value(trim_spec(pv[i].0)) is None || fixed_value(trim_spec(pv[i].1)) is None,
    ensures
        parsed_levels(pv) is None,
    decreases pv.len(),
{
    if i < pv.len() - 1 {
        assert(pv.drop_last()[i] == pv[i]);
        lemma_parsed_levels_none(pv.drop_last(), i);
    }
}

} // verus!
