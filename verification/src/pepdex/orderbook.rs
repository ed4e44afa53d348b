//! The orderbooks of all venues merged by price level.
use vstd::prelude::*;
use crate::pepdex::market::MarketId;
use crate::pepdex::venue::{BookView, OrderBookLevel, VenueId, VenueOrderBook};

verus! {

#[derive(Debug, Clone, Copy, PartialEq, Eq, Structural)]
pub struct LiquiditySource {
    pub venue: VenueId,
    pub quantity: u64,
}

#[derive(Debug)]
pub struct AggregatedLevel {
    pub price: u64,
    pub quantity: u64,
    pub sources: Vec<LiquiditySource>,
}

#[derive(Debug)]
pub struct AggregatedOrderBook {
    pub market: MarketId,
    pub bids: Vec<AggregatedLevel>,
    pub asks: Vec<AggregatedLevel>,
    pub timestamp_ms: u64,
}

impl AggregatedOrderBook {
    pub fn best_bid(&self) -> (r: Option<&AggregatedLevel>)
        ensures
            self.bids@.len() == 0 ==> r is None,
            self.bids@.len() > 0 ==> r == Some(&self.bids@[0]),
    {
        if self.bids.len() == 0 { None } else { Some(&self.bids[0]) }
    }

    pub fn best_ask(&self) -> (r: Option<&AggregatedLevel>)
        ensures
            self.asks@.len() == 0 ==> r is None,
            self.asks@.len() > 0 ==> r == Some(&self.asks@[0]),
    {
        if self.asks.len() == 0 { None } else { Some(&self.asks[0]) }
    }
}

// ---------------------------------------------------------------------------
// The quotes of one side of a set of books, and what merging them means.
// ---------------------------------------------------------------------------

/// The books as plain values.
pub open spec fn book_views(books: Seq<VenueOrderBook>) -> Seq<BookView> {
    books.map_values(|b: VenueOrderBook| b@)
}

/// The levels of the bid side (`buy`) or of the ask side of a book.
pub open spec fn book_side(book: BookView, buy: bool) -> Seq<OrderBookLevel> {
    if buy { book.bids } else { book.asks }
}

/// The levels of one book as quotes `(price, venue, quantity)`.
pub open spec fn level_quotes(venue: VenueId, levels: Seq<OrderBookLevel>) -> Seq<(u64, VenueId, u64)> {
    levels.map_values(|l: OrderBookLevel| (l.price, venue, l.quantity))
}

/// All quotes of one side of the books, book after book.
pub open spec fn side_quotes(books: Seq<BookView>, buy: bool) -> Seq<(u64, VenueId, u64)>
    decreases books.len(),
{
    if books.len() == 0 {
        Seq::empty()
    } else {
        side_quotes(books.drop_last(), buy) + level_quotes(books.last().venue, book_side(books.last(), buy))
    }
}

/// Some quote names this price and venue.
pub open spec fn quoted_by(q: Seq<(u64, VenueId, u64)>, price: u64, venue: VenueId) -> bool
    decreases q.len(),
{
    if q.len() == 0 {
        false
    } else {
        quoted_by(q.drop_last(), price, venue) || (q.last().0 == price && q.last().1 == venue)
    }
}

/// Some quote names this price.
pub open spec fn price_quoted(q: Seq<(u64, VenueId, u64)>, price: u64) -> bool
    decreases q.len(),
{
    if q.len() == 0 {
        false
    } else {
        price_quoted(q.drop_last(), price) || q.last().0 == price
    }
}

/// Sum of the quantities a venue quotes at a price.
pub open spec fn venue_quantity(q: Seq<(u64, VenueId, u64)>, price: u64, venue: VenueId) -> int
    decreases q.len(),
{
    if q.len() == 0 {
        0
    } else {
        venue_quantity(q.drop_last(), price, venue) + if q.last().0 == price && q.last().1 == venue {
            q.last().2 as int
        } else {
            0
        }
    }
}

/// Sum of the quantities all venues quote at a price.
pub open spec fn price_quantity(q: Seq<(u64, VenueId, u64)>, price: u64) -> int
    decreases q.len(),
{
    if q.len() == 0 {
        0
    } else {
        price_quantity(q.drop_last(), price) + if q.last().0 == price { q.last().2 as int } else { 0 }
    }
}

/// Every price level's total fits in a `u64`.
pub open spec fn totals_fit(q: Seq<(u64, VenueId, u64)>) -> bool {
    forall|p: u64| #[trigger] price_quantity(q, p) <= u64::MAX
}

/// The source of one venue at a price: present when the venue quoted the price.
pub open spec fn venue_source(q: Seq<(u64, VenueId, u64)>, price: u64, venue: VenueId) -> Seq<LiquiditySource> {
    if quoted_by(q, price, venue) {
        seq![LiquiditySource { venue: venue, quantity: venue_quantity(q, price, venue) as u64 }]
    } else {
        Seq::empty()
    }
}

/// The sources of a price level: one per venue that quoted it, in venue order.
pub open spec fn sources_at(q: Seq<(u64, VenueId, u64)>, price: u64) -> Seq<LiquiditySource> {
    venue_source(q, price, VenueId::Aster) + venue_source(q, price, VenueId::Binance)
        + venue_source(q, price, VenueId::EdgeX) + venue_source(q, price, VenueId::Okx)
}

/// Bids run from the highest price down, asks from the lowest up.
pub open spec fn comes_before(buy: bool, a: u64, b: u64) -> bool {
    if buy { a > b } else { a < b }
}

/// `levels` is the merge of the quotes `q`: one level per quoted price, best first,
/// each with the total quantity and the per-venue sources at that price.
pub open spec fn is_side_aggregate(q: Seq<(u64, VenueId, u64)>, buy: bool, levels: Seq<AggregatedLevel>) -> bool {
    &&& forall|i: int, j: int|
        0 <= i < j < levels.len() ==> comes_before(buy, #[trigger] levels[i].price, #[trigger] levels[j].price)
    &&& forall|i: int| 0 <= i < levels.len() ==> {
        &&& price_quoted(q, #[trigger] levels[i].price)
        &&& levels[i].quantity == price_quantity(q, levels[i].price)
        &&& levels[i].sources@ == sources_at(q, levels[i].price)
    }
    &&& forall|p: u64| #[trigger] price_quoted(q, p) ==> exists|i: int| 0 <= i < levels.len() && levels[i].price == p
}

/// Latest timestamp among the books (0 for none).
pub open spec fn latest_timestamp(books: Seq<BookView>) -> u64
    decreases books.len(),
{
    if books.len() == 0 {
        0
    } else {
        let rest = latest_timestamp(books.drop_last());
        if books.last().timestamp_ms > rest { books.last().timestamp_ms } else { rest }
    }
}

// ---------------------------------------------------------------------------
// Lemmas on the sums.
// ---------------------------------------------------------------------------

proof fn lemma_push_quote(q: Seq<(u64, VenueId, u64)>, e: (u64, VenueId, u64))
    ensures
        forall|p: u64, v: VenueId| #[trigger] quoted_by(q.push(e), p, v) == (quoted_by(q, p, v) || (e.0 == p && e.1 == v)),
        forall|p: u64| #[trigger] price_quoted(q.push(e), p) == (price_quoted(q, p) || e.0 == p),
        forall|p: u64, v: VenueId| #[trigger] venue_quantity(q.push(e), p, v)
            == venue_quantity(q, p, v) + if e.0 == p && e.1 == v { e.2 as int } else { 0 },
        forall|p: u64| #[trigger] price_quantity(q.push(e), p)
            == price_quantity(q, p) + if e.0 == p { e.2 as int } else { 0 },
{
    assert(q.push(e).drop_last() =~= q);
}

proof fn lemma_venue_sums(q: Seq<(u64, VenueId, u64)>, p: u64)
    ensures
        price_quantity(q, p) == venue_quantity(q, p, VenueId::Aster) + venue_quantity(q, p, VenueId::Binance)
            + venue_quantity(q, p, VenueId::EdgeX) + venue_quantity(q, p, VenueId::Okx),
        venue_quantity(q, p, VenueId::Aster) >= 0,
        venue_quantity(q, p, VenueId::Binance) >= 0,
        venue_quantity(q, p, VenueId::EdgeX) >= 0,
        venue_quantity(q, p, VenueId::Okx) >= 0,
        !price_quoted(q, p) ==> price_quantity(q, p) == 0,
        !quoted_by(q, p, VenueId::Aster) ==> venue_quantity(q, p, VenueId::Aster) == 0,
        !quoted_by(q, p, VenueId::Binance) ==> venue_quantity(q, p, VenueId::Binance) == 0,
        !quoted_by(q, p, VenueId::EdgeX) ==> venue_quantity(q, p, VenueId::EdgeX) == 0,
        !quoted_by(q, p, VenueId::Okx) ==> venue_quantity(q, p, VenueId::Okx) == 0,
        price_quoted(q, p) == (quoted_by(q, p, VenueId::Aster) || quoted_by(q, p, VenueId::Binance)
            || quoted_by(q, p, VenueId::EdgeX) || quoted_by(q, p, VenueId::Okx)),
    decreases q.len(),
{
    if q.len() > 0 {
        lemma_venue_sums(q.drop_last(), p);
    }
}

proof fn lemma_prefix_quantity(q: Seq<(u64, VenueId, u64)>, n: int, p: u64)
    requires
        0 <= n <= q.len(),
    ensures
        price_quantity(q.take(n), p) <= price_quantity(q, p),
    decreases q.len() - n,
{
    if n < q.len() {
        lemma_prefix_quantity(q, n + 1, p);
        lemma_push_quote(q.take(n), q[n]);
        assert(q.take(n).push(q[n]) =~= q.take(n + 1));
    } else {
        assert(q.take(n) =~= q);
    }
}

// ---------------------------------------------------------------------------
// Collecting the quotes of one side.
// ---------------------------------------------------------------------------

fn collect_quotes(books: &[VenueOrderBook], buy: bool) -> (r: Vec<(u64, VenueId, u64)>)
    ensures
        r@ == side_quotes(book_views(books@), buy),
{
    let ghost views = book_views(books@);
    let mut out: Vec<(u64, VenueId, u64)> = Vec::new();
    let mut i: usize = 0;
    while i < books.len()
        invariant
            i <= books@.len(),
            views == book_views(books@),
            out@ == side_quotes(views.take(i as int), buy),
        decreases books@.len() - i,
    {
        let book = &books[i];
        let levels: &Vec<OrderBookLevel> = if buy { &book.bids } else { &book.asks };
        let ghost base = out@;
        let ghost lq = level_quotes(book.venue, book_side(views[i as int], buy));
        let mut j: usize = 0;
        while j < levels.len()
            invariant
                j <= levels@.len(),
                levels@ == book_side(views[i as int], buy),
                views[i as int].venue == book.venue,
                lq == level_quotes(book.venue, levels@),
                out@ == base + lq.take(j as int),
            decreases levels@.len() - j,
        {
            out.push((levels[j].price, book.venue, levels[j].quantity));
            assert(lq.take(j as int).push(lq[j as int]) =~= lq.take(j + 1));
            assert(base + lq.take(j + 1) =~= (base + lq.take(j as int)).push(lq[j as int]));
            j += 1;
        }
        assert(lq.take(levels@.len() as int) =~= lq);
        assert(views.take(i + 1).drop_last() =~= views.take(i as int));
        assert(views.take(i + 1).last() == views[i as int]);
        i += 1;
    }
    assert(views.take(books@.len() as int) =~= views);
    out
}

// ---------------------------------------------------------------------------
// Merging the quotes price by price.
// ---------------------------------------------------------------------------

/// Running per-venue totals at one price.
#[derive(Clone, Copy)]
struct PriceSums {
    price: u64,
    aster: Option<u64>,
    binance: Option<u64>,
    edgex: Option<u64>,
    okx: Option<u64>,
}

spec fn slot_ok(slot: Option<u64>, q: Seq<(u64, VenueId, u64)>, p: u64, v: VenueId) -> bool {
    slot == if quoted_by(q, p, v) { Some(venue_quantity(q, p, v) as u64) } else { None::<u64> }
}

spec fn sums_match(s: PriceSums, q: Seq<(u64, VenueId, u64)>) -> bool {
    &&& price_quoted(q, s.price)
    &&& slot_ok(s.aster, q, s.price, VenueId::Aster)
    &&& slot_ok(s.binance, q, s.price, VenueId::Binance)
    &&& slot_ok(s.edgex, q, s.price, VenueId::EdgeX)
    &&& slot_ok(s.okx, q, s.price, VenueId::Okx)
    &&& 0 <= venue_quantity(q, s.price, VenueId::Aster) <= u64::MAX
    &&& 0 <= venue_quantity(q, s.price, VenueId::Binance) <= u64::MAX
    &&& 0 <= venue_quantity(q, s.price, VenueId::EdgeX) <= u64::MAX
    &&& 0 <= venue_quantity(q, s.price, VenueId::Okx) <= u64::MAX
}

fn add_to_slot(slot: Option<u64>, quantity: u64) -> (r: Option<u64>)
    requires
        (match slot { Some(x) => x as int, None => 0 }) + quantity <= u64::MAX,
    ensures
        r == Some(((match slot { Some(x) => x as int, None => 0 }) + quantity) as u64),
{
    match slot {
        Some(x) => Some(x + quantity),
        None => Some(quantity),
    }
}

fn precedes(buy: bool, a: u64, b: u64) -> (r: bool)
    ensures
        r == comes_before(buy, a, b),
{
    if buy { a > b } else { a < b }
}

proof fn lemma_sums_step(s: PriceSums, t: PriceSums, q: Seq<(u64, VenueId, u64)>, e: (u64, VenueId, u64))
    requires
        sums_match(s, q),
        t.price == s.price,
        e.0 == s.price,
        price_quantity(q.push(e), s.price) <= u64::MAX,
        t.aster == if e.1 == VenueId::Aster { Some((venue_quantity(q, s.price, e.1) + e.2) as u64) } else { s.aster },
        t.binance == if e.1 == VenueId::Binance { Some((venue_quantity(q, s.price, e.1) + e.2) as u64) } else { s.binance },
        t.edgex == if e.1 == VenueId::EdgeX { Some((venue_quantity(q, s.price, e.1) + e.2) as u64) } else { s.edgex },
        t.okx == if e.1 == VenueId::Okx { Some((venue_quantity(q, s.price, e.1) + e.2) as u64) } else { s.okx },
    ensures
        sums_match(t, q.push(e)),
{
    lemma_push_quote(q, e);
    lemma_venue_sums(q.push(e), s.price);
}

proof fn lemma_sums_other(s: PriceSums, q: Seq<(u64, VenueId, u64)>, e: (u64, VenueId, u64))
    requires
        sums_match(s, q),
        e.0 != s.price,
    ensures
        sums_match(s, q.push(e)),
{
    lemma_push_quote(q, e);
}

fn merge_quotes(quotes: &Vec<(u64, VenueId, u64)>, buy: bool) -> (r: Vec<PriceSums>)
    requires
        totals_fit(quotes@),
    ensures
        forall|i: int, j: int| 0 <= i < j < r@.len() ==> comes_before(buy, #[trigger] r@[i].price, #[trigger] r@[j].price),
        forall|i: int| 0 <= i < r@.len() ==> sums_match(#[trigger] r@[i], quotes@),
        forall|p: u64| #[trigger] price_quoted(quotes@, p) ==> exists|i: int| 0 <= i < r@.len() && r@[i].price == p,
{
    let mut sums: Vec<PriceSums> = Vec::new();
    let mut n: usize = 0;
    while n < quotes.len()
        invariant
            n <= quotes@.len(),
            totals_fit(quotes@),
            forall|i: int, j: int|
                0 <= i < j < sums@.len() ==> comes_before(buy, #[trigger] sums@[i].price, #[trigger] sums@[j].price),
            forall|i: int| 0 <= i < sums@.len() ==> sums_match(#[trigger] sums@[i], quotes@.take(n as int)),
            forall|p: u64| #[trigger] price_quoted(quotes@.take(n as int), p)
                ==> exists|i: int| 0 <= i < sums@.len() && sums@[i].price == p,
        decreases quotes@.len() - n,
    {
        let e = quotes[n];
        let (p, v, x) = e;
        let ghost pre = quotes@.take(n as int);
        let ghost post = quotes@.take(n + 1);
        assert(pre.push(e) =~= post);
        proof {
            lemma_push_quote(pre, e);
            lemma_prefix_quantity(quotes@, n + 1, p);
        }
        let mut i: usize = 0;
        while i < sums.len() && precedes(buy, sums[i].price, p)
            invariant
                i <= sums@.len(),
                forall|j: int| 0 <= j < i ==> comes_before(buy, #[trigger] sums@[j].price, p),
            decreases sums@.len() - i,
        {
            i += 1;
        }
        let ghost old_sums = sums@;
        if i < sums.len() && sums[i].price == p {
            let s = sums[i];
            proof {
                lemma_venue_sums(post, p);
                lemma_venue_sums(pre, p);
            }
            let mut t = s;
            match v {
                VenueId::Aster => { t.aster = add_to_slot(s.aster, x); },
                VenueId::Binance => { t.binance = add_to_slot(s.binance, x); },
                VenueId::EdgeX => { t.edgex = add_to_slot(s.edgex, x); },
                VenueId::Okx => { t.okx = add_to_slot(s.okx, x); },
            }
            proof {
                lemma_sums_step(s, t, pre, e);
            }
            sums.set(i, t);
            proof {
                assert forall|k: int| 0 <= k < sums@.len() implies sums_match(#[trigger] sums@[k], post) by {
                    if k != i {
                        lemma_sums_other(old_sums[k], pre, e);
                    }
                }
                assert forall|q: u64| #[trigger] price_quoted(post, q)
                    implies exists|k: int| 0 <= k < sums@.len() && sums@[k].price == q by {
                    if q == p {
                        assert(sums@[i as int].price == q);
                    } else {
                        assert(price_quoted(pre, q));
                        let k = choose|k: int| 0 <= k < old_sums.len() && old_sums[k].price == q;
                        assert(sums@[k].price == q);
                    }
                }
            }
        } else {
            proof {
                lemma_venue_sums(post, p);
            }
            let t = PriceSums {
                price: p,
                aster: if v == VenueId::Aster { Some(x) } else { None },
                binance: if v == VenueId::Binance { Some(x) } else { None },
                edgex: if v == VenueId::EdgeX { Some(x) } else { None },
                okx: if v == VenueId::Okx { Some(x) } else { None },
            };
            proof {
                lemma_venue_sums(pre, p);
                assert(!price_quoted(pre, p)) by {
                    if price_quoted(pre, p) {
                        let k = choose|k: int| 0 <= k < old_sums.len() && old_sums[k].price == p;
                        if k < i {
                            assert(comes_before(buy, old_sums[k].price, p));
                        } else if k > i {
                            assert(comes_before(buy, old_sums[i as int].price, old_sums[k].price));
                        }
                    }
                }
                assert(sums_match(t, post));
            }
            sums.insert(i, t);
            proof {
                assert forall|a: int, b: int| 0 <= a < b < sums@.len()
                    implies comes_before(buy, #[trigger] sums@[a].price, #[trigger] sums@[b].price) by {
                    if a < i && b == i {
                    } else if a < i && b > i {
                        assert(comes_before(buy, old_sums[a].price, old_sums[b - 1].price));
                    } else if a == i && b > i {
                        assert(comes_before(buy, old_sums[i as int].price, old_sums[b - 1].price) || b - 1 == i);
                    } else if a > i {
                        assert(comes_before(buy, old_sums[a - 1].price, old_sums[b - 1].price));
                    } else {
                        assert(comes_before(buy, old_sums[a].price, old_sums[b].price));
                    }
                }
                assert forall|k: int| 0 <= k < sums@.len() implies sums_match(#[trigger] sums@[k], post) by {
                    if k < i {
                        lemma_sums_other(old_sums[k], pre, e);
                    } else if k > i {
                        lemma_sums_other(old_sums[k - 1], pre, e);
                    }
                }
                assert forall|q: u64| #[trigger] price_quoted(post, q)
                    implies exists|k: int| 0 <= k < sums@.len() && sums@[k].price == q by {
                    if q == p {
                        assert(sums@[i as int].price == q);
                    } else {
                        assert(price_quoted(pre, q));
                        let k = choose|k: int| 0 <= k < old_sums.len() && old_sums[k].price == q;
                        if k < i {
                            assert(sums@[k].price == q);
                        } else {
                            assert(sums@[k + 1].price == q);
                        }
                    }
                }
            }
        }
        n += 1;
    }
    assert(quotes@.take(quotes@.len() as int) =~= quotes@);
    sums
}

/// Turns running totals into a level with its sources in venue order.
fn level_of(s: PriceSums, Ghost(q): Ghost<Seq<(u64, VenueId, u64)>>) -> (r: AggregatedLevel)
    requires
        sums_match(s, q),
        totals_fit(q),
    ensures
        r.price == s.price,
        r.quantity == price_quantity(q, s.price),
        r.sources@ == sources_at(q, s.price),
{
    proof {
        lemma_venue_sums(q, s.price);
    }
    let mut sources: Vec<LiquiditySource> = Vec::new();
    let mut total: u64 = 0;
    if let Some(a) = s.aster {
        sources.push(LiquiditySource { venue: VenueId::Aster, quantity: a });
        total = a;
    }
    let ghost s1 = sources@;
    if let Some(b) = s.binance {
        sources.push(LiquiditySource { venue: VenueId::Binance, quantity: b });
        total = total + b;
    }
    let ghost s2 = sources@;
    if let Some(c) = s.edgex {
        sources.push(LiquiditySource { venue: VenueId::EdgeX, quantity: c });
        total = total + c;
    }
    let ghost s3 = sources@;
    if let Some(d) = s.okx {
        sources.push(LiquiditySource { venue: VenueId::Okx, quantity: d });
        total = total + d;
    }
    proof {
        assert(s1 =~= venue_source(q, s.price, VenueId::Aster));
        assert(s2 =~= s1 + venue_source(q, s.price, VenueId::Binance));
        assert(s3 =~= s2 + venue_source(q, s.price, VenueId::EdgeX));
        assert(sources@ =~= s3 + venue_source(q, s.price, VenueId::Okx));
    }
    AggregatedLevel { price: s.price, quantity: total, sources }
}

fn aggregate_side(books: &[VenueOrderBook], buy: bool) -> (r: Vec<AggregatedLevel>)
    requires
        totals_fit(side_quotes(book_views(books@), buy)),
    ensures
        is_side_aggregate(side_quotes(book_views(books@), buy), buy, r@),
{
    let quotes = collect_quotes(books, buy);
    let sums = merge_quotes(&quotes, buy);
    let mut out: Vec<AggregatedLevel> = Vec::new();
    let mut i: usize = 0;
    while i < sums.len()
        invariant
            i <= sums@.len(),
            out@.len() == i,
            quotes@ == side_quotes(book_views(books@), buy),
            totals_fit(quotes@),
            forall|k: int| 0 <= k < sums@.len() ==> sums_match(#[trigger] sums@[k], quotes@),
            forall|k: int| 0 <= k < i ==> {
                &&& (#[trigger] out@[k]).price == sums@[k].price
                &&& out@[k].quantity == price_quantity(quotes@, sums@[k].price)
                &&& out@[k].sources@ == sources_at(quotes@, sums@[k].price)
            },
        decreases sums@.len() - i,
    {
        let level = level_of(sums[i], Ghost(quotes@));
        out.push(level);
        i += 1;
    }
    proof {
        let q = quotes@;
        assert forall|a: int, b: int| 0 <= a < b < out@.len()
            implies comes_before(buy, #[trigger] out@[a].price, #[trigger] out@[b].price) by {
            assert(out@[a].price == sums@[a].price);
            assert(out@[b].price == sums@[b].price);
        }
        assert forall|k: int| 0 <= k < out@.len() implies price_quoted(q, #[trigger] out@[k].price) by {
            assert(sums_match(sums@[k], q));
        }
        assert forall|p: u64| #[trigger] price_quoted(q, p)
            implies exists|k: int| 0 <= k < out@.len() && out@[k].price == p by {
            let k = choose|k: int| 0 <= k < sums@.len() && sums@[k].price == p;
            assert(out@[k].price == p);
        }
    }
    out
}

proof fn lemma_quoted_index(q: Seq<(u64, VenueId, u64)>, p: u64)
    requires
        price_quoted(q, p),
    ensures
        exists|k: int| 0 <= k < q.len() && q[k].0 == p,
    decreases q.len(),
{
    if !(q.last().0 == p) {
        lemma_quoted_index(q.drop_last(), p);
        let k = choose|k: int| 0 <= k < q.drop_last().len() && q.drop_last()[k].0 == p;
        assert(q[k].0 == p);
    }
}

fn quotes_fit(quotes: &Vec<(u64, VenueId, u64)>) -> (r: bool)
    ensures
        r == totals_fit(quotes@),
{
    let n = quotes.len();
    let mut i: usize = 0;
    while i < n
        invariant
            n == quotes@.len(),
            i <= n,
            forall|k: int| 0 <= k < i ==> price_quantity(quotes@, #[trigger] quotes@[k].0) <= u64::MAX,
        decreases n - i,
    {
        let p = quotes[i].0;
        let mut total: u64 = 0;
        let mut j: usize = 0;
        while j < n
            invariant
                n == quotes@.len(),
                j <= n,
                total == price_quantity(quotes@.take(j as int), p),
            decreases n - j,
        {
            proof {
                lemma_push_quote(quotes@.take(j as int), quotes@[j as int]);
                assert(quotes@.take(j as int).push(quotes@[j as int]) =~= quotes@.take(j + 1));
            }
            if quotes[j].0 == p {
                match total.checked_add(quotes[j].2) {
                    Some(t) => { total = t; },
                    None => {
                        proof {
                            lemma_prefix_quantity(quotes@, j + 1, p);
                            assert(!(price_quantity(quotes@, p) <= u64::MAX));
                        }
                        return false;
                    },
                }
            }
            j += 1;
        }
        assert(quotes@.take(n as int) =~= quotes@);
        i += 1;
    }
    proof {
        assert forall|p: u64| #[trigger] price_quantity(quotes@, p) <= u64::MAX by {
            lemma_venue_sums(quotes@, p);
            if price_quoted(quotes@, p) {
                lemma_quoted_index(quotes@, p);
                let k = choose|k: int| 0 <= k < quotes@.len() && quotes@[k].0 == p;
                assert(price_quantity(quotes@, quotes@[k].0) <= u64::MAX);
            }
        }
    }
    true
}

/// Whether every price level of both sides of the books sums within a `u64`.
pub(crate) fn books_fit(books: &[VenueOrderBook]) -> (r: bool)
    ensures
        r == (totals_fit(side_quotes(book_views(books@), true)) && totals_fit(side_quotes(book_views(books@), false))),
{
    let bids = collect_quotes(books, true);
    let asks = collect_quotes(books, false);
    quotes_fit(&bids) && quotes_fit(&asks)
}

/// Merges the books of several venues: bids best (highest) first, asks best (lowest)
/// first, and the latest timestamp; `None` when there is no book.
pub fn aggregate_orderbooks(books: &[VenueOrderBook]) -> (r: Option<AggregatedOrderBook>)
    requires
        totals_fit(side_quotes(book_views(books@), true)),
        totals_fit(side_quotes(book_views(books@), false)),
    ensures
        r is None <==> books@.len() == 0,
        r matches Some(ob) ==> {
            &&& ob.market@ == books@[0].market@
            &&& is_side_aggregate(side_quotes(book_views(books@), true), true, ob.bids@)
            &&& is_side_aggregate(side_quotes(book_views(books@), false), false, ob.asks@)
            &&& ob.timestamp_ms == latest_timestamp(book_views(books@))
        },
{
    if books.len() == 0 {
        return None;
    }
    let bids = aggregate_side(books, true);
    let asks = aggregate_side(books, false);
    let ghost views = book_views(books@);
    let mut timestamp_ms: u64 = 0;
    let mut i: usize = 0;
    while i < books.len()
        invariant
            i <= books@.len(),
            views == book_views(books@),
            timestamp_ms == latest_timestamp(views.take(i as int)),
        decreases books@.len() - i,
    {
        assert(views.take(i + 1).drop_last() =~= views.take(i as int));
        assert(views.take(i + 1).last() == views[i as int]);
        if books[i].timestamp_ms > timestamp_ms {
            timestamp_ms = books[i].timestamp_ms;
        }
        i += 1;
    }
    assert(views.take(books@.len() as int) =~= views);
    Some(AggregatedOrderBook { market: books[0].market.clone(), bids, asks, timestamp_ms })
}

/// The best bid of a merged side is the highest price any venue bids, and the best
/// ask the lowest price any venue asks.
pub proof fn lemma_best_level_is_extreme(q: Seq<(u64, VenueId, u64)>, buy: bool, levels: Seq<AggregatedLevel>, p: u64)
    requires
        is_side_aggregate(q, buy, levels),
        price_quoted(q, p),
    ensures
        levels.len() > 0,
        buy ==> p <= levels[0].price,
        !buy ==> p >= levels[0].price,
{
    let k = choose|k: int| 0 <= k < levels.len() && levels[k].price == p;
    if k > 0 {
        assert(comes_before(buy, levels[0].price, levels[k].price));
    }
}

/// In an aggregated side every quoted price has exactly one level, which
/// carries the total quoted at that price, and the levels run best first.
pub proof fn lemma_aggregate_merges(q: Seq<(u64, VenueId, u64)>, buy: bool, levels: Seq<AggregatedLevel>, p: u64)
    requires
        is_side_aggregate(q, buy, levels),
        price_quoted(q, p),
    ensures
        exists|i: int| 0 <= i < levels.len() && levels[i].price == p && levels[i].quantity == price_quantity(q, p)
            && forall|j: int| 0 <= j < levels.len() && j != i ==> #[trigger] levels[j].price != p,
{
    let i = choose|i: int| 0 <= i < levels.len() && levels[i].price == p;
    assert forall|j: int| 0 <= j < levels.len() && j != i implies #[trigger] levels[j].price != p by {
        if j < i {
            assert(comes_before(buy, levels[j].price, levels[i].price));
        } else {
            assert(comes_before(buy, levels[i].price, levels[j].price));
        }
    }
}

} // verus!
