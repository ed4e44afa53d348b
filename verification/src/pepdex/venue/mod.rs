//! What the engine exchanges with external trading venues.
use vstd::prelude::*;
use crate::pepdex::market::MarketId;

pub mod aster;
pub mod binance;
pub mod okx;

verus! {

#[derive(Debug, Clone, Copy, PartialEq, Eq, Structural, Hash, PartialOrd, Ord)]
pub enum VenueId {
    Aster,
    Binance,
    EdgeX,
    Okx,
}

/// Position of a venue in the declared order (the order `Ord` follows).
pub open spec fn venue_rank(v: VenueId) -> int {
    match v {
        VenueId::Aster => 0,
        VenueId::Binance => 1,
        VenueId::EdgeX => 2,
        VenueId::Okx => 3,
    }
}

pub open spec fn venue_name(v: VenueId) -> Seq<char> {
    match v {
        VenueId::Aster => "aster"@,
        VenueId::Binance => "binance"@,
        VenueId::EdgeX => "edgex"@,
        VenueId::Okx => "okx"@,
    }
}

impl VenueId {
    pub fn as_str(&self) -> (r: &'static str)
        ensures
            r@ == venue_name(*self),
    {
        match self {
            VenueId::Aster => "aster",
            VenueId::Binance => "binance",
            VenueId::EdgeX => "edgex",
            VenueId::Okx => "okx",
        }
    }

    /// Position in the declared order.
    pub fn rank(&self) -> (r: u8)
        ensures
            r as int == venue_rank(*self),
    {
        match self {
            VenueId::Aster => 0,
            VenueId::Binance => 1,
            VenueId::EdgeX => 2,
            VenueId::Okx => 3,
        }
    }
}

#[derive(Debug, Clone, Copy, PartialEq, Eq, Structural)]
pub enum VenueOrderSide {
    Buy,
    Sell,
}

#[derive(Debug, Clone, Copy, PartialEq, Eq, Structural)]
pub enum VenueOrderType {
    Market,
    Limit,
}

#[derive(Debug, Clone, Copy, PartialEq, Eq, Structural)]
pub enum VenueOrderStatus {
    New,
    Open,
    PartiallyFilled,
    Filled,
    Cancelled,
    Rejected,
}

/// A single price/quantity level in fixed-point representation.
#[derive(Debug, Clone, Copy, PartialEq, Eq, Structural)]
pub struct OrderBookLevel {
    pub price: u64,
    pub quantity: u64,
}

impl OrderBookLevel {
    pub fn new(price: u64, quantity: u64) -> (r: Self)
        ensures
            r.price == price,
            r.quantity == quantity,
    {
        OrderBookLevel { price, quantity }
    }

    pub fn is_empty(&self) -> (r: bool)
        ensures
            r == (self.quantity == 0),
    {
        self.quantity == 0
    }
}

/// Orderbook returned by an individual venue.
#[derive(Debug)]
pub struct VenueOrderBook {
    pub venue: VenueId,
    pub market: MarketId,
    pub bids: Vec<OrderBookLevel>,
    pub asks: Vec<OrderBookLevel>,
    pub timestamp_ms: u64,
}

/// What a venue orderbook holds, as plain values.
pub struct BookView {
    pub venue: VenueId,
    pub market: (Seq<char>, Seq<char>),
    pub bids: Seq<OrderBookLevel>,
    pub asks: Seq<OrderBookLevel>,
    pub timestamp_ms: u64,
}

impl View for VenueOrderBook {
    type V = BookView;

    open spec fn view(&self) -> BookView {
        BookView {
            venue: self.venue,
            market: self.market@,
            bids: self.bids@,
            asks: self.asks@,
            timestamp_ms: self.timestamp_ms,
        }
    }
}

/// A copy of a list of levels.
pub fn copy_levels(levels: &Vec<OrderBookLevel>) -> (r: Vec<OrderBookLevel>)
    ensures
        r@ == levels@,
{
    let mut out: Vec<OrderBookLevel> = Vec::new();
    let mut i: usize = 0;
    while i < levels.len()
        invariant
            i <= levels@.len(),
            out@ == levels@.take(i as int),
        decreases levels@.len() - i,
    {
        out.push(levels[i]);
        assert(levels@.take(i as int).push(levels@[i as int]) =~= levels@.take(i + 1));
        i += 1;
    }
    assert(levels@.take(levels@.len() as int) =~= levels@);
    out
}

impl Clone for VenueOrderBook {
    fn clone(&self) -> (r: Self)
        ensures
            r.venue == self.venue,
            r.market@ == self.market@,
            r.bids@ == self.bids@,
            r.asks@ == self.asks@,
            r.timestamp_ms == self.timestamp_ms,
            r@ == self@,
    {
        VenueOrderBook {
            venue: self.venue,
            market: self.market.clone(),
            bids: copy_levels(&self.bids),
            asks: copy_levels(&self.asks),
            timestamp_ms: self.timestamp_ms,
        }
    }
}

#[derive(Debug)]
pub struct VenueOrderRequest {
    pub market: MarketId,
    pub side: VenueOrderSide,
    pub order_type: VenueOrderType,
    /// Fixed-point price.
    pub price: Option<u64>,
    /// Fixed-point quantity.
    pub quantity: u64,
    pub client_order_id: String,
}

#[derive(Debug)]
pub struct VenueOrder {
    pub venue: VenueId,
    pub external_order_id: String,
    pub client_order_id: String,
    pub market: MarketId,
    pub side: VenueOrderSide,
    /// Fixed-point quantity.
    pub requested_quantity: u64,
    /// Fixed-point quantity.
    pub filled_quantity: u64,
    /// Fixed-point price.
    pub average_price: Option<u64>,
    pub status: VenueOrderStatus,
}

#[derive(Debug)]
pub enum VenueError {
    Network(String),
    Authentication(String),
    InvalidRequest(String),
    NotFound(String),
    RateLimited,
    Unsupported(String),
    Internal(String),
}

/// Generic venue interface, implemented by each execution adapter.
pub trait Venue {
    /// The venue this adapter speaks to.
    spec fn venue_id(&self) -> VenueId;

    fn id(&self) -> (r: VenueId)
        ensures
            r == self.venue_id();

    fn get_orderbook(&self, market: &MarketId) -> Result<VenueOrderBook, VenueError>;

    /// Places an order; the venue's record of it names this venue and the
    /// quantity asked for.
    fn place_order(&self, request: &VenueOrderRequest) -> (r: Result<VenueOrder, VenueError>)
        ensures
            r matches Ok(o) ==> o.venue == self.venue_id() && o.requested_quantity == request.quantity;

    fn cancel_order(&self, external_order_id: &str) -> Result<(), VenueError>;

    fn get_order(&self, external_order_id: &str) -> Result<VenueOrder, VenueError>;
}

/// Market-data source, kept apart from order execution.
pub trait MarketDataVenue {
    fn id(&self) -> VenueId;

    fn snapshot(&self, market: &MarketId) -> Result<VenueOrderBook, VenueError>;
}

} // verus!
