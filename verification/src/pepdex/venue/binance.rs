//! Binance adapter: fixed sample market data; order execution is not connected.
use vstd::prelude::*;
use crate::clock::now_ms;
use crate::pepdex::market::MarketId;
use crate::pepdex::venue::{
    MarketDataVenue, OrderBookLevel, Venue, VenueError, VenueId, VenueOrder, VenueOrderBook,
    VenueOrderRequest,
};

verus! {

#[derive(Debug, Clone, Copy)]
pub struct Binance {
    pub enabled: bool,
}

/// The sample bids the adapter serves.
pub open spec fn binance_bids() -> Seq<OrderBookLevel> {
    seq![
        OrderBookLevel { price: 600, quantity: 20 },
        OrderBookLevel { price: 599, quantity: 80 },
        OrderBookLevel { price: 598, quantity: 120 },
    ]
}

/// The sample asks the adapter serves.
pub open spec fn binance_asks() -> Seq<OrderBookLevel> {
    seq![
        OrderBookLevel { price: 602, quantity: 40 },
        OrderBookLevel { price: 604, quantity: 60 },
        OrderBookLevel { price: 605, quantity: 100 },
    ]
}

impl Binance {
    pub fn new() -> (r: Self)
        ensures
            r.enabled,
    {
        Binance { enabled: true }
    }

    pub fn disabled() -> (r: Self)
        ensures
            !r.enabled,
    {
        Binance { enabled: false }
    }

    fn mock_orderbook(&self, market: &MarketId) -> (r: VenueOrderBook)
        ensures
            r.venue == VenueId::Binance,
            r.market@ == market@,
            r.bids@ == binance_bids(),
            r.asks@ == binance_asks(),
    {
        let bids = vec![
            OrderBookLevel { price: 600, quantity: 20 },
            OrderBookLevel { price: 599, quantity: 80 },
            OrderBookLevel { price: 598, quantity: 120 },
        ];
        let asks = vec![
            OrderBookLevel { price: 602, quantity: 40 },
            OrderBookLevel { price: 604, quantity: 60 },
            OrderBookLevel { price: 605, quantity: 100 },
        ];
        assert(bids@ =~= binance_bids());
        assert(asks@ =~= binance_asks());
        VenueOrderBook {
            venue: VenueId::Binance,
            market: market.clone(),
            bids,
            asks,
            timestamp_ms: now_ms(),
        }
    }

    /// The sample orderbook, or an error when the adapter is disabled.
    pub fn orderbook(&self, market: &MarketId) -> (r: Result<VenueOrderBook, VenueError>)
        ensures
            self.enabled <==> r is Ok,
            r matches Ok(book) ==> book.venue == VenueId::Binance && book.market@ == market@
                && book.bids@ == binance_bids() && book.asks@ == binance_asks(),
    {
        if !self.enabled {
            return Err(VenueError::Internal("Binance adapter is disabled".to_string()));
        }
        Ok(self.mock_orderbook(market))
    }
}

impl Default for Binance {
    fn default() -> (r: Self)
        ensures
            r.enabled,
    {
        Self::new()
    }
}

impl Venue for Binance {
    open spec fn venue_id(&self) -> VenueId {
        VenueId::Binance
    }

    fn id(&self) -> (r: VenueId) {
        VenueId::Binance
    }

    fn get_orderbook(&self, market: &MarketId) -> (r: Result<VenueOrderBook, VenueError>)
        ensures
            self.enabled <==> r is Ok,
            r matches Ok(book) ==> book.venue == VenueId::Binance && book.market@ == market@
                && book.bids@ == binance_bids() && book.asks@ == binance_asks(),
    {
        self.orderbook(market)
    }

    fn place_order(&self, _request: &VenueOrderRequest) -> (r: Result<VenueOrder, VenueError>)
        ensures
            r matches Err(VenueError::Unsupported(m)) && m@ == "Binance order execution is not connected yet"@,
    {
        Err(VenueError::Unsupported("Binance order execution is not connected yet".to_string()))
    }

    fn cancel_order(&self, _external_order_id: &str) -> (r: Result<(), VenueError>)
        ensures
            r matches Err(VenueError::Unsupported(m)) && m@ == "Binance order cancellation is not connected yet"@,
    {
        Err(VenueError::Unsupported("Binance order cancellation is not connected yet".to_string()))
    }

    fn get_order(&self, _external_order_id: &str) -> (r: Result<VenueOrder, VenueError>)
        ensures
            r matches Err(VenueError::Unsupported(m)) && m@ == "Binance order query is not connected yet"@,
    {
        Err(VenueError::Unsupported("Binance order query is not connected yet".to_string()))
    }
}

impl MarketDataVenue for Binance {
    fn id(&self) -> VenueId {
        VenueId::Binance
    }

    fn snapshot(&self, market: &MarketId) -> (r: Result<VenueOrderBook, VenueError>)
        ensures
            self.enabled <==> r is Ok,
            r matches Ok(book) ==> book.venue == VenueId::Binance && book.market@ == market@
                && book.bids@ == binance_bids() && book.asks@ == binance_asks(),
    {
        self.orderbook(market)
    }
}

} // verus!
