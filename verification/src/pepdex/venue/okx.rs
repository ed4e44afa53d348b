//! Okx adapter: fixed sample market data; order execution is not connected.
use vstd::prelude::*;
use crate::clock::now_ms;
use crate::pepdex::market::MarketId;
use crate::pepdex::venue::{
    MarketDataVenue, OrderBookLevel, Venue, VenueError, VenueId, VenueOrder, VenueOrderBook,
    VenueOrderRequest,
};

verus! {

#[derive(Debug, Clone, Copy)]
pub struct Okx {
    pub enabled: bool,
}

/// The sample bids the adapter serves.
pub open spec fn okx_bids() -> Seq<OrderBookLevel> {
    seq![
        OrderBookLevel { price: 599, quantity: 35 },
        OrderBookLevel { price: 598, quantity: 70 },
        OrderBookLevel { price: 597, quantity: 90 },
    ]
}

/// The sample asks the adapter serves.
pub open spec fn okx_asks() -> Seq<OrderBookLevel> {
    seq![
        OrderBookLevel { price: 603, quantity: 25 },
        OrderBookLevel { price: 604, quantity: 55 },
        OrderBookLevel { price: 605, quantity: 90 },
    ]
}

impl Okx {
    pub fn new() -> (r: Self)
        ensures
            r.enabled,
    {
        Okx { enabled: true }
    }

    pub fn disabled() -> (r: Self)
        ensures
            !r.enabled,
    {
        Okx { enabled: false }
    }

    fn mock_orderbook(&self, market: &MarketId) -> (r: VenueOrderBook)
        ensures
            r.venue == VenueId::Okx,
            r.market@ == market@,
            r.bids@ == okx_bids(),
            r.asks@ == okx_asks(),
    {
        let bids = vec![
            OrderBookLevel { price: 599, quantity: 35 },
            OrderBookLevel { price: 598, quantity: 70 },
            OrderBookLevel { price: 597, quantity: 90 },
        ];
        let asks = vec![
            OrderBookLevel { price: 603, quantity: 25 },
            OrderBookLevel { price: 604, quantity: 55 },
            OrderBookLevel { price: 605, quantity: 90 },
        ];
        assert(bids@ =~= okx_bids());
        assert(asks@ =~= okx_asks());
        VenueOrderBook {
            venue: VenueId::Okx,
            market: market.clone(),
            bids,
            asks,
            timestamp_ms: now_ms(),
        }
    }

    /// The sample orderbook, or an error when the adapter is disabled.
    pub fn orderbook(&self, market: &MarketId) -> (r: Result<VenueOrderBook, VenueError>)
        ensures
            self.enabled <==> r is Ok,
            r matches Ok(book) ==> book.venue == VenueId::Okx && book.market@ == market@
                && book.bids@ == okx_bids() && book.asks@ == okx_asks(),
    {
        if !self.enabled {
            return Err(VenueError::Internal("OKX adapter is disabled".to_string()));
        }
        Ok(self.mock_orderbook(market))
    }
}

impl Default for Okx {
    fn default() -> (r: Self)
        ensures
            r.enabled,
    {
        Self::new()
    }
}

impl Venue for Okx {
    open spec fn venue_id(&self) -> VenueId {
        VenueId::Okx
    }

    fn id(&self) -> (r: VenueId) {
        VenueId::Okx
    }

    fn get_orderbook(&self, market: &MarketId) -> (r: Result<VenueOrderBook, VenueError>)
        ensures
            self.enabled <==> r is Ok,
            r matches Ok(book) ==> book.venue == VenueId::Okx && book.market@ == market@
                && book.bids@ == okx_bids() && book.asks@ == okx_asks(),
    {
        self.orderbook(market)
    }

    fn place_order(&self, _request: &VenueOrderRequest) -> (r: Result<VenueOrder, VenueError>)
        ensures
            r matches Err(VenueError::Unsupported(m)) && m@ == "OKX order execution is not connected yet"@,
    {
        Err(VenueError::Unsupported("OKX order execution is not connected yet".to_string()))
    }

    fn cancel_order(&self, _external_order_id: &str) -> (r: Result<(), VenueError>)
        ensures
            r matches Err(VenueError::Unsupported(m)) && m@ == "OKX order cancellation is not connected yet"@,
    {
        Err(VenueError::Unsupported("OKX order cancellation is not connected yet".to_string()))
    }

    fn get_order(&self, _external_order_id: &str) -> (r: Result<VenueOrder, VenueError>)
        ensures
            r matches Err(VenueError::Unsupported(m)) && m@ == "OKX order query is not connected yet"@,
    {
        Err(VenueError::Unsupported("OKX order query is not connected yet".to_string()))
    }
}

impl MarketDataVenue for Okx {
    fn id(&self) -> VenueId {
        VenueId::Okx
    }

    fn snapshot(&self, market: &MarketId) -> (r: Result<VenueOrderBook, VenueError>)
        ensures
            self.enabled <==> r is Ok,
            r matches Ok(book) ==> book.venue == VenueId::Okx && book.market@ == market@
                && book.bids@ == okx_bids() && book.asks@ == okx_asks(),
    {
        self.orderbook(market)
    }
}

} // verus!
