use pep_core::blockchain::network::bootstrap::{bootstrap_peers, next_bootstrap, BootstrapAction};
use pep_core::pepdex::balance::{Balance, BalanceLedger};
use pep_core::pepdex::executor::Executor;
use pep_core::pepdex::market::{Market, MarketId};
use pep_core::pepdex::market_data::MarketDataEngine;
use pep_core::pepdex::order::{OrderId, ParentOrder};
use pep_core::pepdex::order_manager::{OrderLifecycle, OrderManager, OrderManagerError};
use pep_core::pepdex::order_store::OrderStore;
use pep_core::pepdex::reservation::{ReservationId, ReservationStatus};
use pep_core::pepdex::router::Router;
use pep_core::pepdex::splitter::Splitter;
use pep_core::pepdex::venue::aster::{Aster, HttpReply};
use pep_core::pepdex::aggregator::ParentExecutionStatus;
use pep_core::pepdex::venue::{
    MarketDataVenue, OrderBookLevel, Venue, VenueError, VenueId, VenueOrder, VenueOrderBook, VenueOrderRequest,
    VenueOrderSide, VenueOrderStatus, VenueOrderType,
};

/// A venue whose book has three ask levels and which fills every order in full.
struct FillingVenue;

impl MarketDataVenue for FillingVenue {
    fn id(&self) -> VenueId {
        VenueId::Aster
    }

    fn snapshot(&self, market: &MarketId) -> Result<VenueOrderBook, VenueError> {
        Ok(VenueOrderBook {
            venue: VenueId::Aster,
            market: market.clone(),
            bids: vec![OrderBookLevel { price: 600, quantity: 50 }],
            asks: vec![
                OrderBookLevel { price: 602, quantity: 60 },
                OrderBookLevel { price: 603, quantity: 35 },
                OrderBookLevel { price: 604, quantity: 55 },
            ],
            timestamp_ms: 0,
        })
    }
}

impl Venue for FillingVenue {
    fn venue_id(&self) -> VenueId {
        VenueId::Aster
    }

    fn id(&self) -> VenueId {
        VenueId::Aster
    }

    fn get_orderbook(&self, market: &MarketId) -> Result<VenueOrderBook, VenueError> {
        self.snapshot(market)
    }

    fn place_order(&self, request: &VenueOrderRequest) -> Result<VenueOrder, VenueError> {
        Ok(VenueOrder {
            venue: VenueId::Aster,
            external_order_id: format!("X-{}", request.client_order_id),
            client_order_id: request.client_order_id.clone(),
            market: request.market.clone(),
            side: request.side,
            requested_quantity: request.quantity,
            filled_quantity: request.quantity,
            average_price: request.price,
            status: VenueOrderStatus::Filled,
        })
    }

    fn cancel_order(&self, _external_order_id: &str) -> Result<(), VenueError> {
        Ok(())
    }

    fn get_order(&self, _external_order_id: &str) -> Result<VenueOrder, VenueError> {
        Err(VenueError::Unsupported("get_order".to_string()))
    }
}

#[test]
fn limit_order_beyond_the_book_settles_partially() {
    let mut ledger = BalanceLedger::new();
    ledger.deposit("alice", "USDT", 120_000).unwrap();
    let mut market_data = MarketDataEngine::new();
    market_data.add_venue(FillingVenue);
    let mut executor = Executor::new();
    executor.add_venue(FillingVenue);
    let mut manager = OrderManager::new(
        market_data,
        Router::new(),
        Splitter::new(),
        executor,
        ledger,
        OrderStore::memory(),
    );
    let order = ParentOrder::new(
        "ORDER-P",
        "alice",
        MarketId::new("PEP", "USDT"),
        VenueOrderSide::Buy,
        VenueOrderType::Limit,
        100,
        Some(603),
    );
    let managed = manager.process(order, &Market::new("PEP", "USDT")).unwrap();
    assert_eq!(managed.lifecycle, OrderLifecycle::PartiallySettled);
    let parent = managed.parent_execution.as_ref().unwrap();
    assert_eq!(parent.requested_quantity, 100);
    assert_eq!(parent.filled_quantity, 95);
    assert_eq!(parent.remaining_quantity, 5);
    assert_eq!(parent.status, ParentExecutionStatus::PartiallyFilled);
    // 60 × 602 + 35 × 603 = 57 225 paid from the available balance; of the
    // 60 300 reserved, the unused 3 075 is released and the consumed part stays locked.
    assert_eq!(manager.balances().get("alice", "USDT"), Balance { available: 5_550, locked: 57_225 });
    assert_eq!(manager.balances().total("alice", "USDT"), 120_000 - 57_225);
    assert_eq!(manager.balances().get("alice", "PEP"), Balance { available: 95, locked: 0 });
    let reservation = manager.reservations.get(&ReservationId::new("ORDER-P-RESERVE")).unwrap();
    assert_eq!(reservation.status, ReservationStatus::Released);
    let stored = manager.orders.get(&OrderId::new("ORDER-P")).unwrap().unwrap();
    assert_eq!(stored.lifecycle, OrderLifecycle::PartiallySettled);
}

#[test]
fn order_without_market_data_fails_and_gives_the_reservation_back() {
    let mut ledger = BalanceLedger::new();
    ledger.deposit("alice", "USDT", 1000).unwrap();
    let mut manager = OrderManager::new(
        MarketDataEngine::new(),
        Router::new(),
        Splitter::new(),
        Executor::new(),
        ledger,
        OrderStore::memory(),
    );
    let order = ParentOrder::new(
        "ORDER-1",
        "alice",
        MarketId::new("PEP", "USDT"),
        VenueOrderSide::Buy,
        VenueOrderType::Limit,
        1,
        Some(600),
    );
    let result = manager.process(order, &Market::new("PEP", "USDT"));
    assert!(matches!(result, Err(OrderManagerError::MarketData(_))));
    assert_eq!(manager.balances().get("alice", "USDT"), Balance { available: 1000, locked: 0 });
    let reservation = manager.reservations.get(&ReservationId::new("ORDER-1-RESERVE")).unwrap();
    assert_eq!(reservation.status, ReservationStatus::Released);
    let stored = manager.orders.get(&OrderId::new("ORDER-1")).unwrap().unwrap();
    assert_eq!(stored.lifecycle, OrderLifecycle::Failed);
    assert!(stored.last_error.is_some());
    assert_eq!(stored.last_error, Some("Internal(\"No market-data venues configured\")".to_string()));
}

#[test]
fn bootstrap_retries_then_gives_up() {
    assert_eq!(next_bootstrap(1, true), BootstrapAction::Done);
    assert_eq!(next_bootstrap(1, false), BootstrapAction::RetryAfterPause);
    assert_eq!(next_bootstrap(2, false), BootstrapAction::RetryAfterPause);
    assert_eq!(next_bootstrap(3, false), BootstrapAction::GiveUp);
}

#[test]
fn bootstrap_peers_drop_self_repeats_and_unparsed() {
    let reply = vec![
        Some("10.0.0.2:6000".to_string()),
        None,
        Some("10.0.0.9:6000".to_string()),
        Some("10.0.0.2:6000".to_string()),
        Some("10.0.0.3:6000".to_string()),
    ];
    assert_eq!(bootstrap_peers(reply, "10.0.0.9:6000"), vec!["10.0.0.2:6000", "10.0.0.3:6000"]);
}

#[test]
fn aster_urls_and_replies() {
    let market = MarketId::new("pep", "usdt");
    assert_eq!(Aster::depth_url(&market), "https://fapi.asterdex.com/fapi/v1/depth?symbol=PEPUSDT&limit=100");
    assert_eq!(Aster::ticker_url(&market), "https://fapi.asterdex.com/fapi/v1/ticker/price?symbol=PEPUSDT");

    let failed = HttpReply { status: 503, status_text: "503 Service Unavailable".to_string(), body: String::new() };
    match Aster::orderbook_from_reply(&market, &failed, 7) {
        Err(VenueError::Internal(m)) => assert_eq!(m, "Aster orderbook HTTP error: 503 Service Unavailable"),
        other => panic!("unexpected {:?}", other),
    }
    let depth = HttpReply {
        status: 200,
        status_text: "200 OK".to_string(),
        body: r#"{"bids":[["0.5","10"]],"asks":[["0.6","4"]]}"#.to_string(),
    };
    let book = Aster::orderbook_from_reply(&market, &depth, 7).unwrap();
    assert_eq!(book.bids.len(), 1);
    assert_eq!(book.bids[0].price, 50_000_000);
    assert_eq!(book.asks[0].quantity, 400_000_000);
    assert_eq!(book.timestamp_ms, 7);

    let ticker = HttpReply {
        status: 200,
        status_text: "200 OK".to_string(),
        body: r#"{"symbol":"PEPUSDT","price":"0.55"}"#.to_string(),
    };
    assert_eq!(Aster::last_price_from_reply(&market, &ticker).unwrap(), 55_000_000);
    let other = HttpReply {
        status: 200,
        status_text: "200 OK".to_string(),
        body: r#"{"symbol":"BTCUSDT","price":"1"}"#.to_string(),
    };
    assert!(matches!(Aster::last_price_from_reply(&market, &other), Err(VenueError::Internal(_))));
}

#[test]
fn withdraw_overdraft_names_the_balance_and_the_request() {
    let mut ledger = BalanceLedger::new();
    ledger.deposit("alice", "USDT", 100).unwrap();
    match ledger.withdraw("alice", "USDT", 101) {
        Err(pep_core::pepdex::balance::BalanceError::InsufficientAvailable { available, requested, .. }) => {
            assert_eq!(available, 100);
            assert_eq!(requested, 101);
        }
        other => panic!("unexpected {:?}", other),
    }
    assert_eq!(ledger.get("alice", "USDT"), Balance { available: 100, locked: 0 });
}

#[test]
fn aster_kline_url_and_reply() {
    let market = MarketId::new("pep", "usdt");
    assert_eq!(
        Aster::klines_url(&market, "1m", 200),
        "https://fapi.asterdex.com/fapi/v1/klines?symbol=PEPUSDT&interval=1m&limit=200"
    );
    let failed = HttpReply { status: 500, status_text: "500 Internal Server Error".to_string(), body: String::new() };
    assert_eq!(Aster::klines_from_reply(&failed).unwrap_err(), "Aster kline HTTP error: 500 Internal Server Error");
    let bad = HttpReply { status: 200, status_text: "200 OK".to_string(), body: "{".to_string() };
    assert!(Aster::klines_from_reply(&bad).unwrap_err().starts_with("Aster kline JSON parse failed: "));
    let ok = HttpReply {
        status: 200,
        status_text: "200 OK".to_string(),
        body: r#"[[1700000000000,"0.5","0.6","0.4","0.55","1200",1700000059999]]"#.to_string(),
    };
    let points = Aster::klines_from_reply(&ok).unwrap();
    assert_eq!(points.len(), 1);
    assert_eq!(points[0].time, 1_700_000_000);
    assert_eq!(points[0].open, "0.5");
    assert_eq!(points[0].close, "0.55");
    assert_eq!(points[0].volume, "1200");
}
