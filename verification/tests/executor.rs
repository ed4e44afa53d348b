use pep_core::pepdex::executor::{Executor, ExecutorError};

use pep_core::pepdex::market::MarketId;
use pep_core::pepdex::order::{
    ChildOrder,
    ExecutionPlan,
    ParentOrder,
};
use pep_core::pepdex::venue::aster::Aster;
use pep_core::pepdex::venue::binance::Binance;
use pep_core::pepdex::venue::okx::Okx;
use pep_core::pepdex::venue::{
    Venue, VenueError, VenueId, VenueOrder, VenueOrderBook, VenueOrderRequest, VenueOrderSide, VenueOrderType,
};

/// The EdgeX adapter is not part of this crate: this stand-in only carries its id
/// and refuses every call.
struct EdgeX;

impl EdgeX {
    fn new() -> Self {
        EdgeX
    }
}

impl Venue for EdgeX {
    fn venue_id(&self) -> VenueId {
        VenueId::EdgeX
    }

    fn id(&self) -> VenueId {
        VenueId::EdgeX
    }

    fn get_orderbook(&self, _market: &MarketId) -> Result<VenueOrderBook, VenueError> {
        Err(VenueError::Unsupported("EdgeX orderbook".to_string()))
    }

    fn place_order(&self, _request: &VenueOrderRequest) -> Result<VenueOrder, VenueError> {
        Err(VenueError::Unsupported("EdgeX place_order".to_string()))
    }

    fn cancel_order(&self, _external_order_id: &str) -> Result<(), VenueError> {
        Err(VenueError::Unsupported("EdgeX cancel_order".to_string()))
    }

    fn get_order(&self, _external_order_id: &str) -> Result<VenueOrder, VenueError> {
        Err(VenueError::Unsupported("EdgeX get_order".to_string()))
    }
}

#[test]
fn executor_registers_all_venues() {
    let mut executor = Executor::new();

    executor.add_venue(Aster::new());
    executor.add_venue(Binance::new());
    executor.add_venue(EdgeX::new());
    executor.add_venue(Okx::new());

    assert_eq!(
        executor.venue_count(),
        4
    );
}

#[test]
fn executor_rejects_empty_plan() {
    let executor = Executor::new();

    let plan =
        ExecutionPlan::new(
            pep_core::pepdex::order::OrderId::new(
                "PARENT-1"
            )
        );

    let result = executor.execute(&plan);

    assert!(matches!(
        result,
        Err(
            ExecutorError::EmptyExecutionPlan
        )
    ));
}

#[test]
fn executor_rejects_unknown_venue() {
    let mut executor = Executor::new();

    executor.add_venue(Aster::new());

    let market =
        MarketId::new("PEP", "USDT");

    let parent = ParentOrder::new(
        "PARENT-1",
        "alice",
        market,
        VenueOrderSide::Buy,
        VenueOrderType::Limit,
        100,
        Some(602),
    );

    let child = ChildOrder::new(
        "CHILD-1",
        &parent,
        VenueId::Binance,
        100,
        Some(602),
    );

    let mut plan =
        ExecutionPlan::new(
            parent.id.clone()
        );

    plan.add_child(child);

    let result = executor.execute(&plan);

    assert!(matches!(
        result,
        Err(
            ExecutorError::VenueNotConfigured(
                VenueId::Binance
            )
        )
    ));
}
