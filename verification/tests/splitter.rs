use pep_core::pepdex::splitter::{Splitter, SplitterError};

use pep_core::pepdex::market::{
    Market,
};
use pep_core::pepdex::order::{
    ChildOrder,
    ExecutionPlan,
    ParentOrder,
};
use pep_core::pepdex::venue::{
    VenueId,
    VenueOrderSide,
    VenueOrderType,
};

fn parent_order() -> ParentOrder {
    ParentOrder::new(
        "PARENT-1",
        "alice",
        pep_core::pepdex::market::MarketId::new(
            "PEP",
            "USDT",
        ),
        VenueOrderSide::Buy,
        VenueOrderType::Limit,
        100,
        Some(603),
    )
}

#[test]
fn quantity_is_rounded_down_to_lot_size() {
    let parent = parent_order();

    let child = ChildOrder::new(
        "CHILD-1",
        &parent,
        VenueId::Aster,
        107,
        Some(603),
    );

    let mut plan =
        ExecutionPlan::new(parent.id.clone());

    plan.add_child(child);

    let mut market = Market::new(
        "PEP",
        "USDT",
    );

    market.lot_size = 10;
    market.tick_size = 1;

    let splitter = Splitter::new();

    let result = splitter
        .split(&plan, &market)
        .expect("split failed");

    assert_eq!(
        result.children.len(),
        1
    );

    assert_eq!(
        result.children[0].quantity,
        100
    );
}

#[test]
fn price_is_rounded_down_to_tick_size() {
    let parent = parent_order();

    let child = ChildOrder::new(
        "CHILD-1",
        &parent,
        VenueId::Aster,
        100,
        Some(6037),
    );

    let mut plan =
        ExecutionPlan::new(parent.id.clone());

    plan.add_child(child);

    let mut market = Market::new(
        "PEP",
        "USDT",
    );

    market.lot_size = 1;
    market.tick_size = 10;

    let splitter = Splitter::new();

    let result = splitter
        .split(&plan, &market)
        .expect("split failed");

    assert_eq!(
        result.children[0].price,
        Some(6030)
    );
}

#[test]
fn quantity_below_lot_size_is_rejected() {
    let parent = parent_order();

    let child = ChildOrder::new(
        "CHILD-1",
        &parent,
        VenueId::Aster,
        5,
        Some(603),
    );

    let mut plan =
        ExecutionPlan::new(parent.id.clone());

    plan.add_child(child);

    let mut market = Market::new(
        "PEP",
        "USDT",
    );

    market.lot_size = 10;

    let splitter = Splitter::new();

    let result =
        splitter.split(&plan, &market);

    assert!(matches!(
        result,
        Err(
            SplitterError::QuantityBelowLotSize {
                ..
            }
        )
    ));
}

#[test]
fn market_order_does_not_require_price() {
    let mut parent = ParentOrder::new(
        "PARENT-2",
        "alice",
        pep_core::pepdex::market::MarketId::new(
            "PEP",
            "USDT",
        ),
        VenueOrderSide::Buy,
        VenueOrderType::Market,
        100,
        None,
    );

    parent.limit_price = None;

    let child = ChildOrder::new(
        "CHILD-1",
        &parent,
        VenueId::Binance,
        100,
        None,
    );

    let mut plan =
        ExecutionPlan::new(parent.id.clone());

    plan.add_child(child);

    let mut market = Market::new(
        "PEP",
        "USDT",
    );

    market.lot_size = 10;

    let splitter = Splitter::new();

    let result = splitter
        .split(&plan, &market)
        .expect("split failed");

    assert_eq!(
        result.children[0].quantity,
        100
    );

    assert_eq!(
        result.children[0].price,
        None
    );
}

#[test]
fn inactive_market_is_rejected() {
    let parent = parent_order();

    let child = ChildOrder::new(
        "CHILD-1",
        &parent,
        VenueId::Aster,
        100,
        Some(603),
    );

    let mut plan =
        ExecutionPlan::new(parent.id.clone());

    plan.add_child(child);

    let mut market = Market::new(
        "PEP",
        "USDT",
    );

    market.status =
        pep_core::pepdex::market::MarketStatus::Offline;

    let splitter = Splitter::new();

    let result =
        splitter.split(&plan, &market);

    assert!(matches!(
        result,
        Err(SplitterError::MarketInactive)
    ));
}
