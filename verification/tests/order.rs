use pep_core::pepdex::order::{ChildOrder, ExecutionPlan, ParentOrder};

use pep_core::pepdex::market::MarketId;
use pep_core::pepdex::venue::VenueId;
use pep_core::pepdex::risk::OrderConstraints;
use pep_core::pepdex::venue::{
    VenueOrderSide,
    VenueOrderType,
};

fn market() -> MarketId {
    MarketId::new(
        "PEP",
        "USDT",
    )
}

#[test]
fn creates_parent_order() {
    let order =
        ParentOrder::new(
            "ORDER-1",
            "alice",
            market(),
            VenueOrderSide::Buy,
            VenueOrderType::Limit,
            100,
            Some(602),
        );

    assert_eq!(
        order.id.as_str(),
        "ORDER-1"
    );

    assert_eq!(
        order.user,
        "alice"
    );

    assert_eq!(
        order.quantity,
        100
    );

    assert_eq!(
        order.limit_price,
        Some(602)
    );

    assert!(
        order.is_limit_order()
    );

    assert!(
        !order.is_market_order()
    );
}

#[test]
fn constraints_belong_to_parent_order() {
    let constraints =
        OrderConstraints::new()
            .with_max_spend(
                70_000
            )
            .with_max_slippage_bps(
                100
            );

    let order =
        ParentOrder::new(
            "ORDER-2",
            "alice",
            market(),
            VenueOrderSide::Buy,
            VenueOrderType::Market,
            100,
            None,
        )
        .with_constraints(
            constraints
        );

    assert_eq!(
        order.max_spend(),
        Some(70_000)
    );

    assert_eq!(
        order.max_slippage_bps(),
        Some(100)
    );
}

#[test]
fn child_inherits_parent_properties() {
    let parent =
        ParentOrder::new(
            "ORDER-3",
            "alice",
            market(),
            VenueOrderSide::Buy,
            VenueOrderType::Limit,
            100,
            Some(602),
        );

    let child =
        ChildOrder::new(
            "CHILD-1",
            &parent,
            VenueId::Aster,
            40,
            Some(602),
        );

    assert_eq!(
        child.parent_id,
        parent.id
    );

    assert_eq!(
        child.market,
        parent.market
    );

    assert_eq!(
        child.side,
        parent.side
    );

    assert_eq!(
        child.quantity,
        40
    );
}

#[test]
fn execution_plan_tracks_children() {
    let parent =
        ParentOrder::new(
            "ORDER-4",
            "alice",
            market(),
            VenueOrderSide::Buy,
            VenueOrderType::Market,
            100,
            None,
        );

    let child_a =
        ChildOrder::new(
            "CHILD-A",
            &parent,
            VenueId::Aster,
            60,
            None,
        );

    let child_b =
        ChildOrder::new(
            "CHILD-B",
            &parent,
            VenueId::Binance,
            40,
            None,
        );

    let mut plan =
        ExecutionPlan::new(
            parent.id.clone()
        );

    plan.add_child(
        child_a
    );

    plan.add_child(
        child_b
    );

    assert_eq!(
        plan.child_count(),
        2
    );

    assert_eq!(
        plan.total_quantity(),
        100
    );
}
