use pep_core::pepdex::execution::{Execution, ExecutionStatus, ExecutionTracker, ExecutionUpdate};

use pep_core::pepdex::market::MarketId;
use pep_core::pepdex::order::{
    ChildOrder,
    OrderId,
    ParentOrder,
};
use pep_core::pepdex::venue::{
    VenueId,
    VenueOrderSide,
    VenueOrderStatus,
    VenueOrderType,
};

fn child_order() -> ChildOrder {
    let parent = ParentOrder::new(
        "PARENT-1",
        "alice",
        MarketId::new(
            "PEP",
            "USDT",
        ),
        VenueOrderSide::Buy,
        VenueOrderType::Limit,
        100,
        Some(602),
    );

    ChildOrder::new(
        "CHILD-1",
        &parent,
        VenueId::Aster,
        100,
        Some(602),
    )
}

#[test]
fn creates_pending_execution() {
    let child =
        child_order();

    let execution =
        Execution::from_child_order(
            &child
        );

    assert_eq!(
        execution.requested_quantity,
        100
    );

    assert_eq!(
        execution.filled_quantity,
        0
    );

    assert_eq!(
        execution.remaining_quantity,
        100
    );

    assert_eq!(
        execution.status,
        ExecutionStatus::Pending
    );
}

#[test]
fn update_partial_fill() {
    let child =
        child_order();

    let mut execution =
        Execution::from_child_order(
            &child
        );

    let update =
        ExecutionUpdate {
            child_order_id:
                child.id.clone(),

            filled_quantity: 40,

            average_price:
                Some(602),

            venue_fee: 2,

            status:
                ExecutionStatus::PartiallyFilled,

            external_order_id:
                Some(
                    "ASTER-123"
                        .to_string()
                ),
        };

    update
        .apply_to(&mut execution)
        .expect(
            "execution update failed"
        );

    assert_eq!(
        execution.filled_quantity,
        40
    );

    assert_eq!(
        execution.remaining_quantity,
        60
    );

    assert_eq!(
        execution.average_price,
        Some(602)
    );

    assert_eq!(
        execution.venue_fee,
        2
    );

    assert_eq!(
        execution.status,
        ExecutionStatus::PartiallyFilled
    );

    assert_eq!(
        execution.external_order_id
            .as_deref(),
        Some("ASTER-123")
    );
}

#[test]
fn tracker_aggregates_fills() {
    let child =
        child_order();

    let mut tracker =
        ExecutionTracker::new();

    tracker.add(
        Execution {
            child_order_id:
                child.id.clone(),

            parent_order_id:
                child.parent_id.clone(),

            venue:
                VenueId::Aster,

            requested_quantity:
                100,

            filled_quantity:
                60,

            remaining_quantity:
                40,

            average_price:
                Some(602),

            venue_fee:
                2,

            status:
                ExecutionStatus::PartiallyFilled,

            external_order_id:
                Some(
                    "A-1".to_string()
                ),
        }
    );

    assert_eq!(
        tracker.requested_quantity(),
        100
    );

    assert_eq!(
        tracker.filled_quantity(),
        60
    );

    assert_eq!(
        tracker.remaining_quantity(),
        40
    );

    assert_eq!(
        tracker.total_venue_fee(),
        2
    );
}

#[test]
fn venue_status_mapping() {
    assert_eq!(
        ExecutionStatus::from_venue_status(
            VenueOrderStatus::New
        ),
        ExecutionStatus::Submitted
    );

    assert_eq!(
        ExecutionStatus::from_venue_status(
            VenueOrderStatus::PartiallyFilled
        ),
        ExecutionStatus::PartiallyFilled
    );

    assert_eq!(
        ExecutionStatus::from_venue_status(
            VenueOrderStatus::Filled
        ),
        ExecutionStatus::Filled
    );

    assert_eq!(
        ExecutionStatus::from_venue_status(
            VenueOrderStatus::Cancelled
        ),
        ExecutionStatus::Cancelled
    );
}

#[test]
fn tracker_get_mut_changes_in_place() {
    let child = child_order();
    let mut tracker = ExecutionTracker::new();
    tracker.add(Execution::from_child_order(&child));
    assert!(tracker.get_mut(&OrderId::new("CHILD-404")).is_none());
    {
        let execution = tracker.get_mut(&child.id).unwrap();
        execution.venue_fee = 7;
    }
    assert_eq!(tracker.total_venue_fee(), 7);
    assert_eq!(tracker.get(&child.id).unwrap().venue_fee, 7);
}
