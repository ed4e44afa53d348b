use pep_core::pepdex::reconciliation::{ReconciliationRecord, ReconciliationStatus, compare_execution};
use pep_core::pepdex::order::{ChildOrder, OrderId};
use pep_core::pepdex::venue::VenueId;

use pep_core::pepdex::execution::{
    Execution,
    ExecutionStatus,
};

#[test]
fn new_record_is_unknown() {
    let child = ChildOrder {
        id:
            OrderId::new(
                "CHILD-1"
            ),

        parent_id:
            OrderId::new(
                "PARENT-1"
            ),

        venue:
            VenueId::Aster,

        market:
            pep_core::pepdex::market
                ::MarketId::new(
                    "PEP",
                    "USDT",
                ),

        side:
            pep_core::pepdex::venue
                ::VenueOrderSide::Buy,

        order_type:
            pep_core::pepdex::venue
                ::VenueOrderType::Market,

        quantity: 100,

        price: None,

        client_order_id:
            "PEPDEX-CHILD-1"
                .to_string(),

        timestamp_ms: 0,

        status:
            pep_core::pepdex::order
                ::ChildOrderStatus
                ::Pending,
    };

    let record =
        ReconciliationRecord::new(
            &child,
            "ASTER-123",
        );

    assert_eq!(
        record.status,
        ReconciliationStatus::Unknown
    );

    assert_eq!(
        record.external_order_id,
        "ASTER-123"
    );
}

#[test]
fn detects_new_fill() {
    let previous =
        Execution {
            child_order_id:
                OrderId::new(
                    "CHILD"
                ),

            parent_order_id:
                OrderId::new(
                    "PARENT"
                ),

            venue:
                VenueId::Aster,

            requested_quantity:
                100,

            filled_quantity:
                20,

            remaining_quantity:
                80,

            average_price:
                Some(600),

            venue_fee: 1,

            status:
                ExecutionStatus
                    ::PartiallyFilled,

            external_order_id:
                Some(
                    "A-1".into()
                ),
        };

    let current =
        Execution {
            child_order_id:
                previous
                    .child_order_id
                    .clone(),

            parent_order_id:
                previous
                    .parent_order_id
                    .clone(),

            venue:
                VenueId::Aster,

            requested_quantity:
                100,

            filled_quantity:
                60,

            remaining_quantity:
                40,

            average_price:
                Some(601),

            venue_fee: 2,

            status:
                ExecutionStatus
                    ::PartiallyFilled,

            external_order_id:
                Some(
                    "A-1".into()
                ),
        };

    assert_eq!(
        compare_execution(
            &previous,
            &current,
        ),
        ReconciliationStatus::Updated
    );
}

#[test]
fn detects_conflicting_lower_fill() {
    let previous =
        Execution {
            child_order_id:
                OrderId::new(
                    "CHILD"
                ),

            parent_order_id:
                OrderId::new(
                    "PARENT"
                ),

            venue:
                VenueId::Aster,

            requested_quantity:
                100,

            filled_quantity:
                60,

            remaining_quantity:
                40,

            average_price:
                Some(600),

            venue_fee: 1,

            status:
                ExecutionStatus
                    ::PartiallyFilled,

            external_order_id:
                Some(
                    "A-1".into()
                ),
        };

    let current =
        Execution {
            child_order_id:
                previous
                    .child_order_id
                    .clone(),

            parent_order_id:
                previous
                    .parent_order_id
                    .clone(),

            venue:
                VenueId::Aster,

            requested_quantity:
                100,

            filled_quantity:
                20,

            remaining_quantity:
                80,

            average_price:
                Some(600),

            venue_fee: 1,

            status:
                ExecutionStatus
                    ::PartiallyFilled,

            external_order_id:
                Some(
                    "A-1".into()
                ),
        };

    assert_eq!(
        compare_execution(
            &previous,
            &current,
        ),
        ReconciliationStatus::Conflict
    );
}

#[test]
fn detects_same_state() {
    let execution =
        Execution {
            child_order_id:
                OrderId::new(
                    "CHILD"
                ),

            parent_order_id:
                OrderId::new(
                    "PARENT"
                ),

            venue:
                VenueId::Aster,

            requested_quantity:
                100,

            filled_quantity:
                100,

            remaining_quantity:
                0,

            average_price:
                Some(602),

            venue_fee: 1,

            status:
                ExecutionStatus
                    ::Filled,

            external_order_id:
                Some(
                    "A-1".into()
                ),
        };

    assert_eq!(
        compare_execution(
            &execution,
            &execution,
        ),
        ReconciliationStatus::Matched
    );
}
