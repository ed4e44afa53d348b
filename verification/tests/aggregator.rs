use pep_core::pepdex::aggregator::{AggregatorError, ExecutionAggregator, ParentExecutionStatus};
use pep_core::pepdex::order::OrderId;

use pep_core::pepdex::execution::{
    Execution,
    ExecutionStatus,
};
use pep_core::pepdex::market::MarketId;
use pep_core::pepdex::order::ParentOrder;
use pep_core::pepdex::venue::{
    VenueId,
    VenueOrderSide,
    VenueOrderType,
};

fn parent() -> ParentOrder {
    ParentOrder::new(
        "PARENT-1",
        "alice",
        MarketId::new(
            "PEP",
            "USDT",
        ),
        VenueOrderSide::Buy,
        VenueOrderType::Market,
        100,
        None,
    )
}

#[test]
fn aggregates_multiple_venues() {
    let parent = parent();

    let executions = vec![
        Execution {
            child_order_id:
                OrderId::new("CHILD-A"),

            parent_order_id:
                parent.id.clone(),

            venue:
                VenueId::Aster,

            requested_quantity: 20,
            filled_quantity: 20,
            remaining_quantity: 0,

            average_price:
                Some(602),

            venue_fee: 1,

            status:
                ExecutionStatus::Filled,

            external_order_id:
                Some("A-1".into()),
        },

        Execution {
            child_order_id:
                OrderId::new("CHILD-B"),

            parent_order_id:
                parent.id.clone(),

            venue:
                VenueId::Binance,

            requested_quantity: 40,
            filled_quantity: 40,
            remaining_quantity: 0,

            average_price:
                Some(602),

            venue_fee: 2,

            status:
                ExecutionStatus::Filled,

            external_order_id:
                Some("B-1".into()),
        },

        Execution {
            child_order_id:
                OrderId::new("CHILD-C"),

            parent_order_id:
                parent.id.clone(),

            venue:
                VenueId::EdgeX,

            requested_quantity: 35,
            filled_quantity: 35,
            remaining_quantity: 0,

            average_price:
                Some(603),

            venue_fee: 2,

            status:
                ExecutionStatus::Filled,

            external_order_id:
                Some("E-1".into()),
        },

        Execution {
            child_order_id:
                OrderId::new("CHILD-D"),

            parent_order_id:
                parent.id.clone(),

            venue:
                VenueId::Okx,

            requested_quantity: 5,
            filled_quantity: 5,
            remaining_quantity: 0,

            average_price:
                Some(604),

            venue_fee: 1,

            status:
                ExecutionStatus::Filled,

            external_order_id:
                Some("O-1".into()),
        },
    ];

    let aggregator =
        ExecutionAggregator::new();

    let result = aggregator
        .aggregate(
            &parent,
            &executions
        )
        .expect(
            "aggregation failed"
        );

    assert_eq!(
        result.requested_quantity,
        100
    );

    assert_eq!(
        result.filled_quantity,
        100
    );

    assert_eq!(
        result.remaining_quantity,
        0
    );

    assert_eq!(
        result.total_venue_fee,
        6
    );

    /*
     * Total cost:
     *
     * 20 × 602 = 12040
     * 40 × 602 = 24080
     * 35 × 603 = 21105
     *  5 × 604 =  3020
     *
     * total = 60245
     *
     * average = 602
     */
    assert_eq!(
        result.total_cost,
        60245
    );

    assert_eq!(
        result.average_price,
        Some(602)
    );

    assert_eq!(
        result.status,
        ParentExecutionStatus::Filled
    );

    assert_eq!(
        result.venue_executions.len(),
        4
    );
}

#[test]
fn detects_partial_execution() {
    let parent = parent();

    let executions = vec![
        Execution {
            child_order_id:
                OrderId::new("CHILD-A"),

            parent_order_id:
                parent.id.clone(),

            venue:
                VenueId::Aster,

            requested_quantity: 60,
            filled_quantity: 60,
            remaining_quantity: 0,

            average_price:
                Some(602),

            venue_fee: 1,

            status:
                ExecutionStatus::Filled,

            external_order_id:
                Some("A-1".into()),
        },

        Execution {
            child_order_id:
                OrderId::new("CHILD-B"),

            parent_order_id:
                parent.id.clone(),

            venue:
                VenueId::Binance,

            requested_quantity: 40,
            filled_quantity: 20,
            remaining_quantity: 20,

            average_price:
                Some(603),

            venue_fee: 1,

            status:
                ExecutionStatus::PartiallyFilled,

            external_order_id:
                Some("B-1".into()),
        },

    ];

    let aggregator =
        ExecutionAggregator::new();

    let result = aggregator
        .aggregate(
            &parent,
            &executions
        )
        .expect(
            "aggregation failed"
        );

    assert_eq!(
        result.filled_quantity,
        80
    );

    assert_eq!(
        result.remaining_quantity,
        20
    );

    assert_eq!(
        result.status,
        ParentExecutionStatus::PartiallyFilled
    );
}

#[test]
fn rejects_wrong_parent() {
    let parent = parent();

    let other_parent =
        ParentOrder::new(
            "OTHER",
            "bob",
            MarketId::new(
                "PEP",
                "USDT",
            ),
            VenueOrderSide::Buy,
            VenueOrderType::Market,
            100,
            None,
        );

    let execution = Execution {
        child_order_id:
            OrderId::new("CHILD-X"),

        parent_order_id:
            other_parent.id.clone(),

        venue:
            VenueId::Aster,

        requested_quantity: 100,
        filled_quantity: 100,
        remaining_quantity: 0,

        average_price:
            Some(602),

        venue_fee: 1,

        status:
            ExecutionStatus::Filled,

        external_order_id:
            Some("X-1".into()),
    };

    let aggregator =
        ExecutionAggregator::new();

    let result = aggregator.aggregate(
        &parent,
        &[execution]
    );

    assert!(matches!(
        result,
        Err(
            AggregatorError::ParentOrderMismatch
        )
    ));
}

fn filled(parent: &ParentOrder, child: &str, requested: u64, filled: u64, price: u64) -> Execution {
    Execution {
        child_order_id: OrderId::new(child),
        parent_order_id: parent.id.clone(),
        venue: VenueId::Aster,
        requested_quantity: requested,
        filled_quantity: filled,
        remaining_quantity: requested - filled,
        average_price: Some(price),
        venue_fee: 0,
        status: ExecutionStatus::Filled,
        external_order_id: Some(format!("{}-X", child)),
    }
}

#[test]
fn smaller_plan_is_a_partial_execution() {
    let parent = parent();
    let executions = vec![filled(&parent, "C-1", 60, 60, 602), filled(&parent, "C-2", 35, 35, 603)];
    let result = ExecutionAggregator::new().aggregate(&parent, &executions).unwrap();
    assert_eq!(result.requested_quantity, 100);
    assert_eq!(result.filled_quantity, 95);
    assert_eq!(result.remaining_quantity, 5);
    assert_eq!(result.total_cost, 57_225);
    assert_eq!(result.average_price, Some(602));
    assert_eq!(result.status, ParentExecutionStatus::PartiallyFilled);
}

#[test]
fn executions_beyond_the_order_are_refused() {
    let parent = parent();
    let executions = vec![filled(&parent, "C-1", 60, 60, 602), filled(&parent, "C-2", 50, 50, 603)];
    let result = ExecutionAggregator::new().aggregate(&parent, &executions);
    assert!(matches!(
        result,
        Err(AggregatorError::RequestedQuantityMismatch { order_quantity: 100, execution_quantity: 110 })
    ));
}
