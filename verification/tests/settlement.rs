use pep_core::pepdex::settlement::{SettlementEngine, SettlementError, SettlementStatus};

use pep_core::pepdex::aggregator::{
    ParentExecution,
    ParentExecutionStatus,
};

use pep_core::pepdex::market::MarketId;
use pep_core::pepdex::order::ParentOrder;
use pep_core::pepdex::venue::VenueOrderSide;

fn buy_order() -> ParentOrder {
    ParentOrder::new(
        "PARENT-BUY",
        "alice",
        MarketId::new(
            "PEP",
            "USDT",
        ),
        VenueOrderSide::Buy,
        pep_core::pepdex::venue::VenueOrderType::Market,
        100,
        None,
    )
}

fn sell_order() -> ParentOrder {
    ParentOrder::new(
        "PARENT-SELL",
        "alice",
        MarketId::new(
            "PEP",
            "USDT",
        ),
        VenueOrderSide::Sell,
        pep_core::pepdex::venue::VenueOrderType::Market,
        100,
        None,
    )
}

fn filled_execution(
    order: &ParentOrder,
) -> ParentExecution {
    ParentExecution {
        parent_order_id:
            order.id.clone(),

        requested_quantity: 100,

        filled_quantity: 100,

        remaining_quantity: 0,

        total_cost: 60_200,

        total_venue_fee: 20,

        average_price:
            Some(602),

        status:
            ParentExecutionStatus::Filled,

        venue_executions:
            Vec::new(),
    }
}

#[test]
fn buy_settlement_credits_base_asset() {
    let order =
        buy_order();

    let execution =
        filled_execution(&order);

    let engine =
        SettlementEngine::new();

    let result = engine
        .settle(
            &order,
            &execution,
        )
        .expect(
            "settlement failed"
        );

    /*
     * BUY:
     *
     * +100 PEP
     * -60,220 USDT
     */
    assert_eq!(
        result.asset,
        "PEP"
    );

    assert_eq!(
        result.quote_asset,
        "USDT"
    );

    assert_eq!(
        result.asset_delta,
        100
    );

    assert_eq!(
        result.quote_delta,
        -60_220
    );

    assert_eq!(
        result.status,
        SettlementStatus::Settled
    );
}

#[test]
fn sell_settlement_credits_quote_asset() {
    let order =
        sell_order();

    let execution =
        filled_execution(&order);

    let engine =
        SettlementEngine::new();

    let result = engine
        .settle(
            &order,
            &execution,
        )
        .expect(
            "settlement failed"
        );

    /*
     * SELL:
     *
     * -100 PEP
     * +60,180 USDT
     */
    assert_eq!(
        result.asset_delta,
        -100
    );

    assert_eq!(
        result.quote_delta,
        60_180
    );

    assert_eq!(
        result.status,
        SettlementStatus::Settled
    );
}

#[test]
fn partial_execution_is_partially_settled() {
    let order =
        buy_order();

    let execution =
        ParentExecution {
            parent_order_id:
                order.id.clone(),

            requested_quantity: 100,

            filled_quantity: 60,

            remaining_quantity: 40,

            total_cost: 36_120,

            total_venue_fee: 12,

            average_price:
                Some(602),

            status:
                ParentExecutionStatus
                    ::PartiallyFilled,

            venue_executions:
                Vec::new(),
        };

    let engine =
        SettlementEngine::new();

    let result = engine
        .settle(
            &order,
            &execution,
        )
        .expect(
            "settlement failed"
        );

    assert_eq!(
        result.asset_delta,
        60
    );

    assert_eq!(
        result.quote_delta,
        -36_132
    );

    assert_eq!(
        result.status,
        SettlementStatus
            ::PartiallySettled
    );
}

#[test]
fn pending_execution_cannot_settle() {
    let order =
        buy_order();

    let execution =
        ParentExecution {
            parent_order_id:
                order.id.clone(),

            requested_quantity: 100,

            filled_quantity: 50,

            remaining_quantity: 50,

            total_cost: 30_100,

            total_venue_fee: 10,

            average_price:
                Some(602),

            status:
                ParentExecutionStatus
                    ::Executing,

            venue_executions:
                Vec::new(),
        };

    let engine =
        SettlementEngine::new();

    let result = engine
        .settle(
            &order,
            &execution,
        );

    assert!(matches!(
        result,
        Err(
            SettlementError
                ::InvalidExecutionState
        )
    ));
}
