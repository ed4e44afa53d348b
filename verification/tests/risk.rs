use pep_core::pepdex::risk::{OrderConstraints, RiskEngine, RiskError};

use pep_core::pepdex::market::MarketId;
use pep_core::pepdex::order::ParentOrder;
use pep_core::pepdex::venue::{
    VenueOrderSide,
    VenueOrderType,
};

fn limit_buy() -> ParentOrder {
    ParentOrder::new(
        "ORDER-1",
        "alice",
        MarketId::new(
            "PEP",
            "USDT",
        ),
        VenueOrderSide::Buy,
        VenueOrderType::Limit,
        100,
        Some(600),
    )
}

fn market_buy() -> ParentOrder {
    ParentOrder::new(
        "ORDER-2",
        "alice",
        MarketId::new(
            "PEP",
            "USDT",
        ),
        VenueOrderSide::Buy,
        VenueOrderType::Market,
        100,
        None,
    )
}

#[test]
fn limit_buy_respects_max_spend() {
    let engine =
        RiskEngine::new();

    let order =
        limit_buy();

    let constraints =
        OrderConstraints::new()
            .with_max_spend(60_000);

    engine
        .validate(
            &order,
            &constraints,
        )
        .expect(
            "order should pass"
        );
}

#[test]
fn limit_buy_rejects_excessive_spend() {
    let engine =
        RiskEngine::new();

    let order =
        limit_buy();

    let constraints =
        OrderConstraints::new()
            .with_max_spend(50_000);

    let result =
        engine.validate(
            &order,
            &constraints,
        );

    assert!(matches!(
        result,
        Err(
            RiskError
                ::MaxSpendExceeded { .. }
        )
    ));
}

#[test]
fn market_buy_requires_constraint() {
    let engine =
        RiskEngine::new();

    let order =
        market_buy();

    let constraints =
        OrderConstraints::new();

    let result =
        engine.validate(
            &order,
            &constraints,
        );

    assert!(matches!(
        result,
        Err(
            RiskError
                ::MarketBuyRequiresConstraint
        )
    ));
}

#[test]
fn market_buy_accepts_max_spend() {
    let engine =
        RiskEngine::new();

    let order =
        market_buy();

    let constraints =
        OrderConstraints::new()
            .with_max_spend(
                70_000
            );

    engine
        .validate(
            &order,
            &constraints,
        )
        .expect(
            "market buy should pass"
        );
}

#[test]
fn market_buy_accepts_slippage_limit() {
    let engine =
        RiskEngine::new();

    let order =
        market_buy();

    let constraints =
        OrderConstraints::new()
            .with_max_slippage_bps(
                100
            );

    engine
        .validate(
            &order,
            &constraints,
        )
        .expect(
            "market buy should pass"
        );
}

#[test]
fn execution_cost_cannot_exceed_max_spend() {
    let engine =
        RiskEngine::new();

    let order =
        market_buy();

    let constraints =
        OrderConstraints::new()
            .with_max_spend(
                60_000
            );

    let result =
        engine.validate_execution_cost(
            &order,
            &constraints,
            60_001,
            None,
        );

    assert!(matches!(
        result,
        Err(
            RiskError
                ::ExecutionExceededMaxSpend {
                    ..
                }
        )
    ));
}

#[test]
fn slippage_is_checked() {
    let engine =
        RiskEngine::new();

    let order =
        market_buy();

    let constraints =
        OrderConstraints::new()
            .with_max_slippage_bps(
                100
            );

    /*
     * Reference = 600
     * Maximum = 606
     *
     * Actual = 607
     * => reject
     */
    let result =
        engine.validate_execution_cost(
            &order,
            &constraints,
            60_700,
            Some(600),
        );

    assert!(matches!(
        result,
        Err(
            RiskError
                ::SlippageExceeded {
                    ..
                }
        )
    ));
}

#[test]
fn invalid_slippage_is_rejected() {
    let engine =
        RiskEngine::new();

    let order =
        limit_buy();

    let constraints =
        OrderConstraints::new()
            .with_max_slippage_bps(
                10_001
            );

    let result =
        engine.validate(
            &order,
            &constraints,
        );

    assert!(matches!(
        result,
        Err(
            RiskError::InvalidSlippage
        )
    ));
}
