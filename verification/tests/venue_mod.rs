use pep_core::pepdex::venue::{OrderBookLevel};
use pep_core::pepdex::market::Market;

#[test]
fn orderbook_level_keeps_fixed_point_values() {
    let level =
        OrderBookLevel::new(
            6_519_025,
            142_000,
        );

    assert_eq!(
        level.price,
        6_519_025
    );

    assert_eq!(
        level.quantity,
        142_000
    );

    assert!(!level.is_empty());
}

#[test]
fn empty_orderbook_level_is_detected() {
    let level =
        OrderBookLevel::new(
            6_519_025,
            0,
        );

    assert!(level.is_empty());
}

#[test]
fn market_precision_defines_interpretation() {
    let market =
        Market::with_precision(
            "BTC",
            "USDT",
            2,
            6,
        );

    assert_eq!(
        market.price_multiplier(),
        100
    );

    assert_eq!(
        market.quantity_multiplier(),
        1_000_000
    );

    let level =
        OrderBookLevel::new(
            6_519_025,
            142_000,
        );

    assert_eq!(
        level.price / market.price_multiplier(),
        65_190
    );

    assert_eq!(
        level.quantity,
        142_000
    );
}
