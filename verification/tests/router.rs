use pep_core::pepdex::router::{Router, RouterError};

use pep_core::pepdex::market::MarketId;
use pep_core::pepdex::order::ParentOrder;
use pep_core::pepdex::orderbook::{
    AggregatedLevel,
    AggregatedOrderBook,
    LiquiditySource,
};
use pep_core::pepdex::venue::{
    VenueId,
    VenueOrderSide,
    VenueOrderType,
};

fn test_book()
    -> AggregatedOrderBook
{
    let market =
        MarketId::new(
            "PEP",
            "USDT"
        );

    AggregatedOrderBook {
        market,

        bids: vec![
            AggregatedLevel {
                price: 599,
                quantity: 50,
                sources: vec![
                    LiquiditySource {
                        venue:
                            VenueId::Aster,
                        quantity: 30,
                    },

                    LiquiditySource {
                        venue:
                            VenueId::Binance,
                        quantity: 20,
                    },
                ],
            },
        ],

        asks: vec![
            AggregatedLevel {
                price: 602,
                quantity: 60,
                sources: vec![
                    LiquiditySource {
                        venue:
                            VenueId::Aster,
                        quantity: 20,
                    },

                    LiquiditySource {
                        venue:
                            VenueId::Binance,
                        quantity: 40,
                    },
                ],
            },

            AggregatedLevel {
                price: 603,
                quantity: 35,
                sources: vec![
                    LiquiditySource {
                        venue:
                            VenueId::EdgeX,
                        quantity: 35,
                    },
                ],
            },

            AggregatedLevel {
                price: 604,
                quantity: 55,
                sources: vec![
                    LiquiditySource {
                        venue:
                            VenueId::Okx,
                        quantity: 55,
                    },
                ],
            },
        ],

        timestamp_ms: 0,
    }
}

#[test]
fn buy_order_is_split_across_venues()
{
    let market =
        MarketId::new(
            "PEP",
            "USDT"
        );

    let order =
        ParentOrder::new(
            "ORDER-1",
            "alice",
            market,
            VenueOrderSide::Buy,
            VenueOrderType::Market,
            100,
            None,
        );

    let book =
        test_book();

    let router =
        Router::new();

    let plan = router
        .route(
            &order,
            &book
        )
        .expect(
            "routing failed"
        );

    /*
     * 60 @ 602
     *   Aster   20
     *   Binance 40
     *
     * 35 @ 603
     *   EdgeX 35
     *
     * Remaining 5 @ 604
     *   OKX 5
     */

    assert_eq!(
        plan.total_quantity(),
        100
    );

    assert_eq!(
        plan.child_count(),
        4
    );

    assert_eq!(
        plan.children[0].venue,
        VenueId::Aster
    );

    assert_eq!(
        plan.children[0].quantity,
        20
    );

    assert_eq!(
        plan.children[1].venue,
        VenueId::Binance
    );

    assert_eq!(
        plan.children[1].quantity,
        40
    );

    assert_eq!(
        plan.children[2].venue,
        VenueId::EdgeX
    );

    assert_eq!(
        plan.children[2].quantity,
        35
    );

    assert_eq!(
        plan.children[3].venue,
        VenueId::Okx
    );

    assert_eq!(
        plan.children[3].quantity,
        5
    );
}

#[test]
fn sell_order_uses_bids()
{
    let market =
        MarketId::new(
            "PEP",
            "USDT"
        );

    let order =
        ParentOrder::new(
            "ORDER-2",
            "alice",
            market,
            VenueOrderSide::Sell,
            VenueOrderType::Market,
            50,
            None,
        );

    let book =
        test_book();

    let router =
        Router::new();

    let plan = router
        .route(
            &order,
            &book
        )
        .expect(
            "routing failed"
        );

    assert_eq!(
        plan.total_quantity(),
        50
    );

    assert_eq!(
        plan.child_count(),
        2
    );

    assert_eq!(
        plan.children[0].venue,
        VenueId::Aster
    );

    assert_eq!(
        plan.children[0].quantity,
        30
    );

    assert_eq!(
        plan.children[1].venue,
        VenueId::Binance
    );

    assert_eq!(
        plan.children[1].quantity,
        20
    );
}

#[test]
fn limit_order_respects_price()
{
    let market =
        MarketId::new(
            "PEP",
            "USDT"
        );

    let order =
        ParentOrder::new(
            "ORDER-3",
            "alice",
            market,
            VenueOrderSide::Buy,
            VenueOrderType::Limit,
            100,
            Some(603),
        );

    let book =
        test_book();

    let router =
        Router::new();

    let plan = router
        .route(
            &order,
            &book
        )
        .expect(
            "routing failed"
        );

    /*
     * 60 @ 602
     * 35 @ 603
     *
     * Total = 95
     *
     * 604 is above the 603 limit,
     * therefore it must NOT be routed.
     */
    assert_eq!(
        plan.total_quantity(),
        95
    );

    assert_eq!(
        plan.child_count(),
        3
    );
}

#[test]
fn rejects_when_no_liquidity()
{
    let market =
        MarketId::new(
            "PEP",
            "USDT"
        );

    let order =
        ParentOrder::new(
            "ORDER-4",
            "alice",
            market,
            VenueOrderSide::Buy,
            VenueOrderType::Market,
            1,
            None,
        );

    let mut book =
        test_book();

    book.asks.clear();

    let router =
        Router::new();

    let result =
        router.route(
            &order,
            &book
        );

    assert!(matches!(
        result,
        Err(
            RouterError::NoLiquidity
        )
    ));
}
