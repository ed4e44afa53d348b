use pep_core::pepdex::balance::BalanceError;
use pep_core::pepdex::executor::ExecutorError;
use pep_core::pepdex::market::MarketId;
use pep_core::pepdex::order::OrderId;
use pep_core::pepdex::order_manager::OrderManagerError;
use pep_core::pepdex::reservation::ReservationError;
use pep_core::pepdex::risk::RiskError;
use pep_core::pepdex::router::RouterError;
use pep_core::pepdex::splitter::SplitterError;
use pep_core::pepdex::venue::{VenueError, VenueId};

#[test]
fn balance_error_text_matches_debug() {
    let e = BalanceError::InsufficientAvailable { asset: "USDT".to_string(), available: -5, requested: 101 };
    assert_eq!(e.text(), "InsufficientAvailable { asset: \"USDT\", available: -5, requested: 101 }");
    assert_eq!(e.text(), format!("{:?}", e));
    let e = BalanceError::InsufficientLocked { asset: "a\"b".to_string(), locked: i128::MIN, requested: 7 };
    assert_eq!(e.text(), format!("{:?}", e));
    let e = ReservationError::Balance(BalanceError::Overflow);
    assert_eq!(e.text(), "Balance(Overflow)");
}

#[test]
fn pipeline_error_texts_match_debug() {
    let e = RiskError::SlippageExceeded { reference_price: 600, execution_price: 612, maximum_price: 606 };
    assert_eq!(e.text(), format!("{:?}", e));
    let e = RouterError::MarketMismatch {
        order_market: MarketId::new("PEP", "USDT"),
        book_market: MarketId::new("BTC", "USDT"),
    };
    assert_eq!(e.text(), format!("{:?}", e));
    let e = SplitterError::QuantityBelowLotSize { venue: VenueId::Aster, quantity: 5, lot_size: 10 };
    assert_eq!(e.text(), "QuantityBelowLotSize { venue: Aster, quantity: 5, lot_size: 10 }");
    let e = ExecutorError::AllChildrenFailed(vec![
        ExecutorError::VenueExecutionFailed {
            venue: VenueId::Binance,
            child_order_id: OrderId::new("P-1"),
            error: VenueError::Network("timeout\n".to_string()),
        },
        ExecutorError::VenueNotConfigured(VenueId::Okx),
    ]);
    assert_eq!(e.text(), format!("{:?}", e));
    let e = OrderManagerError::MarketData(VenueError::Internal("No market-data venues configured".to_string()));
    assert_eq!(e.text(), "MarketData(Internal(\"No market-data venues configured\"))");
    assert_eq!(e.text(), format!("{:?}", e));
}
