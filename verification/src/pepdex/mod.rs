//! PEPDEX: routes user orders across external venues and settles them.
pub mod market;
pub mod order;
pub mod orderbook;
pub mod market_data;
pub mod api;
pub mod executor;
pub mod order_manager;
pub mod order_store;
pub mod order_journal;
pub mod state;
pub mod simulation;
pub mod risk;
pub mod venue;
pub mod execution;
pub mod aggregator;
pub mod settlement;
pub mod balance;
pub mod reservation;
pub mod splitter;
pub mod router;
pub mod reconciliation;
pub mod error_text;
