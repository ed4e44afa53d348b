//! Core of the PEP chain and of the PEPDEX order-routing engine.
pub mod assoc;
pub mod blockchain;
pub mod clock;
pub mod pepdex;
pub mod text;
pub mod wallet;
