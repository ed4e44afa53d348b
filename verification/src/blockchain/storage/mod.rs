//! The formats of the node's files: the chain, one block text per line; the
//! metadata; and the state.
pub mod chain_store;
pub mod metadata_store;
pub mod state_store;
