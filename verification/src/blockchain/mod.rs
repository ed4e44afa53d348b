//! The PEP chain: assets, transactions, blocks, state and consensus.
pub mod hash;
pub mod asset;
pub mod transaction;
pub mod block_header;
pub mod merkle;
pub mod block;
pub mod state;
pub mod executor;
pub mod genesis;
pub mod mempool;
pub mod consensus;
pub mod admission;
pub mod blockchain;
pub mod node;
pub mod network;
pub mod storage;
