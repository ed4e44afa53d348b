//! Proof of work: the difficulty schedule and the hash check.
pub mod difficulty;
pub mod pow;
