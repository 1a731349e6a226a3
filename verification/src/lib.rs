//! Consensus-critical ledger logic: validator vote tallies and the read side
//! of the IBC validation context.

pub mod ibc;
pub mod order;
pub mod storage;
pub mod votes;
pub mod voting_power;
