//! The read side of the IBC validation context: what the IBC handler is told
//! of the clients, connections, channels and packets that the ledger keeps,
//! and of the host chain itself.

pub mod error;
pub mod parameters;
pub mod proto;
pub mod storage;
pub mod text;
pub mod types;
pub mod validation;
