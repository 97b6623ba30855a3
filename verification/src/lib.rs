//! Lifecycle of a time-boxed auction whose authoritative state lives on an
//! append-only ledger.
//!
//! The crate covers the pure core of a ledger client: the wire format of
//! auction commands, the lifecycle rules that say which command is legal
//! when, the resolution of the highest bid, the replay of ledger events into
//! an [`model::Auction`] snapshot, and the decisions of the submission
//! pipeline. Talking to the ledger itself is left to the caller.

pub mod auction;
pub mod model;
pub mod framing;
pub mod gaps;
pub mod lifecycle;
pub mod order;
pub mod pipeline;
pub mod reconcile;
pub mod resolver;
mod trusted;
pub mod wire;

