//! A governance ledger: proposals are created, voted on once per identity and
//! closed by their owner; every record lives in a durable table keyed by an
//! integer.

pub mod codec;
pub mod laws;
pub mod proposal;
pub mod service;
pub mod store;
pub mod table;

pub use proposal::{Choice, Proposal, VoteError};
pub use service::ProposalService;
pub use store::ProposalStore;
