//! Consensus-critical core of a federated e-cash mint: a canonical binary
//! encoding, the transaction model, and the funding and authorization checks
//! that decide whether a transaction is accepted.

pub mod encoding;
pub mod sequence;
pub mod ledger;
pub mod amount;
pub mod keys;
pub mod sums;
pub mod coins;
pub mod hash;
pub mod pegin;
pub mod transaction;
pub mod funding;
pub mod authorization;

pub use amount::{Amount, FeeConsensus};
pub use coins::{Coin, Coins};
pub use encoding::{Decodable, DecodeError, Encodable};
pub use hash::TransactionId;
pub use pegin::PegInProof;
