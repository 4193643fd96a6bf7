//! Replay of an ordered stream of financial transaction events against
//! per-client accounts: the account state machine, the transaction cache
//! that remembers each transaction's outcome, and the ledger that routes
//! events between the two.

pub mod account;
pub mod bank;
pub mod digits;
pub mod io;
pub mod money;
pub mod tx;
pub mod util;

pub use crate::money::Money;
