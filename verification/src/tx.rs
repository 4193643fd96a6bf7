//! Transactions: the identifier that keys the cache, incoming events, and
//! the stored outcome a completed transaction leaves behind.

use vstd::prelude::*;

pub mod incoming;
pub mod stored;

verus! {

/// Identifies a transaction, globally unique across all clients.
#[derive(Clone, Copy, Hash, PartialEq, Eq, Debug, Structural)]
pub struct TxId(pub u32);

} // verus!
