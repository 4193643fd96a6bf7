//! Stored outcomes: the durable record a completed deposit or withdrawal
//! leaves in the transaction cache, and its explicit fixed-width binary
//! encoding for the on-disk cache backend.

use vstd::prelude::*;
use vstd::bytes::lemma_auto_spec_u16_to_from_le_bytes;
use vstd::bytes::lemma_auto_spec_u32_to_from_le_bytes;
use vstd::bytes::lemma_auto_spec_u64_to_from_le_bytes;
use vstd::bytes::spec_u16_to_le_bytes;
use vstd::bytes::spec_u16_from_le_bytes;
use vstd::bytes::spec_u32_to_le_bytes;
use vstd::bytes::spec_u32_from_le_bytes;
use vstd::bytes::spec_u64_to_le_bytes;
use vstd::bytes::spec_u64_from_le_bytes;
use vstd::bytes::u16_from_le_bytes;
use vstd::bytes::u16_to_le_bytes;
use vstd::bytes::u32_from_le_bytes;
use vstd::bytes::u32_to_le_bytes;
use vstd::bytes::u64_from_le_bytes;
use vstd::bytes::u64_to_le_bytes;
use vstd::slice::slice_subrange;
use crate::account::AccountId;
use crate::money::Money;
use crate::tx::TxId;
use crate::tx::incoming::IncomingTx;
use crate::tx::incoming::IncomingTxDetails;

verus! {

/// Where a transaction stands in its lifecycle.
#[derive(Copy, Clone, Debug, PartialEq, Eq, Structural)]
pub enum TxState {
    Complete,
    UnderDispute,
    Resolved,
    ChargedBack,
}

/// The cached outcome of a transaction: the funds-moving event that created
/// it, and where its lifecycle stands now.
#[derive(Copy, Clone, Debug, PartialEq, Eq, Structural)]
pub struct TxDetails {
    pub original_tx: IncomingTx,
    pub state: TxState,
}

impl TxDetails {
    /// A cached outcome always records a funds-moving original event with a
    /// non-negative amount.
    pub open spec fn wf(self) -> bool {
        &&& self.original_tx.wf()
        &&& self.original_tx.details.spec_balance_effect() is Some
    }

    pub open spec fn spec_with_state(self, state: TxState) -> TxDetails {
        TxDetails { original_tx: self.original_tx, state }
    }

    /// The same outcome, moved to a new lifecycle state.
    pub fn with_state(self, state: TxState) -> (r: TxDetails)
        ensures
            r == self.spec_with_state(state),
    {
        TxDetails { original_tx: self.original_tx, state }
    }
}

/// The one-byte tag of an event kind in the binary encoding.
pub open spec fn spec_kind_tag(d: IncomingTxDetails) -> u8 {
    match d {
        IncomingTxDetails::Deposit(_) => 0,
        IncomingTxDetails::Withdrawal(_) => 1,
        IncomingTxDetails::Dispute => 2,
        IncomingTxDetails::Resolve => 3,
        IncomingTxDetails::Chargeback => 4,
    }
}

/// The one-byte tag of a lifecycle state in the binary encoding.
pub open spec fn spec_state_tag(s: TxState) -> u8 {
    match s {
        TxState::Complete => 0,
        TxState::UnderDispute => 1,
        TxState::Resolved => 2,
        TxState::ChargedBack => 3,
    }
}

/// The amount carried by a funds-moving event, in minor units; zero for
/// dispute-lifecycle kinds, which carry none.
pub open spec fn spec_amount_units(d: IncomingTxDetails) -> i64 {
    match d {
        IncomingTxDetails::Deposit(m) => m.units,
        IncomingTxDetails::Withdrawal(m) => m.units,
        _ => 0,
    }
}

/// A signed count of minor units shifted into an unsigned 64-bit word.
pub open spec fn spec_biased(u: i64) -> u64 {
    (u + 0x8000_0000_0000_0000) as u64
}

/// The inverse shift.
pub open spec fn spec_unbiased(w: u64) -> i64 {
    (w - 0x8000_0000_0000_0000) as i64
}

/// The 16-byte block a stored outcome is written as: transaction id,
/// account id, event kind, lifecycle state, and the biased amount, all
/// little-endian.
pub open spec fn spec_encode(d: TxDetails) -> Seq<u8> {
    spec_u32_to_le_bytes(d.original_tx.id.0) + spec_u16_to_le_bytes(d.original_tx.account.0)
        + seq![spec_kind_tag(d.original_tx.details), spec_state_tag(d.state)]
        + spec_u64_to_le_bytes(spec_biased(spec_amount_units(d.original_tx.details)))
}

/// Reads a 16-byte block back, accepting only blocks that decode to a
/// well-formed stored outcome: a deposit or withdrawal original with a
/// non-negative amount and a known lifecycle state.
pub open spec fn spec_decode(b: Seq<u8>) -> Option<TxDetails> {
    if b.len() != 16 {
        None
    } else {
        let id = spec_u32_from_le_bytes(b.subrange(0, 4));
        let account = spec_u16_from_le_bytes(b.subrange(4, 6));
        let kind = b[6];
        let state = b[7];
        let units = spec_unbiased(spec_u64_from_le_bytes(b.subrange(8, 16)));
        if kind <= 1 && state <= 3 && units >= 0 {
            let details = if kind == 0 {
                IncomingTxDetails::Deposit(Money { units })
            } else {
                IncomingTxDetails::Withdrawal(Money { units })
            };
            Some(
                TxDetails {
                    original_tx: IncomingTx {
                        id: TxId(id),
                        account: AccountId(account),
                        details,
                    },
                    state: spec_state_of_tag(state),
                },
            )
        } else {
            None
        }
    }
}

pub open spec fn spec_state_of_tag(t: u8) -> TxState {
    if t == 0 {
        TxState::Complete
    } else if t == 1 {
        TxState::UnderDispute
    } else if t == 2 {
        TxState::Resolved
    } else {
        TxState::ChargedBack
    }
}

/// Decoding undoes encoding on every well-formed stored outcome.
pub proof fn lemma_encode_decode_round_trip(d: TxDetails)
    requires
        d.wf(),
    ensures
        spec_decode(spec_encode(d)) == Some(d),
{
    lemma_auto_spec_u32_to_from_le_bytes();
    lemma_auto_spec_u16_to_from_le_bytes();
    lemma_auto_spec_u64_to_from_le_bytes();
    let e = spec_encode(d);
    assert(e.subrange(0, 4) =~= spec_u32_to_le_bytes(d.original_tx.id.0));
    assert(e.subrange(4, 6) =~= spec_u16_to_le_bytes(d.original_tx.account.0));
    assert(e.subrange(8, 16) =~= spec_u64_to_le_bytes(
        spec_biased(spec_amount_units(d.original_tx.details)),
    ));
    assert(e[6] == spec_kind_tag(d.original_tx.details));
    assert(e[7] == spec_state_tag(d.state));
}

impl TxDetails {
    /// Writes the outcome as its 16-byte block.
    pub fn encode(&self) -> (r: Vec<u8>)
        ensures
            r@ == spec_encode(*self),
    {
        let mut out = u32_to_le_bytes(self.original_tx.id.0);
        let mut acct = u16_to_le_bytes(self.original_tx.account.0);
        out.append(&mut acct);
        let kind: u8 = match self.original_tx.details {
            IncomingTxDetails::Deposit(_) => 0,
            IncomingTxDetails::Withdrawal(_) => 1,
            IncomingTxDetails::Dispute => 2,
            IncomingTxDetails::Resolve => 3,
            IncomingTxDetails::Chargeback => 4,
        };
        out.push(kind);
        let state: u8 = match self.state {
            TxState::Complete => 0,
            TxState::UnderDispute => 1,
            TxState::Resolved => 2,
            TxState::ChargedBack => 3,
        };
        out.push(state);
        let units: i64 = match self.original_tx.details {
            IncomingTxDetails::Deposit(m) => m.units,
            IncomingTxDetails::Withdrawal(m) => m.units,
            _ => 0,
        };
        let biased: u64 = ((units as i128) + 0x8000_0000_0000_0000) as u64;
        proof {
            assert(biased == spec_biased(units));
        }
        let mut amt = u64_to_le_bytes(biased);
        out.append(&mut amt);
        proof {
            assert(out@ =~= spec_encode(*self));
        }
        out
    }

    /// Reads a block back, or nothing when it is not a well-formed
    /// encoding.
    pub fn decode(bytes: &[u8]) -> (r: Option<TxDetails>)
        ensures
            r == spec_decode(bytes@),
    {
        if bytes.len() != 16 {
            return None;
        }
        let id = u32_from_le_bytes(slice_subrange(bytes, 0, 4));
        let account = u16_from_le_bytes(slice_subrange(bytes, 4, 6));
        let kind = *vstd::slice::slice_index_get(bytes, 6);
        let state = *vstd::slice::slice_index_get(bytes, 7);
        let word = u64_from_le_bytes(slice_subrange(bytes, 8, 16));
        let units: i64 = ((word as i128) - 0x8000_0000_0000_0000) as i64;
        proof {
            assert(units == spec_unbiased(word));
        }
        if kind <= 1 && state <= 3 && units >= 0 {
            let details = if kind == 0 {
                IncomingTxDetails::Deposit(Money { units })
            } else {
                IncomingTxDetails::Withdrawal(Money { units })
            };
            let st = if state == 0 {
                TxState::Complete
            } else if state == 1 {
                TxState::UnderDispute
            } else if state == 2 {
                TxState::Resolved
            } else {
                TxState::ChargedBack
            };
            Some(
                TxDetails {
                    original_tx: IncomingTx { id: TxId(id), account: AccountId(account), details },
                    state: st,
                },
            )
        } else {
            None
        }
    }
}

} // verus!
