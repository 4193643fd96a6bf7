//! Per-client account state, and the one operation that decides and applies
//! the effect of a single incoming event.

use vstd::prelude::*;
use crate::money::Money;
use crate::tx::incoming::IncomingTx;
use crate::tx::incoming::IncomingTxDetails;
use crate::tx::stored::TxDetails;
use crate::tx::stored::TxState;

verus! {

/// Identifies a client account.
#[derive(Copy, Clone, PartialEq, Eq, Debug, Hash, PartialOrd, Ord, Structural)]
pub struct AccountId(pub u16);

/// Whether the account may still move funds.
#[derive(Clone, Copy, Debug, PartialEq, Eq, Structural)]
pub enum AccountState {
    Active,
    Frozen,
}

impl Default for AccountState {
    /// A fresh account is active.
    fn default() -> (r: Self)
        ensures
            r == AccountState::Active,
    {
        AccountState::Active
    }
}

/// One client's mutable state: the available balance, the balance held
/// under dispute, and whether the account is frozen.
#[derive(Clone, Copy, Debug, PartialEq, Eq, Structural)]
pub struct Account {
    pub balance: Money,
    pub held: Money,
    pub state: AccountState,
}

impl Default for Account {
    /// A fresh account holds nothing and is active.
    fn default() -> (r: Self)
        ensures
            r == Account::spec_default(),
    {
        Account { balance: Money { units: 0 }, held: Money { units: 0 }, state: AccountState::Active }
    }
}

/// Whether a count of minor units stays inside the 64-bit representation.
pub open spec fn in_money_range(v: int) -> bool {
    i64::MIN <= v <= i64::MAX
}

impl Account {
    pub open spec fn spec_default() -> Account {
        Account { balance: Money { units: 0 }, held: Money { units: 0 }, state: AccountState::Active }
    }

    /// The transition table: what one event does to this account, given the
    /// cached outcome of the transaction it references.
    ///
    /// A fresh deposit or withdrawal needs an active account; a withdrawal
    /// also needs sufficient balance, the boundary included. A dispute moves
    /// the original signed effect from the balance to the held funds; a
    /// resolve moves it back; a chargeback releases the held funds and
    /// freezes the account, and the dispute lifecycle is honored even on a
    /// frozen account. Every other combination, and any update that would
    /// leave the 64-bit range of minor units, declines and changes nothing.
    pub open spec fn spec_apply(self, prev: Option<TxDetails>, tx: IncomingTx) -> (Account, Option<
        TxDetails,
    >) {
        match (prev, tx.details) {
            (None, IncomingTxDetails::Deposit(amount)) => {
                if self.state == AccountState::Frozen {
                    (self, None)
                } else if !in_money_range(self.balance@ + amount@) {
                    (self, None)
                } else {
                    (
                        Account {
                            balance: Money { units: (self.balance@ + amount@) as i64 },
                            ..self
                        },
                        Some(TxDetails { original_tx: tx, state: TxState::Complete }),
                    )
                }
            },
            (None, IncomingTxDetails::Withdrawal(amount)) => {
                if self.state == AccountState::Frozen {
                    (self, None)
                } else if self.balance@ < amount@ {
                    (self, None)
                } else {
                    (
                        Account {
                            balance: Money { units: (self.balance@ - amount@) as i64 },
                            ..self
                        },
                        Some(TxDetails { original_tx: tx, state: TxState::Complete }),
                    )
                }
            },
            (Some(p), IncomingTxDetails::Dispute) => {
                if p.state != TxState::Complete {
                    (self, None)
                } else {
                    match p.original_tx.details.spec_balance_effect() {
                        None => (self, None),
                        Some(e) => {
                            if in_money_range(self.balance@ - e) && in_money_range(self.held@ + e) {
                                (
                                    Account {
                                        balance: Money { units: (self.balance@ - e) as i64 },
                                        held: Money { units: (self.held@ + e) as i64 },
                                        ..self
                                    },
                                    Some(p.spec_with_state(TxState::UnderDispute)),
                                )
                            } else {
                                (self, None)
                            }
                        },
                    }
                }
            },
            (Some(p), IncomingTxDetails::Resolve) => {
                if p.state != TxState::UnderDispute {
                    (self, None)
                } else {
                    match p.original_tx.details.spec_balance_effect() {
                        None => (self, None),
                        Some(e) => {
                            if in_money_range(self.balance@ + e) && in_money_range(self.held@ - e) {
                                (
                                    Account {
                                        balance: Money { units: (self.balance@ + e) as i64 },
                                        held: Money { units: (self.held@ - e) as i64 },
                                        ..self
                                    },
                                    Some(p.spec_with_state(TxState::Resolved)),
                                )
                            } else {
                                (self, None)
                            }
                        },
                    }
                }
            },
            (Some(p), IncomingTxDetails::Chargeback) => {
                if p.state != TxState::UnderDispute {
                    (self, None)
                } else {
                    match p.original_tx.details.spec_balance_effect() {
                        None => (self, None),
                        Some(e) => {
                            if in_money_range(self.held@ - e) {
                                (
                                    Account {
                                        held: Money { units: (self.held@ - e) as i64 },
                                        state: AccountState::Frozen,
                                        ..self
                                    },
                                    Some(p.spec_with_state(TxState::ChargedBack)),
                                )
                            } else {
                                (self, None)
                            }
                        },
                    }
                }
            },
            _ => (self, None),
        }
    }

    /// Disputing a completed transaction and then resolving it returns the
    /// balance and the held funds to exactly their values before the
    /// dispute.
    pub proof fn lemma_dispute_resolve_round_trip(
        self,
        prev: TxDetails,
        dtx: IncomingTx,
        rtx: IncomingTx,
    )
        requires
            prev.wf(),
            prev.state == TxState::Complete,
            dtx.details is Dispute,
            rtx.details is Resolve,
            in_money_range(self.balance@ - prev.original_tx.details.spec_balance_effect().unwrap()),
            in_money_range(self.held@ + prev.original_tx.details.spec_balance_effect().unwrap()),
        ensures
            ({
                let s1 = self.spec_apply(Some(prev), dtx);
                let s2 = s1.0.spec_apply(s1.1, rtx);
                &&& s1.1 == Some(prev.spec_with_state(TxState::UnderDispute))
                &&& s2.1 == Some(prev.spec_with_state(TxState::Resolved))
                &&& s2.0.balance == self.balance
                &&& s2.0.held == self.held
                &&& s2.0.state == self.state
            }),
    {
    }

    /// Disputing a completed transaction and then charging it back releases
    /// the held funds by the original signed effect, leaves the balance
    /// where the dispute put it, and freezes the account.
    pub proof fn lemma_dispute_chargeback(self, prev: TxDetails, dtx: IncomingTx, ctx: IncomingTx)
        requires
            prev.wf(),
            prev.state == TxState::Complete,
            dtx.details is Dispute,
            ctx.details is Chargeback,
            in_money_range(self.balance@ - prev.original_tx.details.spec_balance_effect().unwrap()),
            in_money_range(self.held@ + prev.original_tx.details.spec_balance_effect().unwrap()),
        ensures
            ({
                let e = prev.original_tx.details.spec_balance_effect().unwrap();
                let s1 = self.spec_apply(Some(prev), dtx);
                let s2 = s1.0.spec_apply(s1.1, ctx);
                &&& s1.1 == Some(prev.spec_with_state(TxState::UnderDispute))
                &&& s2.1 == Some(prev.spec_with_state(TxState::ChargedBack))
                &&& s2.0.balance == s1.0.balance
                &&& s2.0.balance@ == self.balance@ - e
                &&& s2.0.held@ == s1.0.held@ - e
                &&& s2.0.held == self.held
                &&& s2.0.state == AccountState::Frozen
            }),
    {
    }

    /// Once frozen, a fresh deposit or withdrawal is a no-op.
    pub proof fn lemma_frozen_blocks_funds(self, tx: IncomingTx)
        requires
            self.state == AccountState::Frozen,
            tx.details is Deposit || tx.details is Withdrawal,
        ensures
            self.spec_apply(None, tx) == (self, None::<TxDetails>),
    {
    }

    /// Freezing does not block the unwind of a transaction already in
    /// flight: a dispute of a still-eligible transaction applies even on a
    /// frozen account.
    pub proof fn lemma_frozen_allows_dispute(self, prev: TxDetails, dtx: IncomingTx)
        requires
            self.state == AccountState::Frozen,
            prev.wf(),
            prev.state == TxState::Complete,
            dtx.details is Dispute,
            in_money_range(self.balance@ - prev.original_tx.details.spec_balance_effect().unwrap()),
            in_money_range(self.held@ + prev.original_tx.details.spec_balance_effect().unwrap()),
        ensures
            self.spec_apply(Some(prev), dtx).1 == Some(prev.spec_with_state(TxState::UnderDispute)),
    {
    }

    /// A withdrawal of exactly the whole balance succeeds and leaves the
    /// balance at exactly zero.
    pub proof fn lemma_boundary_withdrawal(self, tx: IncomingTx, m: Money)
        requires
            self.state == AccountState::Active,
            tx.details == IncomingTxDetails::Withdrawal(m),
            m@ == self.balance@,
        ensures
            ({
                let s = self.spec_apply(None, tx);
                &&& s.0.balance@ == 0
                &&& s.1 == Some(TxDetails { original_tx: tx, state: TxState::Complete })
            }),
    {
    }

    /// Decides one event and applies its effect in place, returning the new
    /// outcome to persist, or nothing when the event declines.
    pub fn apply_tx(&mut self, prev_tx: Option<&TxDetails>, tx: &IncomingTx) -> (r: Option<
        TxDetails,
    >)
        requires
            tx.wf(),
            match prev_tx {
                Some(p) => p.wf(),
                None => true,
            },
        ensures
            (*final(self), r) == old(self).spec_apply(
                match prev_tx {
                    Some(p) => Some(*p),
                    None => None,
                },
                *tx,
            ),
    {
        match (prev_tx, &tx.details) {
            (None, IncomingTxDetails::Deposit(amount)) => {
                if self.state == AccountState::Frozen {
                    return None;
                }
                match self.balance.checked_add(*amount) {
                    None => None,
                    Some(nb) => {
                        self.balance = nb;
                        Some(TxDetails { original_tx: *tx, state: TxState::Complete })
                    },
                }
            },
            (None, IncomingTxDetails::Withdrawal(amount)) => {
                if self.state == AccountState::Frozen {
                    return None;
                }
                if self.balance.lt(amount) {
                    return None;
                }
                match self.balance.checked_sub(*amount) {
                    None => None,
                    Some(nb) => {
                        self.balance = nb;
                        Some(TxDetails { original_tx: *tx, state: TxState::Complete })
                    },
                }
            },
            (Some(p), IncomingTxDetails::Dispute) => {
                if !(p.state == TxState::Complete) {
                    return None;
                }
                match p.original_tx.details.balance_effect() {
                    None => None,
                    Some(e) => {
                        match (self.balance.checked_sub(e), self.held.checked_add(e)) {
                            (Some(nb), Some(nh)) => {
                                self.balance = nb;
                                self.held = nh;
                                Some(p.with_state(TxState::UnderDispute))
                            },
                            _ => None,
                        }
                    },
                }
            },
            (Some(p), IncomingTxDetails::Resolve) => {
                if !(p.state == TxState::UnderDispute) {
                    return None;
                }
                match p.original_tx.details.balance_effect() {
                    None => None,
                    Some(e) => {
                        match (self.balance.checked_add(e), self.held.checked_sub(e)) {
                            (Some(nb), Some(nh)) => {
                                self.balance = nb;
                                self.held = nh;
                                Some(p.with_state(TxState::Resolved))
                            },
                            _ => None,
                        }
                    },
                }
            },
            (Some(p), IncomingTxDetails::Chargeback) => {
                if !(p.state == TxState::UnderDispute) {
                    return None;
                }
                match p.original_tx.details.balance_effect() {
                    None => None,
                    Some(e) => {
                        match self.held.checked_sub(e) {
                            None => None,
                            Some(nh) => {
                                self.held = nh;
                                self.state = AccountState::Frozen;
                                Some(p.with_state(TxState::ChargedBack))
                            },
                        }
                    },
                }
            },
            _ => None,
        }
    }
}

} // verus!
