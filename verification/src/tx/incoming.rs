//! Incoming events: deposits and withdrawals carrying an amount, and the
//! dispute-lifecycle events that reference an earlier transaction.

use vstd::prelude::*;
use crate::account::AccountId;
use crate::money::Money;
use crate::money::MoneyParseError;
use crate::money::spec_parse_money;
use crate::money::spec_money_parse_err;
use crate::tx::TxId;

verus! {

/// Why an incoming deposit or withdrawal was rejected by the input layer.
#[derive(Clone, Copy, Debug, PartialEq, Eq, Structural)]
pub enum IncomingTxError {
    /// The amount text did not parse as an exact decimal.
    ParseAmount(MoneyParseError),
    /// The amount parsed but is strictly negative.
    NegativeAmount,
}

/// What an incoming event asks for.
#[derive(Copy, Clone, Debug, PartialEq, Eq, Structural)]
pub enum IncomingTxDetails {
    Deposit(Money),
    Withdrawal(Money),
    Dispute,
    Resolve,
    Chargeback,
}

/// One incoming event: the transaction it belongs to, the account it
/// touches, and what it asks for.
#[derive(Copy, Clone, Debug, PartialEq, Eq, Structural)]
pub struct IncomingTx {
    pub id: TxId,
    pub account: AccountId,
    pub details: IncomingTxDetails,
}

impl IncomingTxDetails {
    /// Amounts on funds-moving events are never negative.
    pub open spec fn wf(self) -> bool {
        match self {
            IncomingTxDetails::Deposit(m) => m@ >= 0,
            IncomingTxDetails::Withdrawal(m) => m@ >= 0,
            _ => true,
        }
    }

    /// The signed delta the event applied to a balance when it completed:
    /// `+amount` for a deposit, `-amount` for a withdrawal, nothing for
    /// dispute-lifecycle events.
    pub open spec fn spec_balance_effect(self) -> Option<int> {
        match self {
            IncomingTxDetails::Deposit(m) => Some(m@),
            IncomingTxDetails::Withdrawal(m) => Some(-m@),
            _ => None,
        }
    }

    /// The signed balance delta of the original transaction, if it has one.
    pub fn balance_effect(&self) -> (r: Option<Money>)
        requires
            self.wf(),
        ensures
            match r {
                Some(m) => self.spec_balance_effect() == Some(m@),
                None => self.spec_balance_effect() is None,
            },
    {
        match self {
            IncomingTxDetails::Deposit(amount) => Some(*amount),
            IncomingTxDetails::Withdrawal(amount) => Some((*amount).neg()),
            _ => None,
        }
    }
}

impl IncomingTx {
    /// The invariant the input layer guarantees: amounts are non-negative.
    pub open spec fn wf(self) -> bool {
        self.details.wf()
    }

    /// A deposit event, its amount read from text; rejects a malformed or
    /// negative amount before it can reach the ledger.
    pub fn deposit(id: TxId, account: AccountId, amount: &str) -> (r: Result<
        IncomingTx,
        IncomingTxError,
    >)
        ensures
            match spec_parse_money(amount@) {
                Some(u) => {
                    &&& (0 <= u <= i64::MAX as int ==> r == Result::<
                        IncomingTx,
                        IncomingTxError,
                    >::Ok(
                        IncomingTx {
                            id,
                            account,
                            details: IncomingTxDetails::Deposit(Money { units: u as i64 }),
                        },
                    ))
                    &&& (-(i64::MAX as int) <= u < 0 ==> r == Result::<
                        IncomingTx,
                        IncomingTxError,
                    >::Err(IncomingTxError::NegativeAmount))
                    &&& (!(-(i64::MAX as int) <= u <= i64::MAX as int) ==> r == Result::<
                        IncomingTx,
                        IncomingTxError,
                    >::Err(IncomingTxError::ParseAmount(MoneyParseError::OutOfRange)))
                },
                None => r == Result::<IncomingTx, IncomingTxError>::Err(
                    IncomingTxError::ParseAmount(spec_money_parse_err(amount@)),
                ),
            },
            r matches Ok(tx) ==> tx.wf() && tx.id == id && tx.account == account && tx.details
                is Deposit,
    {
        match Money::from_str_exact(amount) {
            Err(e) => Err(IncomingTxError::ParseAmount(e)),
            Ok(m) => match m.ensure_non_negative() {
                Err(e) => Err(e),
                Ok(m) => Ok(
                    IncomingTx { id, account, details: IncomingTxDetails::Deposit(m) },
                ),
            },
        }
    }

    /// A withdrawal event, its amount read from text; rejects a malformed or
    /// negative amount before it can reach the ledger.
    pub fn withdrawal(id: TxId, account: AccountId, amount: &str) -> (r: Result<
        IncomingTx,
        IncomingTxError,
    >)
        ensures
            match spec_parse_money(amount@) {
                Some(u) => {
                    &&& (0 <= u <= i64::MAX as int ==> r == Result::<
                        IncomingTx,
                        IncomingTxError,
                    >::Ok(
                        IncomingTx {
                            id,
                            account,
                            details: IncomingTxDetails::Withdrawal(Money { units: u as i64 }),
                        },
                    ))
                    &&& (-(i64::MAX as int) <= u < 0 ==> r == Result::<
                        IncomingTx,
                        IncomingTxError,
                    >::Err(IncomingTxError::NegativeAmount))
                    &&& (!(-(i64::MAX as int) <= u <= i64::MAX as int) ==> r == Result::<
                        IncomingTx,
                        IncomingTxError,
                    >::Err(IncomingTxError::ParseAmount(MoneyParseError::OutOfRange)))
                },
                None => r == Result::<IncomingTx, IncomingTxError>::Err(
                    IncomingTxError::ParseAmount(spec_money_parse_err(amount@)),
                ),
            },
            r matches Ok(tx) ==> tx.wf() && tx.id == id && tx.account == account && tx.details
                is Withdrawal,
    {
        match Money::from_str_exact(amount) {
            Err(e) => Err(IncomingTxError::ParseAmount(e)),
            Ok(m) => match m.ensure_non_negative() {
                Err(e) => Err(e),
                Ok(m) => Ok(
                    IncomingTx { id, account, details: IncomingTxDetails::Withdrawal(m) },
                ),
            },
        }
    }

    /// A dispute event referencing transaction `id` on `account`.
    pub fn dispute(id: TxId, account: AccountId) -> (r: IncomingTx)
        ensures
            r == (IncomingTx { id, account, details: IncomingTxDetails::Dispute }),
    {
        IncomingTx { id, account, details: IncomingTxDetails::Dispute }
    }

    /// A resolve event referencing transaction `id` on `account`.
    pub fn resolve(id: TxId, account: AccountId) -> (r: IncomingTx)
        ensures
            r == (IncomingTx { id, account, details: IncomingTxDetails::Resolve }),
    {
        IncomingTx { id, account, details: IncomingTxDetails::Resolve }
    }

    /// A chargeback event referencing transaction `id` on `account`.
    pub fn chargeback(id: TxId, account: AccountId) -> (r: IncomingTx)
        ensures
            r == (IncomingTx { id, account, details: IncomingTxDetails::Chargeback }),
    {
        IncomingTx { id, account, details: IncomingTxDetails::Chargeback }
    }
}

impl Money {
    /// Rejects a strictly negative amount. An integral count of minor units
    /// has no negative zero, so a parsed "-0" is already the plain zero.
    pub fn ensure_non_negative(self) -> (r: Result<Money, IncomingTxError>)
        ensures
            self@ >= 0 ==> r == Result::<Money, IncomingTxError>::Ok(self),
            self@ < 0 ==> r == Result::<Money, IncomingTxError>::Err(
                IncomingTxError::NegativeAmount,
            ),
    {
        if self.units < 0 {
            Err(IncomingTxError::NegativeAmount)
        } else {
            Ok(self)
        }
    }
}

} // verus!
