//! Entries of the transaction log.

use crate::accounts::{deposit_outcome, withdraw_outcome};
use crate::errors::AccountingErrorView;
use vstd::prelude::*;

verus! {

/// One ledger movement. Applied in order to an empty ledger, the entries of a
/// log rebuild the ledger's balances.
#[derive(Debug, PartialEq)]
pub enum Tx {
    Deposit { account: String, amount: u64 },
    Withdraw { account: String, amount: u64 },
}

/// The mathematical value of a [`Tx`].
pub enum TxView {
    Deposit { account: Seq<char>, amount: u64 },
    Withdraw { account: Seq<char>, amount: u64 },
}

impl View for Tx {
    type V = TxView;

    open spec fn view(&self) -> TxView {
        match *self {
            Tx::Deposit { account, amount } => TxView::Deposit { account: account@, amount },
            Tx::Withdraw { account, amount } => TxView::Withdraw { account: account@, amount },
        }
    }
}

impl DeepView for Tx {
    type V = TxView;

    open spec fn deep_view(&self) -> TxView {
        self@
    }
}

impl Clone for Tx {
    fn clone(&self) -> (copy: Self)
        ensures
            copy == *self,
    {
        match self {
            Tx::Deposit { account, amount } => Tx::Deposit {
                account: account.clone(),
                amount: *amount,
            },
            Tx::Withdraw { account, amount } => Tx::Withdraw {
                account: account.clone(),
                amount: *amount,
            },
        }
    }
}

/// What one log entry does to a ledger.
pub open spec fn apply_tx(ledger: Map<Seq<char>, u64>, tx: TxView) -> Result<
    Map<Seq<char>, u64>,
    AccountingErrorView,
> {
    match tx {
        TxView::Deposit { account, amount } => deposit_outcome(ledger, account, amount),
        TxView::Withdraw { account, amount } => withdraw_outcome(ledger, account, amount),
    }
}

/// The ledger that results from applying the entries of a log, in order, to
/// an empty ledger; or the first refusal.
pub open spec fn replay(log: Seq<TxView>) -> Result<Map<Seq<char>, u64>, AccountingErrorView>
    decreases log.len(),
{
    if log.len() == 0 {
        Ok(Map::empty())
    } else {
        match replay(log.drop_last()) {
            Ok(ledger) => apply_tx(ledger, log.last()),
            Err(refusal) => Err(refusal),
        }
    }
}

/// The amount a log entry adds to the funds in the ledger.
pub open spec fn signed_amount(tx: TxView) -> int {
    match tx {
        TxView::Deposit { account, amount } => amount as int,
        TxView::Withdraw { account, amount } => -(amount as int),
    }
}

/// All deposits of a log less all its withdrawals.
pub open spec fn net_deposits(log: Seq<TxView>) -> int
    decreases log.len(),
{
    if log.len() == 0 {
        0
    } else {
        net_deposits(log.drop_last()) + signed_amount(log.last())
    }
}

} // verus!
