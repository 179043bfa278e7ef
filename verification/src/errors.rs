//! The error type shared by the ledger and the trading platform.

use vstd::prelude::*;

verus! {

/// Opens the message about a signer's name that was not accepted.
pub const SIGNER_NAME_NOT_VALID_MSG: &'static str = "The signer's name is not valid";

/// Says what is wrong with an empty name.
pub const SIGNER_EMPTY_NAME_MSG: &'static str = "Signer's name cannot be empty.";

/// Why a ledger operation was refused.
#[derive(Debug, PartialEq)]
pub enum AccountingError {
    /// The signer has no ledger entry.
    AccountNotFound(String),
    /// The signer's balance is below the amount carried, which is the amount
    /// that was asked for (not the deficit).
    AccountUnderFunded(String, u64),
    /// Adding the amount carried to the signer's balance would exceed `u64::MAX`.
    AccountOverFunded(String, u64),
}

/// The mathematical value of an [`AccountingError`].
pub enum AccountingErrorView {
    AccountNotFound(Seq<char>),
    AccountUnderFunded(Seq<char>, u64),
    AccountOverFunded(Seq<char>, u64),
}

impl View for AccountingError {
    type V = AccountingErrorView;

    open spec fn view(&self) -> AccountingErrorView {
        match *self {
            AccountingError::AccountNotFound(signer) => AccountingErrorView::AccountNotFound(
                signer@,
            ),
            AccountingError::AccountUnderFunded(signer, amount) => {
                AccountingErrorView::AccountUnderFunded(signer@, amount)
            },
            AccountingError::AccountOverFunded(signer, amount) => {
                AccountingErrorView::AccountOverFunded(signer@, amount)
            },
        }
    }
}

} // verus!
