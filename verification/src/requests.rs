//! The requests that a web adapter takes.

use vstd::prelude::*;

verus! {

/// Asks for a signer's balance.
#[derive(Debug)]
pub struct AccountBalanceRequest {
    pub signer: String,
}

/// Asks for a deposit or a withdrawal.
#[derive(Debug)]
pub struct AccountUpdateRequest {
    pub signer: String,
    pub amount: u64,
}

/// Asks for a transfer.
#[derive(Debug)]
pub struct AccountSendRequest {
    pub sender: String,
    pub recipient: String,
    pub amount: u64,
}

/// Asks for the order book; a flag that is absent counts as `false`.
#[derive(Debug)]
pub struct OrderBookRequest {
    pub sort: Option<bool>,
    pub desc: Option<bool>,
}

/// Asks for the order book by price; a flag that is absent counts as `false`.
#[derive(Debug)]
pub struct OrderBookByPriceRequest {
    pub desc: Option<bool>,
}

} // verus!
