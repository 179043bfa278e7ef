//! The command words and other fixed texts of the command line.

use vstd::prelude::*;

verus! {

pub const HELP: &'static str = "help";

pub const DEPOSIT: &'static str = "deposit";

pub const WITHDRAW: &'static str = "withdraw";

pub const SEND: &'static str = "send";

pub const PRINT: &'static str = "print";

pub const LEDGER: &'static str = "ledger";

pub const TX_LOG: &'static str = "txlog";

pub const ACCOUNTS: &'static str = "accounts";

pub const CLIENT: &'static str = "client";

pub const ORDER: &'static str = "order";

pub const ORDER_BOOK: &'static str = "orderbook";

pub const ORDER_BOOK_BY_PRICE: &'static str = "orderbookbyprice";

pub const QUIT: &'static str = "quit";

/// What the prompt shows.
pub const PROMPT: &'static str = "> ";

/// Stands between the sender and the recipient of a transfer.
pub const SEPARATOR: &'static str = "--";

} // verus!
