//! Help texts and name validation for the command line.

use crate::cli::constants::{
    ACCOUNTS, CLIENT, DEPOSIT, HELP, LEDGER, ORDER, ORDER_BOOK, ORDER_BOOK_BY_PRICE, PRINT, QUIT,
    SEND, TX_LOG, WITHDRAW,
};
use crate::text::trimmed;
use crate::validation;
use vstd::prelude::*;

verus! {

/// The full command words, in the order the help shows them, with a space
/// between each two.
pub open spec fn help_text() -> Seq<char> {
    HELP@ + " "@ + DEPOSIT@ + " "@ + WITHDRAW@ + " "@ + SEND@ + " "@ + PRINT@ + " "@ + LEDGER@
        + " "@ + TX_LOG@ + " "@ + ACCOUNTS@ + " "@ + CLIENT@ + " "@ + ORDER@ + " "@ + ORDER_BOOK@
        + " "@ + ORDER_BOOK_BY_PRICE@ + " "@ + QUIT@
}

/// The full variants of all commands.
pub fn help_contents_full() -> (msg: String)
    ensures
        msg@ == help_text(),
{
    let mut msg = String::from_str(HELP);
    msg.append(" ");
    msg.append(DEPOSIT);
    msg.append(" ");
    msg.append(WITHDRAW);
    msg.append(" ");
    msg.append(SEND);
    msg.append(" ");
    msg.append(PRINT);
    msg.append(" ");
    msg.append(LEDGER);
    msg.append(" ");
    msg.append(TX_LOG);
    msg.append(" ");
    msg.append(ACCOUNTS);
    msg.append(" ");
    msg.append(CLIENT);
    msg.append(" ");
    msg.append(ORDER);
    msg.append(" ");
    msg.append(ORDER_BOOK);
    msg.append(" ");
    msg.append(ORDER_BOOK_BY_PRICE);
    msg.append(" ");
    msg.append(QUIT);
    msg
}

/// The short variants of all commands, in the same order.
pub fn help_contents_short() -> (msg: String)
    ensures
        msg@ == "h d w s p l t a c o ob obp q"@,
{
    String::from_str("h d w s p l t a c o ob obp q")
}

/// Whether a signer's name is valid: not empty but for white space.
pub fn is_valid_name(signer: &str) -> (valid: bool)
    ensures
        valid <==> trimmed(signer@).len() > 0,
{
    validation::is_valid_name(signer).is_none()
}

} // verus!
