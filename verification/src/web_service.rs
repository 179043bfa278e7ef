//! What a web adapter decides before it hands a request to the platform.

use crate::errors::{SIGNER_EMPTY_NAME_MSG, SIGNER_NAME_NOT_VALID_MSG};
use crate::requests::{OrderBookByPriceRequest, OrderBookRequest};
use crate::text::trimmed;
use crate::validation;
use vstd::prelude::*;

verus! {

/// The message for a signer's name that was refused for the reason
/// `complaint`.
pub open spec fn rejection_text(signer: Seq<char>, complaint: Seq<char>) -> Seq<char> {
    SIGNER_NAME_NOT_VALID_MSG@ + ": \""@ + signer + "\". "@ + complaint
}

/// Validates a signer's name. A name that is empty but for white space is
/// rejected, with a message that quotes the name and gives the reason.
pub fn is_valid_name(signer: &str) -> (result: Result<(), String>)
    ensures
        result is Ok <==> trimmed(signer@).len() > 0,
        result matches Err(message) ==> message@ == rejection_text(
            signer@,
            SIGNER_EMPTY_NAME_MSG@,
        ),
{
    match validation::is_valid_name(signer) {
        Some(complaint) => {
            let mut message = String::from_str(SIGNER_NAME_NOT_VALID_MSG);
            message.append(": \"");
            message.append(signer);
            message.append("\". ");
            message.append(complaint);
            Err(message)
        },
        None => Ok(()),
    }
}

/// The flags of an order-book request; one that is absent counts as `false`.
pub fn order_book_flags(request: &OrderBookRequest) -> (flags: (bool, bool))
    ensures
        flags.0 == (request.sort == Some(true)),
        flags.1 == (request.desc == Some(true)),
{
    let sort = match request.sort {
        Some(sort) => sort,
        None => false,
    };
    let desc = match request.desc {
        Some(desc) => desc,
        None => false,
    };
    (sort, desc)
}

/// The flag of a request for the order book by price; absent, it counts as
/// `false`.
pub fn by_price_flag(request: &OrderBookByPriceRequest) -> (desc: bool)
    ensures
        desc == (request.desc == Some(true)),
{
    match request.desc {
        Some(desc) => desc,
        None => false,
    }
}

} // verus!
