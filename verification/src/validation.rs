//! Validation of input that adapters take from users.

use crate::errors::SIGNER_EMPTY_NAME_MSG;
use crate::text::{trim, trimmed};
use vstd::prelude::*;

verus! {

/// Basic validation of a signer's name: a name that is empty but for white
/// space is refused. Returns the reason for the refusal, or `None` for a
/// name that is valid.
pub fn is_valid_name(signer: &str) -> (complaint: Option<&'static str>)
    ensures
        complaint is None <==> trimmed(signer@).len() > 0,
        complaint matches Some(message) ==> message@ == SIGNER_EMPTY_NAME_MSG@,
{
    if trim(signer).is_empty() {
        Some(SIGNER_EMPTY_NAME_MSG)
    } else {
        None
    }
}

} // verus!
