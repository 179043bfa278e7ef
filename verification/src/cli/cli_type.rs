//! The kinds of command-line application.

use vstd::prelude::*;

verus! {

/// The backend that a command-line application talks to.
#[derive(Clone, Copy, Debug, PartialEq, Eq)]
pub enum CliType {
    /// The platform runs inside the application.
    NonWeb,
    /// The platform runs behind a web service.
    Web,
}

} // verus!
