//! What the command-line adapters share: the command words, the help texts
//! and the reading of a command line.

pub mod cli_type;
pub mod commands;
pub mod constants;
pub mod helpers;

pub use cli_type::CliType;
