//! A limit order-book matching engine coupled with an account ledger.
//!
//! Participants deposit and withdraw a unit-valued currency and submit limit
//! orders. The engine matches them against a two-sided book under price, then
//! arrival-order priority, never filling an order against its own signer, and
//! the trading platform moves funds between buyer and seller at the resting
//! order's price.

pub mod accounts;
pub mod book;
pub mod cli;
pub mod errors;
pub mod invariants;
pub mod matching;
pub mod matching_laws;
pub mod ordinals;
pub mod requests;
pub mod sorting;
pub mod text;
pub mod trading_platform;
pub mod tx;
pub mod types;
pub mod validation;
pub mod web_client;
pub mod web_service;
