//! A personal stock-transaction ledger.
//!
//! The library replays an append-only sequence of buy/sell transactions for
//! one ticker and derives the position held at a cutoff date: net quantity,
//! total cost basis, and moving-average acquisition price.  All money values
//! are fixed-point decimals with four fractional digits, so the accounting is
//! exact and free of binary floating-point rounding.

pub mod command;
pub mod laws;
pub mod ledger;
pub mod report;
pub mod text;
pub mod tokenizer;

use vstd::prelude::*;

verus! {

/// Number of fixed-point units in one whole currency unit: every price,
/// cost value and average price is an integer count of ten-thousandths.
pub const PRICE_SCALE: u64 = 10000;

} // verus!
