//! Cross-city trade arbitrage scanner.
//!
//! Given a snapshot of per-city market quotes for tradable items, the scanner
//! finds profitable buy-low/sell-high opportunities between pairs of cities,
//! ranked by return on investment (ROI).
//!
//! All money amounts are exact integers: prices are given in the market's
//! smallest currency unit, tax and fee rates in per-mille, derived amounts
//! (costs, taxes, profit) at a fixed scale of 1000, and ROI in thousandths of
//! a percent.  Every formula is therefore exact, and each public function
//! carries a contract that pins its result down completely.

pub mod group;
pub mod laws;
pub mod model;
pub mod rank;
pub mod scanner;
pub mod transport;
