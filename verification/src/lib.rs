//! Bookkeeping for a simulated trading session on binary prediction markets:
//! limit orders, positions, realized and unrealized profit, market
//! resolution, and price-trend analysis over a bounded sample history.
//!
//! All prices and quantities are exact fixed-point integers (see `units`).

pub mod units;
pub mod sums;
pub mod natural;
pub mod keyed;
pub mod token;
pub mod trend;
pub mod market;
pub mod clock;
pub mod model;
pub mod tracker;
pub mod market_files;
pub mod laws;
pub mod quotes;
