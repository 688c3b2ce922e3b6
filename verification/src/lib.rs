//! A backtesting core for periodic fund investment.
//!
//! All monetary quantities are held as scaled integers to keep the
//! arithmetic exact: per-share values are scaled by 10_000, share counts
//! by 100, and aggregate values by 1_000_000.
//!
//! The crate has three parts: a fixed-point position ledger and portfolio
//! (`fund_account`, `account`), a chronological k-way merge over
//! per-instrument tick series (`market`), and the periodic-investment
//! strategy driver that walks the merged stream (`strategy`). Retrieval of
//! the tick series themselves is left to the caller; the library only
//! consumes plain values.

pub mod account;
pub mod date;
pub mod fund_account;
pub mod fund_market;
pub mod market;
pub mod strategy;
