use vstd::prelude::*;

pub mod akshare;
pub mod arbitrage;
pub mod assistant;
pub mod attempts;
pub mod backtest;
pub mod calendar;
pub mod candles;
pub mod commands;
pub mod endpoint;
pub mod financial;
pub mod jobs;
pub mod market;
pub mod numbers;
pub mod order;
pub mod seqs;
pub mod session;
pub mod snapshot_fetch;
pub mod stream;
pub mod text;
pub mod turn;

verus! {

/// Seconds between two refreshes of the watchlist ticker cache.
pub const MARKET_TICKER_REFRESH_INTERVAL_SECS: u64 = 60;

} // verus!
