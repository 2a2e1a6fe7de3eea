//! The kinds of background jobs.
use vstd::prelude::*;

verus! {

pub const RECOMMENDATION_GENERATE: &'static str = "recommendation.generate";
pub const RECOMMENDATION_EVALUATE: &'static str = "recommendation.evaluate";
pub const PAPER_ORDER_MONITOR: &'static str = "paper.monitor";
pub const NOTIFICATION_DISPATCH: &'static str = "notifications.dispatch";
pub const SIGNAL_SCAN: &'static str = "signal.scan";
pub const MARKET_REFRESH_SYMBOLS: &'static str = "market.refresh_symbols";
pub const MARKET_REFRESH_SNAPSHOTS: &'static str = "market.refresh_snapshots";
pub const MARKET_REBUILD_ORDERBOOK: &'static str = "market.rebuild_orderbook";
pub const SPREAD_EVALUATE: &'static str = "spread.evaluate";
pub const CREDENTIAL_VALIDATE: &'static str = "credential.validate";
pub const PORTFOLIO_REFRESH: &'static str = "portfolio.refresh";
pub const ASSISTANT_RUN: &'static str = "assistant.run";
pub const FINANCIAL_REPORT_FETCH: &'static str = "financial_report.fetch";
pub const FINANCIAL_REPORT_ANALYZE: &'static str = "financial_report.analyze";
pub const PAPER_ORDER: &'static str = "paper.order";
pub const MARKET_REFRESH_TICKERS: &'static str = "market.refresh_tickers";
pub const MARKET_REFRESH_ASSET_METADATA: &'static str = "market.refresh_asset_metadata";

} // verus!
