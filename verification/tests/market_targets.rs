use kittyalpha::market::{
    dedupe_market_targets, enabled_exchange_universe, limited_market_targets,
    market_symbols_from_targets, MarketTarget,
};
use kittyalpha::MARKET_TICKER_REFRESH_INTERVAL_SECS;

#[test]
fn market_ticker_refresh_interval_is_sixty_seconds() {
    assert_eq!(MARKET_TICKER_REFRESH_INTERVAL_SECS, 60);
}

#[test]
fn limits_exchange_universe_to_akshare_source() {
    let enabled = vec!["akshare".to_string(), "Unknown".to_string()];
    assert_eq!(enabled_exchange_universe(&enabled), vec!["akshare"]);

    let disabled_all = Vec::<String>::new();
    assert!(enabled_exchange_universe(&disabled_all).is_empty());
}

#[test]
fn dedupes_discovered_market_targets_and_keeps_broader_symbols() {
    let targets = dedupe_market_targets(vec![
        MarketTarget::new("DOGE/USDT", "spot"),
        MarketTarget::new("BTC/USDT", "spot"),
        MarketTarget::new("DOGE/USDT", "spot"),
        MarketTarget::new("DOGE/USDT", "perpetual"),
    ]);

    assert_eq!(
        targets,
        vec![
            MarketTarget::new("BTC/USDT", "spot"),
            MarketTarget::new("DOGE/USDT", "spot"),
            MarketTarget::new("DOGE/USDT", "perpetual"),
        ]
    );
}

#[test]
fn keeps_full_discovered_market_universe_instead_of_capping_scan_targets() {
    let targets = dedupe_market_targets(
        [
            "BTC", "ETH", "SOL", "DOGE", "XRP", "ADA", "AVAX", "LINK", "SUI", "TRX", "TON", "BNB",
            "PEPE", "WIF", "ARB", "APT",
        ]
        .into_iter()
        .flat_map(|base| {
            [
                MarketTarget::new(&format!("{base}/USDT"), "spot"),
                MarketTarget::new(&format!("{base}/USDT"), "perpetual"),
            ]
        })
        .collect(),
    );

    let limited = limited_market_targets(&targets);

    assert_eq!(limited.len(), targets.len());
    assert!(limited.iter().any(|target| target.symbol == "DOGE/USDT"));
    assert!(limited.iter().any(|target| target.symbol == "PEPE/USDT"));
    assert!(limited.iter().any(|target| target.symbol == "WIF/USDT"));
}

#[test]
fn derives_unique_symbol_options_from_targets() {
    let symbols = market_symbols_from_targets(&dedupe_market_targets(vec![
        MarketTarget::new("DOGE/USDT", "spot"),
        MarketTarget::new("DOGE/USDT", "perpetual"),
        MarketTarget::new("BTC/USDT", "spot"),
    ]));

    assert_eq!(symbols, vec!["BTC/USDT".to_string(), "DOGE/USDT".to_string()]);
}
