use kittyalpha::market::{
    base_asset_from_symbol, classify_market_size_tier, fallback_market_targets,
    market_row_frame, metadata_refresh_is_due, normalize_a_share_watchlist, row_cache_key,
    search_a_share_symbols_in_memory, snapshot_cache_key, supported_exchanges, symbol_priority,
    trade_side_rank, complete_venue_order, exchange_is_enabled, filter_market_rows_for_exchanges,
    rows_for_watchlist, targets_from_discovery, MarketTarget, AShareSymbolSearchResultDto, MarketRowKey,
    VenueSnapshotFacts, MARKET_SIZE_TIER_SMALL,
    NO_SNAPSHOTS_MESSAGE,
};

fn venue(exchange: &str, updated_at: &str, stale: bool) -> VenueSnapshotFacts {
    VenueSnapshotFacts { exchange: exchange.to_string(), updated_at: updated_at.to_string(), stale }
}

#[test]
fn market_row_frame_aggregates_venues_without_prices() {
    let frame = market_row_frame(
        "BTC/USDT",
        "spot",
        &[venue("人民币现金", "t2", false), venue("akshare", "t1", false)],
    )
    .unwrap();
    assert_eq!(frame.symbol, "BTC/USDT");
    assert_eq!(frame.base_asset, "BTC");
    assert_eq!(frame.market_type, "spot");
    assert_eq!(frame.exchanges, vec!["akshare".to_string(), "人民币现金".to_string()]);
    assert_eq!(frame.updated_at, "t2");
    assert!(!frame.stale);
    assert_eq!(frame.responded_exchange_count, 2);
    assert_eq!(frame.market_size_tier, MARKET_SIZE_TIER_SMALL);

    let stale = market_row_frame("SHSE.600000", "ashare", &[venue("akshare", "2026-05-07T10:30:00+08:00", true)])
        .unwrap();
    assert!(stale.stale);
    assert_eq!(stale.base_asset, "SHSE.600000");
}

#[test]
fn market_row_frame_refuses_no_venues() {
    assert_eq!(
        market_row_frame("BTC/USDT", "spot", &[]).err(),
        Some(NO_SNAPSHOTS_MESSAGE.to_string())
    );
}

fn entry(symbol: &str, name: &str, market: &str) -> AShareSymbolSearchResultDto {
    AShareSymbolSearchResultDto { symbol: symbol.into(), name: name.into(), market: market.into() }
}

#[test]
fn searches_symbols_in_memory() {
    let universe = vec![
        entry("SHSE.600000", "浦发银行", "沪市A股"),
        entry("SZSE.000001", "平安银行", "深市A股"),
    ];
    assert_eq!(
        search_a_share_symbols_in_memory(&universe, "600000", 20),
        vec![entry("SHSE.600000", "浦发银行", "沪市A股")]
    );
    assert_eq!(search_a_share_symbols_in_memory(&universe, "平安", 20)[0].symbol, "SZSE.000001");
    assert_eq!(search_a_share_symbols_in_memory(&universe, " shse600 ", 20).len(), 1);
    assert_eq!(search_a_share_symbols_in_memory(&universe, "银行", 1).len(), 1);
    assert!(search_a_share_symbols_in_memory(&universe, "黄金", 20).is_empty());
}

#[test]
fn asset_names_tiers_and_keys() {
    assert_eq!(base_asset_from_symbol(" eth/usdt"), "ETH");
    assert_eq!(base_asset_from_symbol("SHSE.600000"), "SHSE.600000");
    assert_eq!(classify_market_size_tier(Some(1)), "large");
    assert_eq!(classify_market_size_tier(Some(20)), "large");
    assert_eq!(classify_market_size_tier(Some(21)), "mid");
    assert_eq!(classify_market_size_tier(Some(100)), "mid");
    assert_eq!(classify_market_size_tier(Some(101)), "small");
    assert_eq!(classify_market_size_tier(Some(0)), "small");
    assert_eq!(classify_market_size_tier(None), "small");
    assert!(!metadata_refresh_is_due(None, "2026-05-07T10:30:00+08:00"));
    assert_eq!(row_cache_key("SHSE.600000", "ASHARE"), "SHSE.600000::ashare");
    assert_eq!(snapshot_cache_key("akshare", "SHSE.600000", "Spot"), "akshare::SHSE.600000::spot");
    assert_eq!(trade_side_rank("sell"), 0);
    assert_eq!(trade_side_rank("buy"), 1);
    assert_eq!(trade_side_rank("SELL"), 2);
    assert_eq!(supported_exchanges(), vec!["akshare"]);
    assert_eq!(symbol_priority("shse.600000"), 0);
    assert_eq!(symbol_priority("SZSE.000001"), 1);
    assert_eq!(symbol_priority("SHSE.600519"), 2);
    assert_eq!(symbol_priority("SHSE.601318"), usize::MAX / 2);
    assert_eq!(fallback_market_targets().len(), 6);
}

#[test]
fn normalizes_a_share_watchlist_keeping_first_occurrences() {
    let values = vec![
        " shse.600000 ".to_string(),
        "BTC/USDT".to_string(),
        "SZSE.000001".to_string(),
        "SHSE.600000".to_string(),
        "".to_string(),
    ];
    assert_eq!(
        normalize_a_share_watchlist(&values),
        vec!["SHSE.600000".to_string(), "SZSE.000001".to_string()]
    );
}

fn row(symbol: &str, market_type: &str, exchanges: &[&str]) -> MarketRowKey {
    MarketRowKey {
        symbol: symbol.to_string(),
        market_type: market_type.to_string(),
        exchanges: exchanges.iter().map(|e| e.to_string()).collect(),
    }
}

#[test]
fn filters_market_rows_by_enabled_exchange_and_orders_them() {
    let rows = vec![
        row("SZSE.000001", "spot", &["akshare"]),
        row("SHSE.600000", "spot", &["other"]),
        row("SHSE.600000", "index", &["akshare"]),
        row("SHSE.600519", "spot", &["other", "akshare"]),
    ];
    let positions = filter_market_rows_for_exchanges(&rows, &["AkShare".to_string()]);
    assert_eq!(positions, vec![2, 3, 0]);
}

#[test]
fn keeps_every_market_row_when_no_exchange_is_enabled() {
    let rows = vec![
        row("SZSE.000001", "spot", &["akshare"]),
        row("SHSE.600000", "spot", &["other"]),
        row("SHSE.600000", "index", &[]),
    ];
    let positions = filter_market_rows_for_exchanges(&rows, &[]);
    assert_eq!(positions, vec![2, 1, 0]);
}

#[test]
fn exchanges_are_enabled_by_name_ignoring_case_or_when_none_is_chosen() {
    assert!(exchange_is_enabled("akshare", &[]));
    assert!(exchange_is_enabled("AkShare", &["akshare".to_string()]));
    assert!(!exchange_is_enabled("other", &["akshare".to_string()]));
}

#[test]
fn watchlist_rows_are_the_watched_symbols_in_order() {
    let rows = vec![
        "SZSE.000001".to_string(),
        "SHSE.600519".to_string(),
        "SHSE.600000".to_string(),
        "BTC/USDT".to_string(),
    ];
    let watchlist = vec![" shse.600000".to_string(), "SZSE.000001".to_string(), "BTC/USDT".to_string()];
    assert_eq!(rows_for_watchlist(&rows, &watchlist), vec![2, 0]);
    assert!(rows_for_watchlist(&rows, &["BTC/USDT".to_string()]).is_empty());
}

#[test]
fn discovery_falls_back_to_built_in_targets() {
    assert!(targets_from_discovery(&[], vec![MarketTarget::new("SHSE.600000", "spot")]).is_empty());
    let enabled = vec!["akshare".to_string()];
    let found = targets_from_discovery(
        &enabled,
        vec![MarketTarget::new("SZSE.000001", "spot"), MarketTarget::new("SZSE.000001", "spot")],
    );
    assert_eq!(found.len(), 1);
    assert_eq!(found[0].symbol, "SZSE.000001");
    assert_eq!(targets_from_discovery(&enabled, Vec::new()), fallback_market_targets());
}

#[test]
fn venue_order_is_completed_with_other_enabled_exchanges() {
    let order = vec!["akshare".to_string()];
    let row_exchanges = vec!["AKSHARE".to_string(), "人民币现金".to_string(), "other".to_string()];
    assert_eq!(
        complete_venue_order(order.clone(), &row_exchanges, &[]),
        vec!["akshare".to_string(), "人民币现金".to_string(), "other".to_string()]
    );
    assert_eq!(
        complete_venue_order(order, &row_exchanges, &["other".to_string()]),
        vec!["akshare".to_string(), "other".to_string()]
    );
}
