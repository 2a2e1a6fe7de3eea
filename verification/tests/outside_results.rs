use kittyalpha::akshare::{
    fetch_history_bars_in_range_with_settings, fetch_history_bars_with_settings, fetch_stock_universe_from_reply,
    is_trade_date_with_overrides, is_trade_date_with_settings, warm_stock_universe_cache_with_settings,
    AkshareReply, AkshareRequestOverrides, AkshareSettings,
};
use kittyalpha::arbitrage::timestamp_in_range;
use kittyalpha::assistant::{extract_symbol, extract_symbol_lowered};
use kittyalpha::endpoint::{endpoint_url, endpoint_url_from_segments};
use kittyalpha::financial::{normalize_stock_code, stock_code_from_upper, StockCodeError};
use kittyalpha::jobs::{duration_between, duration_from_millis};

fn settings() -> AkshareSettings {
    AkshareSettings {
        intraday_data_source: "eastmoney".to_string(),
        historical_data_source: "tencent".to_string(),
        xueqiu_token: Ok(Some("stored".to_string())),
    }
}

fn segments(parts: &[&str]) -> Option<Option<Vec<String>>> {
    Some(Some(parts.iter().map(|p| p.to_string()).collect()))
}

#[test]
fn latest_bars_equal_the_unranged_request() {
    let s = settings();
    let latest = fetch_history_bars_with_settings(&s, "SHSE.600000", "5m", 900);
    let ranged = fetch_history_bars_in_range_with_settings(&s, "SHSE.600000", "5m", 900, None, None);
    assert_eq!(latest, ranged);
    assert_eq!(fetch_history_bars_with_settings(&s, " ", "5m", 900), Ok(None));
}

#[test]
fn trade_date_request_without_overrides() {
    let s = settings();
    let plain = is_trade_date_with_settings(&s, "2026-05-06");
    let defaulted = is_trade_date_with_overrides(&s, "2026-05-06", &AkshareRequestOverrides::default());
    assert_eq!(plain, defaulted);
    let overrides = AkshareRequestOverrides {
        intraday_data_source: None,
        historical_data_source: Some("sina".to_string()),
        xueqiu_token: Some("fresh".to_string()),
    };
    let req = is_trade_date_with_overrides(&s, "2026-05-06", &overrides).unwrap();
    assert_eq!(req.intraday_data_source, "eastmoney");
    assert_eq!(req.historical_data_source, "sina");
    assert_eq!(req.xueqiu_token, Some("fresh".to_string()));
}

#[test]
fn warming_counts_the_universe() {
    let reply = || AkshareReply { ok: true, data: Some(vec!["a", "b", "c"]), error: None };
    assert_eq!(warm_stock_universe_cache_with_settings(reply()), Ok(3));
    assert_eq!(fetch_stock_universe_from_reply(reply()).map(|v| v.len()), Ok(3));
    let failed = || AkshareReply::<Vec<u8>> { ok: false, data: None, error: Some("down".to_string()) };
    assert_eq!(warm_stock_universe_cache_with_settings(failed()), Err("down".to_string()));
    assert_eq!(fetch_stock_universe_from_reply(failed()), Err("down".to_string()));
    let silent = AkshareReply::<Vec<u8>> { ok: false, data: None, error: None };
    assert_eq!(warm_stock_universe_cache_with_settings(silent), Err("AKShare 股票列表缓存失败".to_string()));
    let empty = AkshareReply::<Vec<u8>> { ok: true, data: None, error: None };
    assert_eq!(warm_stock_universe_cache_with_settings(empty), Ok(0));
}

#[test]
fn endpoint_from_parsed_segments() {
    let default = "https://api.openai.com/v1";
    assert_eq!(
        endpoint_url_from_segments("https://gateway.example.com", default, "chat/completions", segments(&["v1"]), segments(&[""])),
        "https://gateway.example.com/v1/chat/completions"
    );
    assert_eq!(
        endpoint_url_from_segments("https://gateway.example.com/v1", default, "chat/completions", segments(&["v1"]), segments(&["v1"])),
        "https://gateway.example.com/v1/chat/completions"
    );
    assert_eq!(
        endpoint_url_from_segments("gateway", default, "chat/completions", segments(&["v1"]), None),
        "gateway/chat/completions"
    );
    assert_eq!(
        endpoint_url("https://gateway.example.com/", default, "chat/completions"),
        "https://gateway.example.com/v1/chat/completions"
    );
}

#[test]
fn symbols_from_lowered_text() {
    let symbols = vec!["SHSE.600000".to_string(), "SZSE.000001".to_string()];
    let lowered = vec!["shse.600000".to_string(), "szse.000001".to_string()];
    assert_eq!(extract_symbol_lowered("看看 000001 的走势", &symbols, &lowered), Some("SZSE.000001".to_string()));
    assert_eq!(extract_symbol_lowered("看看 000001", &symbols, &lowered[..1]), None);
    assert_eq!(extract_symbol("SHSE.600000 怎么样", &symbols), Some("SHSE.600000".to_string()));
}

#[test]
fn stock_codes_from_upper_case_text() {
    assert_eq!(stock_code_from_upper("SZSE.000001".to_string()), Ok("SZSE.000001".to_string()));
    assert_eq!(stock_code_from_upper("600000".to_string()), Ok("SHSE.600000".to_string()));
    assert_eq!(stock_code_from_upper("1".to_string()), Ok("SZSE.000001".to_string()));
    assert_eq!(stock_code_from_upper("ABC".to_string()), Err(StockCodeError::Empty));
    assert_eq!(normalize_stock_code("\u{3000}shse.600000 "), Ok("SHSE.600000".to_string()));
}

#[test]
fn durations_from_read_timestamps() {
    assert_eq!(duration_from_millis(Some(1_000), Some(4_500)), Some(3_500));
    assert_eq!(duration_from_millis(Some(i64::MIN), Some(i64::MAX)), Some(i64::MAX));
    assert_eq!(duration_from_millis(Some(i64::MAX), Some(i64::MIN)), Some(i64::MIN));
    assert_eq!(duration_from_millis(None, Some(1)), None);
    assert_eq!(duration_between("epoch:1", "1970-01-01T00:00:03Z"), Some(2_000));
}

#[test]
fn timestamps_in_range() {
    assert!(timestamp_in_range("2026-05-04T10:00:00Z"));
    assert!(timestamp_in_range(" epoch:5 "));
    assert!(timestamp_in_range("-170141183460469231731687303715884105"));
    assert!(!timestamp_in_range("-170141183460469231731687303715884106"));
    assert!(!timestamp_in_range("epoch:-170141183460469231731687303715884106"));
}
