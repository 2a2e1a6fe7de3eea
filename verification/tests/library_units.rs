use kittyalpha::akshare::{
    fetch_current_quotes_with_settings, fetch_history_bars_in_range_with_settings,
    fetch_history_bars_with_settings, fetch_stock_universe_with_settings, is_trade_date_from_reply,
    is_trade_date_with_settings, reply_data, reply_list, request_with_runtime_overrides,
    search_stocks_with_settings, warm_stock_universe_cache_with_settings, AkshareAction,
    AkshareReply, AkshareRequestOverrides, AkshareSettings, DATA_SOURCE_NAME,
};
use kittyalpha::arbitrage::{
    oldest_updated_at, paginate_candidates, parse_numeric_timestamp, parse_timestamp_millis,
    ArbitrageTypeFilter,
    filter_candidates, group_rows_by_symbol, SymbolLegs,
};
use kittyalpha::backtest::{
    expected_timepoints_with_trade_day_filter,
    configured_ai_kline_frequencies, recent_bar_window, is_a_share_session, is_weekday, llm_call_estimate, minutes_of_day, normalize_bar_time,
    trade_day_decision, trading_day_count_with_filter, TimepointError,
};
use kittyalpha::calendar::{
    date_to_string, parse_date, CalendarDate,
    DateParseError,
};
use kittyalpha::candles::{
    a_share_market_is_open_at, candle_plan, CandlePlan, akshare_frequency, candle_count, connection_test_action,
    connection_test_item, connection_test_message, connection_test_overrides, normalize_watchlist,
    ConnectionTestItem,
};
use kittyalpha::jobs::{
    duration_between, fallback_epoch_timestamp, normalize_epoch_millis, parse_job_timestamp_millis,
    route_job_kind,
};
use kittyalpha::assistant::extract_symbol;
use kittyalpha::market::{normalize_a_share_watchlist, MarketRowKey};
use kittyalpha::numbers::{parse_i64, parse_u32, NumberError};

fn settings(token: Result<Option<String>, String>) -> AkshareSettings {
    AkshareSettings {
        intraday_data_source: "eastmoney".to_string(),
        historical_data_source: "sina".to_string(),
        xueqiu_token: token,
    }
}

fn date(year: i32, month: u8, day: u8) -> CalendarDate {
    CalendarDate { year, month, day }
}

#[test]
fn requests_use_runtime_sources_and_token() {
    let s = settings(Ok(Some("stored".to_string())));
    let req = is_trade_date_with_settings(&s, "2026-05-06").unwrap();
    assert_eq!(req.action, AkshareAction::IsTradeDate { date: "2026-05-06".to_string() });
    assert_eq!(req.intraday_data_source, "eastmoney");
    assert_eq!(req.historical_data_source, "sina");
    assert_eq!(req.xueqiu_token, Some("stored".to_string()));

    let overrides = AkshareRequestOverrides {
        intraday_data_source: Some("tencent".to_string()),
        historical_data_source: None,
        xueqiu_token: Some("override".to_string()),
    };
    let req = request_with_runtime_overrides(AkshareAction::StockUniverse, &s, &overrides).unwrap();
    assert_eq!(req.intraday_data_source, "tencent");
    assert_eq!(req.historical_data_source, "sina");
    assert_eq!(req.xueqiu_token, Some("override".to_string()));

    let blank_override = AkshareRequestOverrides {
        intraday_data_source: None,
        historical_data_source: None,
        xueqiu_token: Some("  ".to_string()),
    };
    let req = request_with_runtime_overrides(AkshareAction::StockUniverse, &s, &blank_override).unwrap();
    assert_eq!(req.xueqiu_token, Some("stored".to_string()));

    let blank_stored = settings(Ok(Some(" ".to_string())));
    assert_eq!(fetch_stock_universe_with_settings(&blank_stored).unwrap().xueqiu_token, None);

    let failing = settings(Err("vault locked".to_string()));
    assert_eq!(fetch_stock_universe_with_settings(&failing).err(), Some("vault locked".to_string()));
    let req = request_with_runtime_overrides(AkshareAction::StockUniverse, &failing, &overrides).unwrap();
    assert_eq!(req.xueqiu_token, Some("override".to_string()));
    assert_eq!(DATA_SOURCE_NAME, "akshare");
}

#[test]
fn blank_queries_and_empty_symbol_lists_ask_nothing() {
    let s = settings(Ok(None));
    assert_eq!(search_stocks_with_settings(&s, "  ").unwrap(), None);
    assert_eq!(fetch_history_bars_with_settings(&s, " ", "1d", 10).unwrap(), None);
    assert_eq!(fetch_current_quotes_with_settings(&s, &[]).unwrap(), None);

    let req = fetch_history_bars_in_range_with_settings(&s, "SHSE.600000", "5m", 48, Some("2026-05-01"), None)
        .unwrap()
        .unwrap();
    assert_eq!(
        req.action,
        AkshareAction::HistoryBars {
            symbol: "SHSE.600000".to_string(),
            frequency: "5m".to_string(),
            count: 48,
            start_date: Some("2026-05-01".to_string()),
            end_date: None,
        }
    );
    let req = search_stocks_with_settings(&s, "银行").unwrap().unwrap();
    assert_eq!(req.action, AkshareAction::SearchStocks { query: "银行".to_string() });
    let symbols = vec!["SHSE.600000".to_string()];
    let req = fetch_current_quotes_with_settings(&s, &symbols).unwrap().unwrap();
    assert_eq!(req.action, AkshareAction::CurrentQuotes { symbols });
}

#[test]
fn replies_are_read_as_documented() {
    let ok: AkshareReply<bool> = AkshareReply { ok: true, data: Some(true), error: None };
    assert_eq!(is_trade_date_from_reply(ok), Ok(true));
    let empty: AkshareReply<bool> = AkshareReply { ok: true, data: None, error: None };
    assert_eq!(is_trade_date_from_reply(empty), Ok(false));
    let failed: AkshareReply<bool> = AkshareReply { ok: false, data: Some(true), error: None };
    assert_eq!(is_trade_date_from_reply(failed), Err("AKShare 交易日历请求失败".to_string()));
    let failed: AkshareReply<bool> = AkshareReply { ok: false, data: None, error: Some("boom".to_string()) };
    assert_eq!(is_trade_date_from_reply(failed), Err("boom".to_string()));

    let list: AkshareReply<Vec<u8>> = AkshareReply { ok: true, data: Some(vec![1, 2, 3]), error: None };
    assert_eq!(warm_stock_universe_cache_with_settings(list), Ok(3));
    let none: AkshareReply<Vec<u8>> = AkshareReply { ok: true, data: None, error: None };
    assert_eq!(reply_list(none, "x"), Ok(Vec::new()));
    let bad: AkshareReply<Vec<u8>> = AkshareReply { ok: false, data: None, error: None };
    assert_eq!(warm_stock_universe_cache_with_settings(bad), Err("AKShare 股票列表缓存失败".to_string()));
    let data: AkshareReply<u8> = AkshareReply { ok: true, data: Some(7), error: None };
    assert_eq!(reply_data(data, "x"), Ok(Some(7)));
}

#[test]
fn arbitrage_filters_and_pages() {
    assert_eq!(ArbitrageTypeFilter::from_query(" SPOT "), ArbitrageTypeFilter::Spot);
    assert_eq!(ArbitrageTypeFilter::from_query("perpetual"), ArbitrageTypeFilter::Perpetual);
    assert_eq!(ArbitrageTypeFilter::from_query("Cross_Market"), ArbitrageTypeFilter::CrossMarket);
    assert_eq!(ArbitrageTypeFilter::from_query("anything"), ArbitrageTypeFilter::All);
    assert!(ArbitrageTypeFilter::Spot.matches("spot_cross_exchange", false));
    assert!(!ArbitrageTypeFilter::Spot.matches("perpetual_cross_exchange", false));
    assert!(ArbitrageTypeFilter::Perpetual.matches("perpetual_cross_exchange", false));
    assert!(ArbitrageTypeFilter::CrossMarket.matches("spot_cross_exchange", true));
    assert!(!ArbitrageTypeFilter::CrossMarket.matches("spot_cross_exchange", false));
    assert!(ArbitrageTypeFilter::All.matches("whatever", false));

    let page = paginate_candidates((1..=5).collect::<Vec<u32>>(), 2, 2);
    assert_eq!(page.items, vec![3, 4]);
    assert_eq!(page.total, 5);
    assert_eq!(page.total_pages, 3);
    let clamped = paginate_candidates((1..=5).collect::<Vec<u32>>(), 0, 0);
    assert_eq!(clamped.page, 1);
    assert_eq!(clamped.page_size, 1);
    assert_eq!(clamped.items, vec![1]);
    let empty = paginate_candidates(Vec::<u32>::new(), 4, 10);
    assert!(empty.items.is_empty());
    assert_eq!(empty.total_pages, 1);
}

#[test]
fn timestamps_read_numbers_and_rfc3339() {
    assert_eq!(parse_numeric_timestamp("1700000000"), Some(1_700_000_000_000));
    assert_eq!(parse_numeric_timestamp("1700000000123"), Some(1_700_000_000_123));
    assert_eq!(parse_numeric_timestamp("x"), None);
    assert_eq!(parse_timestamp_millis(" epoch:5 "), Some(5000));
    assert_eq!(parse_timestamp_millis("1970-01-01T00:00:01Z"), Some(1000));
    assert_eq!(parse_timestamp_millis("2026-05-04T10:00:00+08:00"), Some(1_777_860_000_000));
    assert_eq!(parse_timestamp_millis("  "), None);
    assert_eq!(parse_timestamp_millis("not a time"), None);
    assert_eq!(oldest_updated_at("2026-05-04T10:00:02Z", "2026-05-04T10:00:01Z"), "2026-05-04T10:00:01Z");
    assert_eq!(oldest_updated_at("bad", "2026-05-04T10:00:01Z"), "bad");
}

#[test]
fn job_routes_and_times() {
    assert_eq!(route_job_kind("signal.scan"), "signal.scan");
    assert_eq!(route_job_kind("financial_report.analyze"), "financial_report.analyze");
    assert_eq!(route_job_kind("paper.monitor"), "paper.monitor");
    assert_eq!(route_job_kind("market.refresh_tickers"), "noop");
    assert_eq!(route_job_kind(""), "noop");
    assert_eq!(normalize_epoch_millis(1_700_000_000), 1_700_000_000_000);
    assert_eq!(normalize_epoch_millis(1_700_000_000_000), 1_700_000_000_000);
    assert_eq!(normalize_epoch_millis(i64::MIN), i64::MIN);
    assert_eq!(parse_job_timestamp_millis("epoch:1700000000"), Some(1_700_000_000_000));
    assert_eq!(parse_job_timestamp_millis("1970-01-01T00:00:02Z"), Some(2000));
    assert_eq!(parse_job_timestamp_millis("yesterday"), None);
    assert_eq!(duration_between("epoch:10", "epoch:12"), Some(2000));
    assert_eq!(duration_between("epoch:10", "soon"), None);
    assert_eq!(fallback_epoch_timestamp(42), "epoch:42");
}

#[test]
fn dates_parse_step_and_print() {
    assert_eq!(parse_date("2026-05-06"), Ok(date(2026, 5, 6)));
    assert_eq!(parse_date("2024-02-29"), Ok(date(2024, 2, 29)));
    assert_eq!(parse_date("2026-13-01"), Err(DateParseError::Month));
    assert_eq!(parse_date("2026-02-30"), Err(DateParseError::Component));
    assert_eq!(parse_date("2026-05"), Err(DateParseError::WrongShape));
    assert_eq!(parse_date("2026-0x-01"), Err(DateParseError::Number(NumberError::InvalidDigit)));
    assert_eq!(parse_date("2026--01"), Err(DateParseError::Number(NumberError::Empty)));
    assert_eq!(trading_day_count_with_filter("2026-12-31", "2027-01-01", |_| true), Ok(2));
    assert_eq!(trading_day_count_with_filter("2024-02-28", "2024-03-01", |_| true), Ok(3));
    assert_eq!(
        trading_day_count_with_filter("9999-12-31", "9999-12-31", |_| true),
        Err(TimepointError::RangeTooLarge)
    );
    assert!(is_weekday(date(2026, 5, 6)));
    assert!(!is_weekday(date(2026, 5, 10)));
    let early = expected_timepoints_with_trade_day_filter("0007-01-02", "0007-01-02", 240, |_| true)
        .expect("timepoints should build");
    assert_eq!(early[0], "0007-01-02T09:30:00+08:00");
    assert_eq!(parse_date("0007-01-02"), Ok(date(7, 1, 2)));
    assert!(is_weekday(date(2026, 5, 8)));
    assert!(!is_weekday(date(2026, 5, 9)));
    assert!(!trade_day_decision(Some(false), date(2026, 5, 6)));
    assert!(trade_day_decision(None, date(2026, 5, 6)));
    assert!(!trade_day_decision(None, date(2026, 5, 9)));
}

#[test]
fn counts_trading_days_and_model_calls() {
    let weekdays = |d: CalendarDate| trade_day_decision(None, d);
    assert_eq!(trading_day_count_with_filter("2026-05-04", "2026-05-10", weekdays), Ok(5));
    assert_eq!(trading_day_count_with_filter("2026-05-10", "2026-05-04", weekdays), Ok(0));
    assert_eq!(
        trading_day_count_with_filter("2026-05-32", "2026-06-01", weekdays),
        Err(TimepointError::Date(DateParseError::Component))
    );
    assert_eq!(
        trading_day_count_with_filter("9999-12-30", "9999-12-31", weekdays),
        Err(TimepointError::RangeTooLarge)
    );
    assert_eq!(llm_call_estimate(Some(5), 60), 20);
    assert_eq!(llm_call_estimate(Some(2), 1), 96);
    assert_eq!(llm_call_estimate(None, 500), 1);
    assert_eq!(llm_call_estimate(Some(u32::MAX), 5), u32::MAX);
}

#[test]
fn bar_times_and_sessions() {
    assert_eq!(normalize_bar_time("2026-05-06 09:35:00"), "2026-05-06T09:35:00+08:00");
    assert_eq!(normalize_bar_time("2026-05-06T09:35:00+08:00"), "2026-05-06T09:35:00+08:00");
    assert!(is_a_share_session("2026-05-06 09:30:00"));
    assert!(is_a_share_session("2026-05-06T15:00:00+08:00"));
    assert!(!is_a_share_session("2026-05-06 12:00:00"));
    assert!(!is_a_share_session("short"));
    assert_eq!(minutes_of_day("09:30"), Some(570));
    assert_eq!(minutes_of_day("0930"), None);
    assert_eq!(minutes_of_day("x:30"), None);
}

#[test]
fn candle_requests_and_connection_tests() {
    assert_eq!(
        normalize_watchlist(&[" szse.000001".to_string(), "SHSE.600000".to_string(), "shse.600000".to_string(), "AAPL".to_string()]),
        vec!["SHSE.600000".to_string(), "SZSE.000001".to_string()]
    );
    assert_eq!(akshare_frequency("5M"), "5m");
    assert_eq!(akshare_frequency("1h"), "60m");
    assert_eq!(akshare_frequency("1W"), "1w");
    assert_eq!(akshare_frequency("1mo"), "1d");
    assert_eq!(candle_count("1m"), 120);
    assert_eq!(candle_count("30m"), 96);
    assert_eq!(candle_count("1w"), 80);
    assert_eq!(candle_count("1d"), 120);
    assert_eq!(connection_test_item("quote"), Ok(ConnectionTestItem::Quote));
    assert_eq!(connection_test_item("tradeCalendar"), Ok(ConnectionTestItem::TradeCalendar));
    assert_eq!(connection_test_item("ping"), Err("不支持的测试项：ping".to_string()));
    assert_eq!(connection_test_message(ConnectionTestItem::Financial), "财报数据测试成功");
    assert_eq!(connection_test_action(ConnectionTestItem::Financial), AkshareAction::FinancialReportProbe);
    assert_eq!(
        connection_test_action(ConnectionTestItem::TradeCalendar),
        AkshareAction::IsTradeDate { date: "2026-05-11".to_string() }
    );
    let o = connection_test_overrides("eastmoney", "sina", None);
    assert_eq!(o.intraday_data_source, Some("eastmoney".to_string()));
    assert_eq!(o.xueqiu_token, None);
    assert!(a_share_market_is_open_at(3, None, 9, 30));
    assert!(a_share_market_is_open_at(3, Some(true), 15, 0));
    assert!(!a_share_market_is_open_at(3, Some(false), 10, 0));
    assert!(!a_share_market_is_open_at(6, None, 10, 0));
    assert!(!a_share_market_is_open_at(3, None, 12, 0));
}

#[test]
fn unicode_text_handling_reaches_the_public_functions() {
    assert_eq!(
        normalize_a_share_watchlist(&["\u{3000} shse.600000\n".to_string()]),
        vec!["SHSE.600000".to_string()]
    );
    assert_eq!(extract_symbol("看看 BTC 行情", &["BTC/USDT".to_string()]), Some("BTC/USDT".to_string()));
}

#[test]
fn model_context_intervals_and_bar_windows() {
    let strings = |v: &[&str]| v.iter().map(|s| s.to_string()).collect::<Vec<String>>();
    let defaults = strings(&["5m", "1h", "1d", "1w"]);
    assert_eq!(
        configured_ai_kline_frequencies(&strings(&["1d", "2h", "1d", "1M", "5m"]), defaults.clone()),
        strings(&["1d", "1M", "5m"])
    );
    assert_eq!(configured_ai_kline_frequencies(&strings(&["15m", "1y"]), defaults.clone()), defaults);
    assert_eq!(configured_ai_kline_frequencies(&[], defaults.clone()), defaults);

    let times = strings(&[
        "2026-05-06 09:30:00",
        "2026-05-06 09:35:00",
        "2026-05-06T09:40:00+08:00",
        "2026-05-06 09:45:00",
    ]);
    assert_eq!(recent_bar_window(&times, "2026-05-06 09:40:00", 2), (1, 3));
    assert_eq!(recent_bar_window(&times, "2026-05-06 09:40:00", 10), (0, 3));
    assert_eq!(recent_bar_window(&times, "2026-05-06 08:00:00", 2), (2, 4));
    assert_eq!(recent_bar_window(&times, "2026-05-07 10:00:00", 1), (3, 4));
    assert_eq!(recent_bar_window(&[], "2026-05-07 10:00:00", 5), (0, 0));
    assert_eq!(recent_bar_window(&times, "2026-05-06 09:45:00", 0), (4, 4));
}

fn market_key(symbol: &str, market_type: &str) -> MarketRowKey {
    MarketRowKey { symbol: symbol.to_string(), market_type: market_type.to_string(), exchanges: vec!["akshare".to_string()] }
}

#[test]
fn groups_spot_and_perpetual_rows_by_symbol() {
    let rows = vec![
        market_key("BTC/USDT", "spot"),
        market_key("ETH/USDT", "Perpetual"),
        market_key("BTC/USDT", "perpetual"),
        market_key("ETH/USDT", "ashare"),
        market_key("BTC/USDT", "SPOT"),
    ];
    let legs = group_rows_by_symbol(&rows);
    assert_eq!(
        legs,
        vec![
            SymbolLegs { symbol: "BTC/USDT".to_string(), spot: Some(4), perpetual: Some(2) },
            SymbolLegs { symbol: "ETH/USDT".to_string(), spot: None, perpetual: Some(1) },
        ]
    );
    assert!(group_rows_by_symbol(&[]).is_empty());
}

#[test]
fn chart_requests_load_only_watched_symbols() {
    let watchlist = vec![" shse.600000 ".to_string(), "SZSE.000001".to_string()];
    assert_eq!(
        candle_plan(" shse.600000", &watchlist, "1h", None, None),
        CandlePlan::Load {
            symbol: "SHSE.600000".to_string(),
            frequency: "60m".to_string(),
            count: 96,
            market_type: "ashare".to_string(),
            exchange: "akshare".to_string(),
        }
    );
    assert_eq!(
        candle_plan("SHSE.601318", &watchlist, "1h", Some("spot".to_string()), None),
        CandlePlan::Unwatched { symbol: "SHSE.601318".to_string() }
    );
    match candle_plan("SZSE.000001", &watchlist, "5m", Some("index".to_string()), Some("other".to_string())) {
        CandlePlan::Load { market_type, exchange, count, .. } => {
            assert_eq!(market_type, "index");
            assert_eq!(exchange, "other");
            assert_eq!(count, 120);
        }
        other => panic!("unexpected plan {other:?}"),
    }
}

#[test]
fn paginates_candidates_after_score_sorting() {
    let page = paginate_candidates(
        vec![("BTC/USDT".to_string(), 91.2), ("ETH/USDT".to_string(), 78.0), ("SOL/USDT".to_string(), 64.4)],
        1,
        2,
    );

    assert_eq!(page.total, 3);
    assert_eq!(page.total_pages, 2);
    assert_eq!(page.items[0].0, "BTC/USDT");
    assert_eq!(page.items[1].0, "ETH/USDT");
}

fn chars(s: &str) -> Vec<char> {
    s.chars().collect()
}

#[test]
fn integers_parse_like_std_and_report_overflow() {
    assert_eq!(parse_u32(&chars("+42")), Ok(42));
    assert_eq!(parse_u32(&chars("4294967296")), Err(NumberError::PosOverflow));
    assert_eq!(parse_i64(&chars("-9223372036854775808")), Ok(i64::MIN));
    assert_eq!(parse_i64(&chars("-9223372036854775809")), Err(NumberError::NegOverflow));
    assert_eq!(parse_i64(&chars("-")), Err(NumberError::InvalidDigit));
    assert_eq!(parse_u32(&chars("")), Err(NumberError::Empty));
    assert_eq!(
        parse_date("4294967296-01-01"),
        Err(DateParseError::Number(NumberError::PosOverflow))
    );
}

#[test]
fn candidate_filter_keeps_matching_types_in_order() {
    let kinds = vec![
        ("spot_cross_exchange".to_string(), false),
        ("perpetual_cross_exchange".to_string(), false),
        ("spot_long_perp_short_cross_exchange".to_string(), true),
    ];
    assert_eq!(filter_candidates(ArbitrageTypeFilter::All, &kinds), vec![0, 1, 2]);
    assert_eq!(filter_candidates(ArbitrageTypeFilter::Spot, &kinds), vec![0]);
    assert_eq!(filter_candidates(ArbitrageTypeFilter::Perpetual, &kinds), vec![1]);
    assert_eq!(filter_candidates(ArbitrageTypeFilter::CrossMarket, &kinds), vec![2]);
}

#[test]
fn dates_display_as_year_month_day() {
    assert_eq!(date_to_string(date(2026, 5, 4)), "2026-05-04");
    assert_eq!(date_to_string(date(7, 12, 31)), "0007-12-31");
    assert_eq!(date_to_string(date(-44, 3, 15)), "-0044-03-15");
    assert_eq!(parse_date(&date_to_string(date(2024, 2, 29))), Ok(date(2024, 2, 29)));
}
