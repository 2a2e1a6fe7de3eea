use kittyalpha::backtest::{
    expected_timepoints_with_trade_day_filter, normalize_bar_time, planned_snapshot_count_with_filter,
    day_ago_index, no_snapshots_message, sampled_bars, pending_signal_snapshots, replay_timepoints, signal_may_open,
    SignalPlanError, sampled_bars_with_targets, stock_name_from_values, stock_name_keys,
    trade_day_decision, trailing_day_window,
};
use kittyalpha::calendar::CalendarDate;

fn weekday_calendar(date: CalendarDate) -> bool {
    trade_day_decision(None, date)
}

#[test]
fn expected_timepoints_always_include_session_close() {
    let timepoints =
        expected_timepoints_with_trade_day_filter("2026-05-06", "2026-05-06", 45, weekday_calendar)
            .expect("timepoints should build");

    assert_eq!(
        timepoints,
        vec![
            "2026-05-06T09:30:00+08:00",
            "2026-05-06T10:15:00+08:00",
            "2026-05-06T11:00:00+08:00",
            "2026-05-06T11:30:00+08:00",
            "2026-05-06T13:00:00+08:00",
            "2026-05-06T13:45:00+08:00",
            "2026-05-06T14:30:00+08:00",
            "2026-05-06T15:00:00+08:00",
        ]
    );
}

#[test]
fn expected_timepoints_skip_holidays_when_calendar_marks_them_closed() {
    let timepoints =
        expected_timepoints_with_trade_day_filter("2026-05-01", "2026-05-07", 60, |date| {
            matches!((date.year, date.month, date.day), (2026, 5, 6) | (2026, 5, 7))
        })
        .expect("timepoints should build");

    assert_eq!(
        timepoints,
        vec![
            "2026-05-06T09:30:00+08:00",
            "2026-05-06T10:30:00+08:00",
            "2026-05-06T11:30:00+08:00",
            "2026-05-06T13:00:00+08:00",
            "2026-05-06T14:00:00+08:00",
            "2026-05-06T15:00:00+08:00",
            "2026-05-07T09:30:00+08:00",
            "2026-05-07T10:30:00+08:00",
            "2026-05-07T11:30:00+08:00",
            "2026-05-07T13:00:00+08:00",
            "2026-05-07T14:00:00+08:00",
            "2026-05-07T15:00:00+08:00",
        ]
    );
}

#[test]
fn sampled_bars_align_to_target_timepoints_and_finish_at_market_close() {
    let mut bars = Vec::new();
    for hour in [9, 10, 11] {
        let start_minute = if hour == 9 { 35 } else { 0 };
        let end_minute = if hour == 11 { 30 } else { 55 };
        let mut minute = start_minute;
        while minute <= end_minute {
            bars.push(format!("2026-05-06 {hour:02}:{minute:02}:00"));
            minute += 5;
        }
    }
    for hour in [13, 14, 15] {
        let start_minute = if hour == 13 { 5 } else { 0 };
        let end_minute = if hour == 15 { 0 } else { 55 };
        let mut minute = start_minute;
        while minute <= end_minute {
            bars.push(format!("2026-05-06 {hour:02}:{minute:02}:00"));
            minute += 5;
        }
    }

    let targets =
        expected_timepoints_with_trade_day_filter("2026-05-06", "2026-05-06", 60, weekday_calendar)
            .unwrap_or_default();
    let selected = sampled_bars_with_targets(&bars, "2026-05-06", "2026-05-06", &targets);

    assert_eq!(
        selected
            .iter()
            .map(|item| item.captured_at.clone())
            .collect::<Vec<_>>(),
        vec![
            "2026-05-06T09:30:00+08:00",
            "2026-05-06T10:30:00+08:00",
            "2026-05-06T11:30:00+08:00",
            "2026-05-06T13:00:00+08:00",
            "2026-05-06T14:00:00+08:00",
            "2026-05-06T15:00:00+08:00",
        ]
    );
    assert_eq!(
        selected
            .iter()
            .map(|item| normalize_bar_time(&bars[item.bar_index]))
            .collect::<Vec<_>>(),
        vec![
            "2026-05-06T09:35:00+08:00",
            "2026-05-06T10:30:00+08:00",
            "2026-05-06T11:30:00+08:00",
            "2026-05-06T13:05:00+08:00",
            "2026-05-06T14:00:00+08:00",
            "2026-05-06T15:00:00+08:00",
        ]
    );
}

#[test]
fn sampled_bars_do_not_forward_fill_from_later_trading_day() {
    let bars = vec![
        "2026-05-06 09:30:00".to_string(),
        "2026-05-06 10:30:00".to_string(),
    ];
    let targets = vec![
        "2026-05-01T09:30:00+08:00".to_string(),
        "2026-05-06T09:30:00+08:00".to_string(),
        "2026-05-06T10:30:00+08:00".to_string(),
    ];

    let selected = sampled_bars_with_targets(&bars, "2026-05-01", "2026-05-06", &targets);

    assert_eq!(
        selected
            .iter()
            .map(|item| item.captured_at.clone())
            .collect::<Vec<_>>(),
        vec!["2026-05-06T09:30:00+08:00", "2026-05-06T10:30:00+08:00",]
    );
    assert_eq!(
        selected
            .iter()
            .map(|item| normalize_bar_time(&bars[item.bar_index]))
            .collect::<Vec<_>>(),
        vec!["2026-05-06T09:30:00+08:00", "2026-05-06T10:30:00+08:00",]
    );
}

#[test]
fn planned_snapshot_count_is_timepoints_times_symbols() {
    let count = planned_snapshot_count_with_filter("2026-05-06", "2026-05-06", 45, 3, weekday_calendar)
        .expect("count should build");
    assert_eq!(count, 24);
    let none = planned_snapshot_count_with_filter("2026-05-09", "2026-05-10", 45, 3, weekday_calendar)
        .expect("count should build");
    assert_eq!(none, 0);
    assert!(planned_snapshot_count_with_filter("2026-05", "2026-05-10", 45, 3, weekday_calendar).is_err());
}

#[test]
fn stock_name_is_the_first_non_blank_profile_field() {
    assert_eq!(stock_name_keys(), vec!["股票简称", "名称", "name", "org_name_cn", "short_name"]);
    let values = vec![None, Some("  ".to_string()), Some("浦发银行".to_string()), Some("SPDB".to_string())];
    assert_eq!(stock_name_from_values(&values), Some("浦发银行".to_string()));
    assert_eq!(stock_name_from_values(&[None, Some(String::new())]), None);
}

#[test]
fn snapshot_windows_reach_back_one_day() {
    assert_eq!(trailing_day_window(0), (0, 1));
    assert_eq!(trailing_day_window(47), (0, 48));
    assert_eq!(trailing_day_window(48), (0, 49));
    assert_eq!(trailing_day_window(100), (52, 101));
    assert_eq!(day_ago_index(47), None);
    assert_eq!(day_ago_index(48), Some(0));
    assert_eq!(day_ago_index(60), Some(12));
    assert_eq!(no_snapshots_message(12), "没有拉取到可用历史快照，已记录 12 条失败股票-时间点。");
}

fn key(symbol: &str, at: &str) -> (String, String) {
    (symbol.to_string(), at.to_string())
}

#[test]
fn pending_signals_skip_generated_and_unselected_snapshots() {
    let snapshots = vec![
        key("SHSE.600000", "2026-05-06T09:30:00+08:00"),
        key("SZSE.000001", "2026-05-06T09:30:00+08:00"),
        key("SHSE.600000", "2026-05-06T10:00:00+08:00"),
    ];
    let existing = vec![key("SHSE.600000", "2026-05-06T09:30:00+08:00")];
    assert_eq!(pending_signal_snapshots(&snapshots, None, &existing), Ok((vec![1, 2], 3)));
    let selected = vec!["SHSE.600000".to_string()];
    assert_eq!(pending_signal_snapshots(&snapshots, Some(&selected), &existing), Ok((vec![2], 2)));
    let other = vec!["SHSE.601318".to_string()];
    assert_eq!(
        pending_signal_snapshots(&snapshots, Some(&other), &existing),
        Err(SignalPlanError::NoneSelected)
    );
    assert_eq!(pending_signal_snapshots(&[], None, &existing), Err(SignalPlanError::NoSnapshots));
    assert_eq!(SignalPlanError::NoneSelected.message(), "回测数据集没有匹配所选股票的快照");
}

#[test]
fn replay_steps_through_each_capture_time_once() {
    let times = vec![
        "2026-05-06T10:00:00+08:00".to_string(),
        "2026-05-06T09:30:00+08:00".to_string(),
        "2026-05-06T10:00:00+08:00".to_string(),
        "2026-05-07T09:30:00+08:00".to_string(),
    ];
    assert_eq!(
        replay_timepoints(times),
        vec![
            "2026-05-06T09:30:00+08:00".to_string(),
            "2026-05-06T10:00:00+08:00".to_string(),
            "2026-05-07T09:30:00+08:00".to_string(),
        ]
    );
}

#[test]
fn only_buy_signals_of_unheld_stocks_with_a_snapshot_open_positions() {
    let open = vec!["SZSE.000001".to_string()];
    let current = vec!["SHSE.600000".to_string(), "SZSE.000001".to_string()];
    assert!(signal_may_open(true, Some("买入"), "SHSE.600000", &open, &current));
    assert!(!signal_may_open(false, Some("买入"), "SHSE.600000", &open, &current));
    assert!(!signal_may_open(true, Some("卖出"), "SHSE.600000", &open, &current));
    assert!(!signal_may_open(true, None, "SHSE.600000", &open, &current));
    assert!(!signal_may_open(true, Some("买入"), "SZSE.000001", &open, &current));
    assert!(!signal_may_open(true, Some("买入"), "SHSE.601318", &open, &current));
}

#[test]
fn sampled_bars_take_their_targets_from_the_trading_calendar() {
    let bars: Vec<String> = ["2026-05-06 09:35:00", "2026-05-06 10:20:00", "2026-05-06 15:00:00", "2026-05-09 10:00:00"]
        .iter()
        .map(|s| s.to_string())
        .collect();
    let targets =
        expected_timepoints_with_trade_day_filter("2026-05-06", "2026-05-09", 45, weekday_calendar).expect("timepoints");
    assert_eq!(
        sampled_bars(&bars, "2026-05-06", "2026-05-09", 45, weekday_calendar),
        sampled_bars_with_targets(&bars, "2026-05-06", "2026-05-09", &targets)
    );
    assert!(sampled_bars(&bars, "bad", "2026-05-09", 45, weekday_calendar).is_empty());
}
