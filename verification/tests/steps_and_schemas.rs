use kittyalpha::arbitrage::{parse_rfc3339_millis, unix_millis_from_nanos};
use kittyalpha::assistant::{market_tool_rows, tool_specs};
use kittyalpha::stream::{StreamEffect, StreamEvent, StreamedReply};
use kittyalpha::snapshot_fetch::{
    fetch_event_allowed, fetch_start, fetch_step, FetchAction, FetchError, FetchEvent, FetchPhase,
};

#[test]
fn nanoseconds_round_toward_zero() {
    assert_eq!(unix_millis_from_nanos(0), 0);
    assert_eq!(unix_millis_from_nanos(1_999_999), 1);
    assert_eq!(unix_millis_from_nanos(2_000_000), 2);
    assert_eq!(unix_millis_from_nanos(-1), 0);
    assert_eq!(unix_millis_from_nanos(-999_999), 0);
    assert_eq!(unix_millis_from_nanos(-1_000_000), -1);
    assert_eq!(unix_millis_from_nanos(-1_500_000), -1);
    assert_eq!(unix_millis_from_nanos(i128::MIN), i128::MIN / 1_000_000);
    assert_eq!(unix_millis_from_nanos(i128::MAX), i128::MAX / 1_000_000);
}

#[test]
fn rfc3339_instants_become_milliseconds() {
    assert_eq!(parse_rfc3339_millis("1970-01-01T00:00:01.0019Z"), Some(1001));
    assert_eq!(parse_rfc3339_millis("1969-12-31T23:59:59.9995Z"), Some(0));
    assert_eq!(parse_rfc3339_millis("1969-12-31T23:59:58.5Z"), Some(-1500));
    assert_eq!(parse_rfc3339_millis("2026-05-04T10:00:00+08:00"), Some(1_777_860_000_000));
    assert_eq!(parse_rfc3339_millis("2026-05-04"), None);
}

#[test]
fn tool_schemas_are_closed_objects() {
    for with_report in [false, true] {
        for spec in tool_specs(with_report) {
            assert_eq!(spec.schema_type, "object");
            assert!(!spec.additional_properties);
        }
    }
    let specs = tool_specs(true);
    let kline = specs.iter().find(|s| s.name == "kline_data").unwrap();
    let names: Vec<&str> = kline.parameters.iter().map(|p| p.name).collect();
    assert_eq!(names, vec!["stockCode", "count"]);
    assert!(kline.parameters[0].required);
    assert_eq!(kline.parameters[0].kind, "string");
    assert_eq!(kline.parameters[1].kind, "integer");
    assert_eq!(kline.parameters[1].minimum, Some(1));
    assert_eq!(kline.parameters[1].maximum, Some(120));
    assert!(!kline.parameters[1].required);
    let portfolio = specs.iter().find(|s| s.name == "portfolio").unwrap();
    assert!(portfolio.parameters.is_empty());
    let market = specs.iter().find(|s| s.name == "market_data").unwrap();
    assert!(!market.parameters[0].required);
    assert_eq!(market.parameters[1].maximum, Some(10));
    let report = specs.last().unwrap();
    assert_eq!(report.name, "financial_report_info");
    assert!(report.parameters[0].required);
}

#[test]
fn fetch_without_symbols_fails_at_once() {
    let (state, action) = fetch_start(0);
    assert_eq!(state.phase, FetchPhase::Finished);
    assert_eq!(action, FetchAction::Fail { error: FetchError::NoSnapshots { failures: 0 } });
    assert_eq!(
        FetchError::NoSnapshots { failures: 0 }.message(),
        "没有拉取到可用历史快照，已记录 0 条失败股票-时间点。"
    );
}

#[test]
fn fetch_walks_symbols_and_samples() {
    let (s, a) = fetch_start(2);
    assert_eq!(a, FetchAction::LoadSymbol { index: 0 });
    let e = FetchEvent::BarsSampled { samples: 2, context_failures: 1 };
    assert!(fetch_event_allowed(&s, e));
    let (s, a) = fetch_step(&s, e);
    assert_eq!(a, FetchAction::StoreSample { symbol: 0, sample: 0 });
    assert_eq!((s.total, s.failures), (2, 2));
    assert!(!fetch_event_allowed(&s, FetchEvent::BarsEmpty { timepoints: 3 }));
    let (s, a) = fetch_step(&s, FetchEvent::SnapshotStored);
    assert_eq!(a, FetchAction::StoreSample { symbol: 0, sample: 1 });
    let (s, a) = fetch_step(&s, FetchEvent::BarInvalid);
    assert_eq!(a, FetchAction::LoadSymbol { index: 1 });
    assert_eq!((s.inserted, s.failures), (1, 3));
    let (s, a) = fetch_step(&s, FetchEvent::BarsFailed { timepoints: 0 });
    assert_eq!(a, FetchAction::Done { inserted: 1, total: 2, failures: 4 });
    assert_eq!(s.phase, FetchPhase::Finished);
    assert!(!fetch_event_allowed(&s, FetchEvent::Cancelled));
}

#[test]
fn fetch_with_nothing_stored_reports_failures() {
    let (s, _) = fetch_start(1);
    let (s, a) = fetch_step(&s, FetchEvent::BarsEmpty { timepoints: 5 });
    assert_eq!(s.total, 5);
    assert_eq!(a, FetchAction::Fail { error: FetchError::NoSnapshots { failures: 5 } });
    assert_eq!(
        FetchError::NoSnapshots { failures: 5 }.message(),
        "没有拉取到可用历史快照，已记录 5 条失败股票-时间点。"
    );
}

#[test]
fn fetch_stops_when_cancelled() {
    let (s, _) = fetch_start(3);
    let (s, a) = fetch_step(&s, FetchEvent::BarsSampled { samples: 4, context_failures: 0 });
    assert_eq!(a, FetchAction::StoreSample { symbol: 0, sample: 0 });
    let (s, a) = fetch_step(&s, FetchEvent::Cancelled);
    assert_eq!(a, FetchAction::Fail { error: FetchError::Cancelled });
    assert_eq!(s.phase, FetchPhase::Finished);
    assert_eq!(FetchError::Cancelled.message(), "数据拉取已取消");
}

#[test]
fn market_tool_keeps_matching_rows_up_to_limit() {
    let symbols = vec!["SHSE.600000".to_string(), "SZSE.000001".to_string(), "shse.600000".to_string()];
    assert_eq!(market_tool_rows(&symbols, Some("SHSE.600000"), 5), vec![0, 2]);
    assert_eq!(market_tool_rows(&symbols, Some("SHSE.600000"), 1), vec![0]);
    assert_eq!(market_tool_rows(&symbols, None, 2), vec![0, 1]);
    assert_eq!(market_tool_rows(&symbols, None, 10), vec![0, 1, 2]);
    assert!(market_tool_rows(&symbols, Some("SZSE.000002"), 5).is_empty());
}

#[test]
fn stream_events_build_the_reply() {
    let mut reply = StreamedReply::new();
    let effect = reply.apply(StreamEvent::TextBlockStart { text: String::new() });
    assert_eq!(effect, StreamEffect { token: None, reasoning: None, read_on: true });
    let effect = reply.apply(StreamEvent::Text { text: "你好".to_string() });
    assert_eq!(effect.token, Some("你好".to_string()));
    let effect = reply.apply(StreamEvent::ReasoningBlockStart { text: "think".to_string() });
    assert_eq!(effect.reasoning, Some("think".to_string()));
    reply.apply(StreamEvent::ToolUseStart {
        index: 1,
        id: "toolu_1".to_string(),
        name: "market_data".to_string(),
        input: None,
    });
    reply.apply(StreamEvent::ToolInput { index: 1, partial: "{\"limit\":".to_string() });
    reply.apply(StreamEvent::ToolInput { index: 1, partial: "3}".to_string() });
    reply.apply(StreamEvent::ToolCallDelta {
        index: 0,
        id: None,
        name: Some("portfolio".to_string()),
        arguments: Some("{}".to_string()),
    });
    assert!(reply.apply(StreamEvent::Other).read_on);
    assert!(!reply.apply(StreamEvent::End).read_on);
    let (content, reasoning, calls) = reply.finish();
    assert_eq!(content, "你好");
    assert_eq!(reasoning, "think");
    assert_eq!(calls.len(), 2);
    assert_eq!(calls[0].name, "portfolio");
    assert_eq!(calls[0].id, "tool-portfolio");
    assert_eq!(calls[1].id, "toolu_1");
    assert_eq!(calls[1].arguments, "{\"limit\":3}");
}
