use kittyalpha::attempts::{
    after_attempt, analysis_failure_message, attempt_error_text, signal_failure_message, AttemptOutcome, AttemptStep,
};
use kittyalpha::endpoint::endpoint_url;
use kittyalpha::stream::{SseBuffer, StreamedReply, ToolCallParts};

#[test]
fn adds_v1_prefix_for_anthropic_gateway_base_urls() {
    assert_eq!(
        endpoint_url(
            "https://token-plan-cn.xiaomimimo.com/anthropic",
            "https://api.anthropic.com/v1",
            "messages"
        ),
        "https://token-plan-cn.xiaomimimo.com/anthropic/v1/messages"
    );
}

#[test]
fn adds_v1_prefix_for_openai_gateway_base_urls() {
    assert_eq!(
        endpoint_url(
            "https://token-plan-cn.xiaomimimo.com/openai",
            "https://api.openai.com/v1",
            "chat/completions"
        ),
        "https://token-plan-cn.xiaomimimo.com/openai/v1/chat/completions"
    );
}

#[test]
fn endpoint_urls_for_other_bases() {
    assert_eq!(
        endpoint_url("  ", "https://api.openai.com/v1/", "chat/completions"),
        "https://api.openai.com/v1/chat/completions"
    );
    assert_eq!(
        endpoint_url("https://gw.example.com/v1/", "https://api.openai.com/v1", "chat/completions"),
        "https://gw.example.com/v1/chat/completions"
    );
    assert_eq!(
        endpoint_url("https://gw.example.com/v1/messages", "https://api.anthropic.com/v1", "messages"),
        "https://gw.example.com/v1/messages"
    );
    assert_eq!(
        endpoint_url("gw.example.com", "https://api.anthropic.com/v1", "messages"),
        "gw.example.com/messages"
    );
    assert_eq!(
        endpoint_url("https://gw.example.com", "https://api.example.com", "messages"),
        "https://gw.example.com/messages"
    );
}

#[test]
fn event_stream_yields_payloads_of_complete_lines() {
    let mut buffer = SseBuffer::new();
    assert_eq!(buffer.push_chunk("data: {\"a\":1}\r\n: comment\nda"), vec!["{\"a\":1}".to_string()]);
    assert_eq!(buffer.push_chunk("ta:   [DONE]  \n"), vec!["[DONE]".to_string()]);
    assert!(buffer.push_chunk("data: tail").is_empty());
    assert_eq!(buffer.finish(), Some("tail".to_string()));

    let empty = SseBuffer::new();
    assert_eq!(empty.finish(), None);
}

#[test]
fn chunking_does_not_change_the_payloads() {
    let text = "data: one\ndata: two\nevent: x\ndata: three\n";
    let mut whole = SseBuffer::new();
    let all = whole.push_chunk(text);
    let mut pieces = SseBuffer::new();
    let mut collected = Vec::new();
    for chunk in ["da", "ta: o", "ne\nda", "ta: two\nevent: x\n", "data: three", "\n"] {
        collected.extend(pieces.push_chunk(chunk));
    }
    assert_eq!(all, collected);
    assert_eq!(all, vec!["one".to_string(), "two".to_string(), "three".to_string()]);
}

#[test]
fn openai_deltas_merge_by_position() {
    let mut reply = StreamedReply::new();
    reply.push_text("你好");
    reply.push_reasoning("想一想");
    reply.merge_tool_call_delta(1, None, Some("stock_info"), Some("{\"stock"));
    reply.merge_tool_call_delta(0, Some("call-a"), Some("market_data"), Some("{}"));
    reply.merge_tool_call_delta(1, None, None, Some("Code\":\"600000\"}"));
    reply.merge_tool_call_delta(2, Some("ignored"), None, None);
    reply.push_text("。");
    let (content, reasoning, calls) = reply.finish();
    assert_eq!(content, "你好。");
    assert_eq!(reasoning, "想一想");
    assert_eq!(
        calls,
        vec![
            ToolCallParts { id: "call-a".into(), name: "market_data".into(), arguments: "{}".into() },
            ToolCallParts {
                id: "tool-stock_info".into(),
                name: "stock_info".into(),
                arguments: "{\"stockCode\":\"600000\"}".into(),
            },
        ]
    );
}

#[test]
fn anthropic_tool_uses_collect_their_input() {
    let mut reply = StreamedReply::new();
    reply.append_tool_input(3, "{\"a\":");
    reply.start_tool_use(3, "toolu_1", "kline_data", None);
    reply.append_tool_input(3, "1}");
    reply.start_tool_use(1, "", "portfolio", Some("{\"x\":2}"));
    let (_, _, calls) = reply.finish();
    assert_eq!(
        calls,
        vec![
            ToolCallParts { id: "tool-portfolio".into(), name: "portfolio".into(), arguments: "{\"x\":2}".into() },
            ToolCallParts { id: "toolu_1".into(), name: "kline_data".into(), arguments: "{\"a\":1}".into() },
        ]
    );
}

fn drive_attempts(outcomes: &[AttemptOutcome], timeout_secs: u64) -> (usize, Option<String>) {
    let mut attempt: u32 = 1;
    let mut made = 0;
    let mut last_error = String::new();
    loop {
        let outcome = &outcomes[made];
        made += 1;
        if let Some(error) = attempt_error_text(attempt, timeout_secs, outcome) {
            last_error = error;
        }
        match after_attempt(attempt, outcome) {
            AttemptStep::Done => return (made, None),
            AttemptStep::Retry(next) => attempt = next,
            AttemptStep::GiveUp => return (made, Some(signal_failure_message(&last_error))),
        }
    }
}

#[test]
fn backtest_signal_retries_three_times_before_failure() {
    let busy = AttemptOutcome::Failed("模型繁忙".to_string());
    let (made, error) = drive_attempts(&[busy.clone(), busy.clone(), busy.clone(), busy], 60);
    assert_eq!(made, 3);
    let error = error.expect("the call should give up");
    assert!(error.contains("已重试 3 次"));
    assert_eq!(error, "AI 信号生成失败（已重试 3 次）：第 3 次尝试失败：模型繁忙");
}

#[test]
fn backtest_signal_timeout_retries_three_times_before_failure() {
    let outcomes = vec![AttemptOutcome::TimedOut; 3];
    let (made, error) = drive_attempts(&outcomes, 180);
    assert_eq!(made, 3);
    assert!(error.expect("the call should give up").contains("调用模型超时（>180秒）"));
    assert_eq!(
        analysis_failure_message("x"),
        "财报 AI 分析失败（已重试 3 次）：x"
    );
}

#[test]
fn a_model_call_stops_at_its_first_success() {
    let outcomes = vec![AttemptOutcome::TimedOut, AttemptOutcome::Succeeded, AttemptOutcome::TimedOut];
    assert_eq!(drive_attempts(&outcomes, 60), (2, None));
    assert_eq!(attempt_error_text(2, 60, &AttemptOutcome::Succeeded), None);
    assert_eq!(after_attempt(3, &AttemptOutcome::Succeeded), AttemptStep::Done);
}
