use kittyalpha::assistant::{
    allowed_tools, assistant_system_prompt, clamped_count, draft_account, extract_symbol, filter_holdings,
    filter_recommendation_history, kline_bar_count, market_data_limit, no_recommendation_for_review,
    matches_exchange_name, recommendation_source, resolved_symbol, RecommendationSource,
    normalized_exchange_name, preview_tool_result, strip_think_blocks, summarize_tool_call,
    tool_argument_text, tool_specs, DEFAULT_ASSISTANT_PROMPT,
};
use kittyalpha::commands::{
    history_page_window, report_fetch_ending, ticker_refresh_ending, JobEnding, sentiment_job_outcome, sentiment_selection_error, settings_secrets, AssistantClearAck, AssistantCommandAck, AssistantStopAck, SettingsSecretsDto,
};
use kittyalpha::session::{AssistantSessions, AssistantStoredMessage, ConversationTurn};
use kittyalpha::turn::{
    context_window, final_reply, next_step, start_turn, tool_end_status, tool_error_text,
    usable_api_key, TurnAction, TurnEvent, TurnPhase, MAX_TOOL_ROUNDS,
};

#[test]
fn extracts_symbols_from_the_dynamic_market_universe() {
    let available_symbols = vec!["SHSE.600000".to_string(), "SZSE.000001".to_string()];

    assert_eq!(
        extract_symbol("看一下 600000 今天怎么样", &available_symbols),
        Some("SHSE.600000".to_string())
    );
    assert_eq!(
        extract_symbol("000001 的持仓风险呢", &available_symbols),
        Some("SZSE.000001".to_string())
    );
    assert_eq!(extract_symbol("看一下黄金", &available_symbols), None);
}

#[test]
fn only_whitelists_safe_tools() {
    let tools = allowed_tools();
    assert!(tools.contains(&"market_data".to_string()));
    assert!(tools.contains(&"stock_info".to_string()));
    assert!(tools.contains(&"bid_ask".to_string()));
    assert!(tools.contains(&"kline_data".to_string()));
    assert!(tools.contains(&"financial_report_info".to_string()));
    assert!(!tools.contains(&"spread_analyzer".to_string()));
    assert!(!tools.contains(&"coin_info".to_string()));
    assert!(!tools.contains(&"real_order_execution".to_string()));
}

#[test]
fn stop_marks_session_cancelled() {
    let mut service = AssistantSessions::new();
    service.record_session_messages(
        "session-1",
        vec![AssistantStoredMessage::new("user", "hello")],
    );

    assert!(service.stop_run("session-1"));
    assert!(service.is_cancelled("session-1"));
}

#[test]
fn clear_session_resets_messages_and_cancelled_state() {
    let mut service = AssistantSessions::new();
    service.record_session_messages(
        "session-1",
        vec![
            AssistantStoredMessage::new("user", "hello"),
            AssistantStoredMessage::new("assistant", "world"),
        ],
    );
    let _ = service.stop_run("session-1");

    service.clear_session("session-1");

    assert!(!service.is_cancelled("session-1"));
    assert!(service.session_messages("session-1").is_empty());
}

#[test]
fn catalogue_adds_financial_report_tool_only_when_enabled() {
    let without: Vec<&str> = tool_specs(false).iter().map(|t| t.name).collect();
    let with: Vec<&str> = tool_specs(true).iter().map(|t| t.name).collect();
    assert_eq!(without.len(), 10);
    assert!(!without.contains(&"financial_report_info"));
    assert_eq!(with.len(), 11);
    assert_eq!(with[10], "financial_report_info");
    assert_eq!(allowed_tools().len(), 11);
}

#[test]
fn new_user_turn_supersedes_the_previous_run() {
    let mut sessions = AssistantSessions::new();
    assert_eq!(sessions.current_run_id("s"), 0);
    let first = sessions.begin_user_turn("s", "第一次");
    assert_eq!(first, 1);
    assert!(sessions.is_current_run("s", first));
    let _ = sessions.stop_run("s");
    assert!(sessions.is_cancelled_now("s"));
    let second = sessions.begin_user_turn("s", "第二次");
    assert_eq!(second, 2);
    assert!(!sessions.is_current_run("s", first));
    assert!(sessions.is_current_run("s", second));
    assert!(!sessions.is_cancelled_now("s"));
    assert!(!sessions.is_current_run("other", 0));
}

#[test]
fn unknown_session_is_fresh_and_sessions_are_independent() {
    let mut sessions = AssistantSessions::new();
    assert!(!sessions.is_cancelled("nobody"));
    assert!(sessions.session_messages("nobody").is_empty());
    let _ = sessions.stop_run("a");
    sessions.append_tool_result("a", "{}");
    assert!(sessions.is_cancelled("a"));
    assert!(!sessions.is_cancelled("b"));
    assert!(sessions.session_messages("b").is_empty());
    assert_eq!(sessions.session_messages("a").len(), 1);
}

#[test]
fn conversation_replays_user_and_assistant_messages_only() {
    let mut sessions = AssistantSessions::new();
    sessions.begin_user_turn("s", "看一下 600000");
    sessions.append_assistant_tool_context("s", "   ");
    sessions.append_assistant_tool_context("s", "我先查一下行情");
    sessions.append_tool_result("s", "{\"ok\":true}");
    sessions.append_assistant_message("s", "浦发银行今天上涨。");

    let messages = sessions.session_messages("s");
    let roles: Vec<&str> = messages.iter().map(|m| m.role.as_str()).collect();
    assert_eq!(roles, vec!["user", "assistant", "tool", "assistant"]);

    assert_eq!(
        sessions.conversation_from_session("s"),
        vec![
            ConversationTurn::User("看一下 600000".to_string()),
            ConversationTurn::AssistantText("我先查一下行情".to_string()),
            ConversationTurn::AssistantText("浦发银行今天上涨。".to_string()),
        ]
    );
    assert!(sessions.conversation_from_session("other").is_empty());
}

fn drive(events: &[TurnEvent]) -> Vec<TurnAction> {
    let (mut phase, first) = start_turn();
    let mut actions = vec![first];
    for event in events {
        let (next, action) = next_step(phase, *event);
        phase = next;
        actions.push(action);
    }
    actions
}

fn checked() -> TurnEvent {
    TurnEvent::SessionChecked { current: true, cancelled: false }
}

#[test]
fn turn_replies_when_the_model_asks_for_no_tool() {
    let actions = drive(&[
        checked(),
        TurnEvent::ModelReplied { tool_calls: 0, current: true, cancelled: false },
    ]);
    assert_eq!(actions, vec![TurnAction::CheckSession, TurnAction::RequestModel, TurnAction::Reply]);
}

#[test]
fn turn_runs_each_requested_tool_in_order_then_asks_again() {
    let actions = drive(&[
        checked(),
        TurnEvent::ModelReplied { tool_calls: 2, current: true, cancelled: false },
        checked(),
        TurnEvent::ToolFinished,
        checked(),
        TurnEvent::ToolFinished,
        checked(),
        TurnEvent::ModelReplied { tool_calls: 0, current: true, cancelled: false },
    ]);
    assert_eq!(
        actions,
        vec![
            TurnAction::CheckSession,
            TurnAction::RequestModel,
            TurnAction::CheckSession,
            TurnAction::RunTool { index: 0 },
            TurnAction::CheckSession,
            TurnAction::RunTool { index: 1 },
            TurnAction::CheckSession,
            TurnAction::RequestModel,
            TurnAction::Reply,
        ]
    );
}

#[test]
fn turn_stops_when_cancelled_or_superseded() {
    let (phase, _) = start_turn();
    assert_eq!(
        next_step(phase, TurnEvent::SessionChecked { current: true, cancelled: true }),
        (TurnPhase::Finished, TurnAction::Cancelled)
    );
    assert_eq!(
        next_step(phase, TurnEvent::SessionChecked { current: false, cancelled: true }),
        (TurnPhase::Finished, TurnAction::Abandon)
    );
    let waiting = TurnPhase::AwaitingReply { round: 3 };
    assert_eq!(
        next_step(waiting, TurnEvent::ModelReplied { tool_calls: 4, current: true, cancelled: true }),
        (TurnPhase::Finished, TurnAction::Cancelled)
    );
    let before_tool = TurnPhase::BeforeTool { round: 0, index: 1, count: 2 };
    assert_eq!(
        next_step(before_tool, TurnEvent::SessionChecked { current: false, cancelled: false }),
        (TurnPhase::Finished, TurnAction::Abandon)
    );
}

#[test]
fn turn_gives_up_after_the_last_round_of_tools() {
    let mut events = Vec::new();
    for _ in 0..MAX_TOOL_ROUNDS {
        events.push(checked());
        events.push(TurnEvent::ModelReplied { tool_calls: 1, current: true, cancelled: false });
        events.push(checked());
        events.push(TurnEvent::ToolFinished);
    }
    let actions = drive(&events);
    let requests = actions.iter().filter(|a| **a == TurnAction::RequestModel).count();
    assert_eq!(requests, 12);
    assert_eq!(*actions.last().unwrap(), TurnAction::RoundsExhausted);
}

#[test]
fn turn_texts() {
    assert_eq!(final_reply("<think>推理</think>  结论 "), "结论");
    assert_eq!(tool_end_status("Error: boom"), "error");
    assert_eq!(tool_end_status("{\"ok\":true}"), "done");
    assert_eq!(tool_error_text("no rows"), "Error: no rows");
    assert_eq!(usable_api_key(Some("sk-1".to_string())), Ok("sk-1".to_string()));
    let missing = "No model API key configured for Assistant.".to_string();
    assert_eq!(usable_api_key(Some("  ".to_string())), Err(missing.clone()));
    assert_eq!(usable_api_key(None), Err(missing));
    assert_eq!(context_window(512), 1024);
    assert_eq!(context_window(32000), 32000);
}

#[test]
fn strips_reasoning_blocks() {
    assert_eq!(strip_think_blocks("a<think>x</think>b<think>y</think>c"), "abc");
    assert_eq!(strip_think_blocks("keep<think>unterminated"), "keep");
    assert_eq!(strip_think_blocks("no tags"), "no tags");
}

#[test]
fn previews_long_tool_results() {
    assert_eq!(preview_tool_result("  short  "), "short");
    let long = "x".repeat(300);
    let preview = preview_tool_result(&long);
    assert_eq!(preview.len(), 223);
    assert!(preview.ends_with("..."));
}

#[test]
fn account_names_ignore_paper_prefix() {
    assert_eq!(normalized_exchange_name("Paper: cash"), "cash");
    assert_eq!(normalized_exchange_name("live"), "live");
    assert!(matches_exchange_name("Paper: Cash", "cash"));
    assert!(!matches_exchange_name("Paper: Cash", "margin"));
}

#[test]
fn summarizes_tool_calls() {
    assert_eq!(summarize_tool_call("market_data", Some(" SHSE.600000 "), None), "读取 SHSE.600000 的缓存行情");
    assert_eq!(summarize_tool_call("market_data", Some("  "), None), "读取 自选股缓存 的缓存行情");
    assert_eq!(summarize_tool_call("stock_info", None, None), "读取 指定股票 的个股资料");
    assert_eq!(summarize_tool_call("bid_ask", Some("SZSE.000001"), None), "读取 SZSE.000001 的五档盘口");
    assert_eq!(summarize_tool_call("kline_data", None, None), "读取 指定股票 的多周期 K 线");
    assert_eq!(summarize_tool_call("recommendation_history", None, None), "读取投资建议历史");
    assert_eq!(summarize_tool_call("risk_calculator", None, None), "汇总投资建议风险");
    assert_eq!(summarize_tool_call("portfolio", None, None), "读取本地模拟组合");
    assert_eq!(summarize_tool_call("positions", None, None), "读取模拟持仓和委托");
    assert_eq!(summarize_tool_call("paper_order_draft", None, Some("Paper: A")), "创建 Paper: A 的模拟委托草稿");
    assert_eq!(summarize_tool_call("paper_order_draft", None, None), "创建 默认模拟账户 的模拟委托草稿");
    assert_eq!(summarize_tool_call("signal_scan", None, None), "Run signal_scan");
    assert_eq!(tool_argument_text(Some("  x ")), Some("x".to_string()));
    assert_eq!(tool_argument_text(Some("   ")), None);
    assert_eq!(tool_argument_text(None), None);
}

#[test]
fn builds_system_prompts() {
    let tools = allowed_tools().join(", ");
    assert_eq!(
        assistant_system_prompt("  只谈银行股  ", "忽略"),
        format!("只谈银行股 可用工具: {tools}.")
    );
    assert_eq!(
        assistant_system_prompt("", ""),
        format!("{DEFAULT_ASSISTANT_PROMPT}{tools}.")
    );
    assert_eq!(
        assistant_system_prompt(" ", " 偏好低估值 "),
        format!("{DEFAULT_ASSISTANT_PROMPT}{tools}. 用户补充偏好: 偏好低估值")
    );
    assert!(assistant_system_prompt("", "").starts_with("你是 KittyRed Assistant"));
}

#[test]
fn command_replies() {
    assert!(AssistantCommandAck { started: true }.started);
    assert!(AssistantStopAck { stopped: true }.stopped);
    assert!(AssistantClearAck { cleared: true }.cleared);
    assert_eq!(
        settings_secrets(Ok(Some("key".to_string())), Ok(None)),
        Ok(SettingsSecretsDto { model_api_key: "key".to_string(), xueqiu_token: String::new() })
    );
    assert_eq!(
        settings_secrets(Err("locked".to_string()), Err("also".to_string())),
        Err("locked".to_string())
    );
    assert_eq!(
        settings_secrets(Ok(None), Err("vault".to_string())),
        Err("vault".to_string())
    );
}

#[test]
fn resolves_requested_symbols_against_the_cached_universe() {
    let available = vec!["SHSE.600000".to_string(), "SZSE.000001".to_string()];
    assert_eq!(resolved_symbol(Some("600000".to_string()), &available), Some("SHSE.600000".to_string()));
    assert_eq!(resolved_symbol(Some("SHSE.601318".to_string()), &available), Some("SHSE.601318".to_string()));
    assert_eq!(resolved_symbol(None, &available), None);
}

#[test]
fn filters_recommendation_history_by_symbol_ignoring_case() {
    let rows = vec!["SHSE.600000".to_string(), "SZSE.000001".to_string(), "shse.600000".to_string()];
    assert_eq!(filter_recommendation_history(&rows, Some("SHSE.600000")), vec![0, 2]);
    assert_eq!(filter_recommendation_history(&rows, None), vec![0, 1, 2]);
    assert!(filter_recommendation_history(&rows, Some("SHSE.601318")).is_empty());
}

#[test]
fn picks_the_recommendation_a_tool_call_reports() {
    let latest = vec![None, Some("SZSE.000001".to_string()), Some("shse.600000".to_string())];
    assert_eq!(recommendation_source(&latest, None, true), RecommendationSource::Latest(0));
    assert_eq!(recommendation_source(&[], None, true), RecommendationSource::Nothing);
    assert_eq!(recommendation_source(&latest, Some("SHSE.600000"), true), RecommendationSource::Latest(2));
    assert_eq!(recommendation_source(&latest, Some("SHSE.601318"), true), RecommendationSource::HistoryHint);
    assert_eq!(recommendation_source(&latest, Some("SHSE.601318"), false), RecommendationSource::Nothing);
}

#[test]
fn signal_history_pages_are_windows_of_the_records() {
    assert_eq!(history_page_window(5, 1, 2), (0, 2));
    assert_eq!(history_page_window(5, 2, 2), (2, 4));
    assert_eq!(history_page_window(5, 3, 2), (4, 5));
    assert_eq!(history_page_window(5, 0, 2), (0, 2));
    assert_eq!(history_page_window(5, 10, 2), (5, 5));
    assert_eq!(history_page_window(5, usize::MAX, usize::MAX), (5, 5));
    assert_eq!(history_page_window(5, 1, 0), (0, 0));
}

#[test]
fn tool_counts_take_defaults_and_stay_in_range() {
    assert_eq!(market_data_limit(None), 5);
    assert_eq!(market_data_limit(Some(0)), 1);
    assert_eq!(market_data_limit(Some(50)), 10);
    assert_eq!(kline_bar_count(None), 60);
    assert_eq!(kline_bar_count(Some(500)), 120);
    assert_eq!(kline_bar_count(Some(30)), 30);
    assert_eq!(clamped_count(Some(7), 1, 2, 9), 7);
}

#[test]
fn draft_account_prefers_request_then_recommendation() {
    let exchanges = vec!["akshare:xueqiu".to_string(), "模拟账户".to_string()];
    assert_eq!(draft_account(Some("人民币现金".to_string()), &exchanges), "人民币现金");
    assert_eq!(draft_account(None, &exchanges), "akshare:xueqiu");
    assert_eq!(draft_account(None, &[]), "akshare");
}

#[test]
fn positions_tool_keeps_matching_symbol_and_account() {
    let holdings = vec![
        ("SHSE.600000".to_string(), "Paper: 人民币现金".to_string()),
        ("shse.600000".to_string(), "akshare".to_string()),
        ("SZSE.000001".to_string(), "Paper: 人民币现金".to_string()),
    ];
    assert_eq!(filter_holdings(&holdings, Some("SHSE.600000"), None), vec![0, 1]);
    assert_eq!(filter_holdings(&holdings, None, Some("人民币现金")), vec![0, 2]);
    assert_eq!(filter_holdings(&holdings, Some("SHSE.600000"), Some("AKSHARE")), vec![1]);
    assert_eq!(filter_holdings(&holdings, None, None), vec![0, 1, 2]);
    assert_eq!(
        no_recommendation_for_review(Some("SHSE.600000")),
        "No recommendation is available for risk review for SHSE.600000."
    );
    assert_eq!(no_recommendation_for_review(None), "No recommendation is available for risk review.");
}

#[test]
fn sentiment_job_outcome_names_failed_stocks() {
    assert_eq!(sentiment_job_outcome(2, &[]), ("已完成 2 只自选股 AI 舆情分析".to_string(), None));
    let failures = vec![
        ("SHSE.600000".to_string(), "超时".to_string()),
        ("SZSE.000001".to_string(), "无数据".to_string()),
    ];
    assert_eq!(
        sentiment_job_outcome(1, &failures),
        (
            "已完成 1 只自选股 AI 舆情分析，2 只失败：SHSE.600000、SZSE.000001".to_string(),
            Some("SHSE.600000: 超时\nSZSE.000001: 无数据".to_string()),
        )
    );
    assert_eq!(
        sentiment_selection_error(&[]),
        Some("请选择至少一只自选股后再开始 AI 舆情分析".to_string())
    );
    assert_eq!(sentiment_selection_error(&["SHSE.600000".to_string()]), None);
}

#[test]
fn background_jobs_end_with_their_outcome() {
    assert_eq!(
        ticker_refresh_ending(Ok(3)),
        JobEnding {
            status: "done".to_string(),
            message: "已刷新 3 条自选股行情".to_string(),
            result_summary: Some("已刷新 3 条自选股行情".to_string()),
            error_details: None,
        }
    );
    let failed = ticker_refresh_ending(Err("timeout".to_string()));
    assert_eq!(failed.status, "failed");
    assert_eq!(failed.message, "Ticker cache refresh failed: timeout");
    assert_eq!(failed.error_details.as_deref(), Some("timeout"));
    assert_eq!(report_fetch_ending(Ok(()), Some("cancelled")).status, "cancelled");
    assert_eq!(
        report_fetch_ending(Ok(()), Some("cancelled")).error_details.as_deref(),
        Some("Cancelled by user")
    );
    assert_eq!(report_fetch_ending(Ok(()), Some("completed")).message, "财报拉取完成");
    assert_eq!(report_fetch_ending(Ok(()), None).status, "done");
    assert_eq!(report_fetch_ending(Err("断网".to_string()), None).error_details.as_deref(), Some("断网"));
}

#[test]
fn consecutive_history_pages_tile_the_records() {
    let mut expected_start = 0;
    for page in 1..=5 {
        let (start, end) = history_page_window(7, page, 2);
        assert_eq!(start, expected_start);
        expected_start = end;
    }
    assert_eq!(expected_start, 7);
}
