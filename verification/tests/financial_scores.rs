use kittyalpha::financial::{
    analysis_json_text, calculate_financial_score, financial_analysis_system_prompt,
    financial_analysis_user_prompt, section_revision,
    source_revision_for_sections, calculate_radar_scores, normalize_stock_code,
    parse_financial_analysis, shorten_display_name, AnalysisError, FinancialAnalysisFields,
    FinancialReportCategoryScores, ParsedFinancialAnalysis, StockCodeError,
};
use kittyalpha::financial::progress::{
    finalize_analysis_progress, idle_analysis_progress, initialize_analysis_progress, short_name_for_stock,
    fetch_completed_progress, section_fetch_step, update_analysis_item, watchlist_analysis_result,
    FetchProgressUpdate,
};
use kittyalpha::attempts::{after_attempt, analysis_failure_message, attempt_error_text, AttemptOutcome, AttemptStep};
use serde_json::Value;

fn sample_category_scores() -> FinancialReportCategoryScores {
    FinancialReportCategoryScores {
        revenue_quality: 7,
        gross_margin: 8,
        net_profit_return: 10,
        earnings_manipulation: 4,
        solvency: 12,
        cash_flow: 13,
        growth: 9,
        research_capital: 7,
        operating_efficiency: 8,
        asset_quality: 4,
    }
}

#[test]
fn calculates_financial_score_and_radar_scores() {
    let scores = sample_category_scores();

    assert_eq!(calculate_financial_score(&scores), 82);

    let radar = calculate_radar_scores(&scores);
    assert_eq!(radar.profitability as f64 / 10.0, 8.2);
    assert_eq!(radar.authenticity as f64 / 10.0, 8.5);
    assert_eq!(radar.cash_generation as f64 / 10.0, 8.7);
    assert_eq!(radar.safety as f64 / 10.0, 8.0);
    assert_eq!(radar.growth_potential as f64 / 10.0, 8.0);
    assert_eq!(radar.operating_efficiency as f64 / 10.0, 8.0);
}

#[test]
fn radar_scores_reach_ten_at_full_marks() {
    let full = FinancialReportCategoryScores {
        revenue_quality: 8,
        gross_margin: 10,
        net_profit_return: 12,
        earnings_manipulation: 5,
        solvency: 15,
        cash_flow: 15,
        growth: 12,
        research_capital: 8,
        operating_efficiency: 8,
        asset_quality: 7,
    };
    let radar = calculate_radar_scores(&full);
    assert_eq!(radar.profitability, 100);
    assert_eq!(radar.authenticity, 100);
    assert_eq!(radar.cash_generation, 100);
    assert_eq!(radar.safety, 100);
    assert_eq!(radar.growth_potential, 100);
    assert_eq!(radar.operating_efficiency, 100);
    assert_eq!(calculate_financial_score(&full), 100);
}

#[test]
fn normalizes_stock_codes() {
    assert_eq!(normalize_stock_code("600000"), Ok("SHSE.600000".to_string()));
    assert_eq!(normalize_stock_code(" shse.600519 "), Ok("SHSE.600519".to_string()));
    assert_eq!(normalize_stock_code("1"), Ok("SZSE.000001".to_string()));
    assert_eq!(normalize_stock_code("sz300750"), Ok("SZSE.300750".to_string()));
    assert_eq!(normalize_stock_code("510300"), Ok("SHSE.510300".to_string()));
    assert_eq!(normalize_stock_code("银行"), Err(StockCodeError::Empty));
    assert_eq!(shorten_display_name("贵州茅台股份"), "贵州茅台");
    assert_eq!(shorten_display_name("平安"), "平安");
}

fn integer(value: &Value, name: &str) -> Option<i128> {
    let item = value.get(name)?;
    item.as_u64().map(i128::from).or_else(|| item.as_i64().map(i128::from))
}

fn text(value: &Value, name: &str) -> Option<String> {
    value.get(name).and_then(Value::as_str).map(ToString::to_string)
}

fn parse_financial_analysis_response(raw: &str) -> Result<ParsedFinancialAnalysis, String> {
    let value: Value = serde_json::from_str(&analysis_json_text(raw)).map_err(|e| e.to_string())?;
    let fields = FinancialAnalysisFields {
        revenue_quality: integer(&value, "收入质量"),
        gross_margin: integer(&value, "毛利水平"),
        net_profit_return: integer(&value, "净利与回报"),
        earnings_manipulation: integer(&value, "盈利调节"),
        solvency: integer(&value, "偿债能力"),
        cash_flow: integer(&value, "现金流状况"),
        growth: integer(&value, "业绩增速"),
        research_capital: integer(&value, "研发及资本投入"),
        operating_efficiency: integer(&value, "营运效率"),
        asset_quality: integer(&value, "资产质量"),
        key_summary: text(&value, "关键信息总结"),
        positive_factors: text(&value, "财报正向因素"),
        negative_factors: text(&value, "财报负向因素"),
        fraud_risk_points: text(&value, "财报造假嫌疑点"),
    };
    parse_financial_analysis(&fields).map_err(|e| e.message())
}

#[test]
fn parses_required_financial_analysis_fields() {
    let parsed = parse_financial_analysis_response(
        r#"{
            "收入质量": 7,
            "毛利水平": 8,
            "净利与回报": 10,
            "盈利调节": 4,
            "偿债能力": 12,
            "现金流状况": 13,
            "业绩增速": 9,
            "研发及资本投入": 7,
            "营运效率": 8,
            "资产质量": 4,
            "关键信息总结": "收入和利润保持增长",
            "财报正向因素": "现金流改善",
            "财报负向因素": "费用率抬升",
            "财报造假嫌疑点": "暂无明显异常"
        }"#,
    )
    .unwrap();

    assert_eq!(parsed.category_scores.cash_flow, 13);
    assert_eq!(parsed.key_summary, "收入和利润保持增长");
    assert_eq!(parsed.fraud_risk_points, "暂无明显异常");
}

#[test]
fn rejects_financial_analysis_missing_required_field() {
    let error = parse_financial_analysis_response(
        r#"{
            "关键信息总结": "收入增长",
            "财报正向因素": "现金流改善",
            "财报负向因素": "费用上升"
        }"#,
    )
    .unwrap_err();

    assert!(error.to_string().contains("收入质量"));
}

#[test]
fn analysis_reply_fences_ranges_and_blank_texts() {
    assert_eq!(analysis_json_text("  ```json\n{\"a\":1}\n```  "), "{\"a\":1}");
    assert_eq!(analysis_json_text("```\n{}\n```"), "{}");
    assert_eq!(analysis_json_text("```json {} "), "```json {}");
    assert_eq!(analysis_json_text(" {} "), "{}");

    let full = |cash_flow: i128, summary: &str| FinancialAnalysisFields {
        revenue_quality: Some(-3),
        gross_margin: Some(10),
        net_profit_return: Some(12),
        earnings_manipulation: Some(5),
        solvency: Some(15),
        cash_flow: Some(cash_flow),
        growth: Some(12),
        research_capital: Some(8),
        operating_efficiency: Some(10),
        asset_quality: Some(5),
        key_summary: Some(summary.to_string()),
        positive_factors: Some("好".to_string()),
        negative_factors: Some("坏".to_string()),
        fraud_risk_points: Some("无".to_string()),
    };
    let ok = parse_financial_analysis(&full(15, "  总结 ")).unwrap();
    assert_eq!(ok.category_scores.revenue_quality, 0);
    assert_eq!(ok.key_summary, "总结");
    assert_eq!(calculate_financial_score(&ok.category_scores), 92);
    assert_eq!(
        parse_financial_analysis(&full(16, "总结")).err(),
        Some(AnalysisError::OutOfRange("现金流状况"))
    );
    assert_eq!(
        parse_financial_analysis(&full(4_294_967_297, "总结")).unwrap().category_scores.cash_flow,
        1
    );
    assert_eq!(
        parse_financial_analysis(&full(15, "   ")).err(),
        Some(AnalysisError::MissingField("关键信息总结"))
    );
    assert_eq!(AnalysisError::OutOfRange("现金流状况").message(), "财报 AI 输出字段超出范围：现金流状况");
    assert_eq!(AnalysisError::MissingField("收入质量").message(), "财报 AI 输出缺少字段：收入质量");
}

#[test]
fn financial_system_prompt_names_every_field_and_asks_for_json_only() {
    let prompt = financial_analysis_system_prompt();
    assert!(prompt.starts_with("你是 KittyRed 的沪深 A 股财报分析助手。只输出一个 JSON 对象"));
    assert!(prompt.contains("分数字段上限依次为 8、10、12、5、15、15、12、8、10、5。"));
    assert!(prompt.ends_with("不要给实盘交易指令，不要提及其他市场。"));
}

#[test]
fn revisions_are_lowercase_hex_sha256_of_the_payload() {
    assert_eq!(
        section_revision(""),
        "e3b0c44298fc1c149afbf4c8996fb92427ae41e4649b934ca495991b7852b855"
    );
    assert_eq!(
        source_revision_for_sections("abc"),
        "ba7816bf8f01cfea414140de5dae2223b00361a396177a9cb410ff61f20015ad"
    );
    let rows = r#"[{"item":"营业收入","values":{"2025":"1.0"}}]"#;
    assert_eq!(section_revision(rows), source_revision_for_sections(rows));
    assert_ne!(section_revision(rows), section_revision("[]"));
    assert_eq!(section_revision(rows).len(), 64);
}

#[test]
fn analysis_progress_counts_follow_the_items() {
    let watchlist = vec!["SHSE.600000".to_string(), "SZSE.000001".to_string()];
    let names = vec![
        short_name_for_stock(Some("浦发银行股份"), "SHSE.600000"),
        short_name_for_stock(None, "SZSE.000001"),
    ];
    assert_eq!(names, vec!["浦发银行".to_string(), "SZSE".to_string()]);
    let mut progress = initialize_analysis_progress(&watchlist, &names);
    assert_eq!(progress.status, "running");
    assert_eq!((progress.completed_count, progress.total_count), (0, 2));
    assert_eq!(progress.items[1].status, "pending");

    update_analysis_item(&mut progress, "SHSE.600000", "retrying", 1, Some("timeout".to_string()), "浦发银行");
    assert_eq!(progress.message, "正在重试 浦发银行 的财报 AI 分析");
    assert_eq!(progress.items[0].attempt, 1);
    assert_eq!(progress.items[0].error_message.as_deref(), Some("timeout"));
    assert_eq!(progress.status, "running");

    update_analysis_item(&mut progress, "SHSE.600000", "succeeded", 2, None, "浦发银行");
    assert_eq!(progress.completed_count, 1);
    assert_eq!(progress.message, "正在分析自选股票池财报");

    update_analysis_item(&mut progress, "SHSE.601318", "failed", 1, None, "SHSE");
    assert_eq!(progress.completed_count, 1);
    assert_eq!(progress.items.len(), 2);

    update_analysis_item(&mut progress, "SZSE.000001", "failed", 3, Some("bad".to_string()), "SZSE");
    assert_eq!(progress.completed_count, 2);
    assert_eq!(progress.status, "completed");
    assert_eq!(progress.message, "财报 AI 分析完成");

    finalize_analysis_progress(&mut progress);
    assert_eq!(progress.status, "completed");
    assert_eq!(progress.completed_count, 2);

    let mut empty = initialize_analysis_progress(&[], &[]);
    finalize_analysis_progress(&mut empty);
    assert_eq!(empty, idle_analysis_progress());
    assert_eq!(empty.message, "尚未开始财报 AI 分析");
}

#[test]
fn watchlist_analysis_fails_only_when_every_stock_failed() {
    let failures = vec![
        ("SHSE.600000".to_string(), "超时".to_string()),
        ("SZSE.000001".to_string(), "格式错误".to_string()),
    ];
    assert_eq!(
        watchlist_analysis_result(0, failures.clone()),
        Err("财报 AI 分析全部失败：SHSE.600000: 超时；SZSE.000001: 格式错误".to_string())
    );
    assert_eq!(watchlist_analysis_result(1, failures.clone()), Ok((1, failures)));
    assert_eq!(watchlist_analysis_result(0, Vec::new()), Ok((0, Vec::new())));
}

#[test]
fn user_prompt_frames_the_stock_code_and_sections() {
    let prompt = financial_analysis_user_prompt("SHSE.600000", "[]");
    assert!(prompt.starts_with("请基于以下 AKShare 财报缓存分析股票 SHSE.600000。\n\n前十个字段"));
    assert!(prompt.contains("（上限依次 8/10/12/5/15/15/12/8/10/5）"));
    assert!(prompt.ends_with("只输出一个 JSON 对象，不要 Markdown 代码块。\n\n财报数据：[]"));
}

#[test]
fn analysis_timeout_updates_retry_and_failure_progress() {
    let mut progress = initialize_analysis_progress(&["SHSE.600000".to_string()], &["SHSE".to_string()]);
    let mut attempt: u32 = 1;
    let mut last_error = String::new();
    let error = loop {
        update_analysis_item(&mut progress, "SHSE.600000", "running", attempt, None, "SHSE");
        let outcome = AttemptOutcome::TimedOut;
        last_error = attempt_error_text(attempt, 0, &outcome).unwrap_or(last_error);
        match after_attempt(attempt, &outcome) {
            AttemptStep::Retry(next) => {
                update_analysis_item(&mut progress, "SHSE.600000", "retrying", attempt, Some(last_error.clone()), "SHSE");
                attempt = next;
            }
            AttemptStep::GiveUp => {
                update_analysis_item(&mut progress, "SHSE.600000", "failed", attempt, Some(last_error.clone()), "SHSE");
                break analysis_failure_message(&last_error);
            }
            AttemptStep::Done => panic!("a timed out attempt cannot succeed"),
        }
    };

    assert!(error.contains("已重试 3 次"));
    assert_eq!(progress.items.len(), 1);
    assert_eq!(progress.items[0].status, "failed");
    assert_eq!(progress.items[0].attempt, 3);
}

struct FetchedSection {
    section: &'static str,
    label: &'static str,
    report_dates: Vec<&'static str>,
    error: Option<String>,
}

fn sample_fetched(section: &'static str, label: &'static str, report_date: &'static str) -> FetchedSection {
    FetchedSection { section, label, report_dates: vec![report_date], error: None }
}

/// Walks the sections as a report fetch does, storing into `cache`
/// (section, report date) and returning the last progress recorded.
fn cache_sections(cache: &mut Vec<(String, String)>, sections: Vec<FetchedSection>, cancelled: bool) -> FetchProgressUpdate {
    let mut completed = 0;
    for section in sections {
        let step = section_fetch_step(completed, cancelled, section.report_dates.len(), section.error.clone(), section.label);
        if step.stop {
            return step.progress;
        }
        if step.save {
            cache.retain(|(name, _)| name != section.section);
            for date in &section.report_dates {
                cache.push((section.section.to_string(), date.to_string()));
            }
        }
        completed = step.progress.completed_sections;
    }
    fetch_completed_progress()
}

#[test]
fn section_failure_keeps_existing_cache_rows() {
    let mut cache = vec![("income_statement".to_string(), "2026-03-31".to_string())];
    let progress = cache_sections(
        &mut cache,
        vec![FetchedSection {
            section: "income_statement",
            label: "利润表",
            report_dates: Vec::new(),
            error: Some("利润表读取失败：remote disconnected".into()),
        }],
        false,
    );

    assert_eq!(cache.len(), 1);
    assert_eq!(cache[0].1, "2026-03-31");
    assert_eq!(progress.status, "completed");
}

#[test]
fn cancellation_stops_before_later_sections() {
    let mut cache = Vec::new();
    let progress = cache_sections(
        &mut cache,
        vec![
            sample_fetched("performance_report", "业绩报表", "2026-03-31"),
            sample_fetched("balance_sheet", "资产负债表", "2026-03-31"),
        ],
        true,
    );

    assert!(cache.is_empty());
    assert_eq!(progress.status, "cancelled");
}

#[test]
fn section_steps_report_what_they_cached() {
    let empty = section_fetch_step(2, false, 0, None, "现金流量表");
    assert!(!empty.save && !empty.stop);
    assert_eq!(empty.progress.completed_sections, 3);
    assert_eq!(empty.progress.message, "现金流量表 暂无可缓存数据");
    let failed = section_fetch_step(2, false, 0, Some("断网".to_string()), "现金流量表");
    assert!(!failed.save);
    assert_eq!(failed.progress.message, "已缓存 现金流量表");
    assert_eq!(failed.progress.error_message.as_deref(), Some("断网"));
    let cached = section_fetch_step(0, false, 12, None, "利润表");
    assert!(cached.save);
    assert_eq!(cached.progress.completed_sections, 1);
    assert_eq!(fetch_completed_progress().completed_sections, 6);
}
