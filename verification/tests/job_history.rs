use kittyalpha::jobs::kinds;
use kittyalpha::jobs::parse_job_timestamp_millis;
use kittyalpha::jobs::state::{JobRecord, JobState, WaitStep, MAX_LOADED_JOBS};
use kittyalpha::jobs::store::{cleanup_is_due, expired_job_ids, mark_incomplete_jobs_as_interrupted};

const BOOT: &str = "2026-05-04T10:00:00+08:00";
const LATER: &str = "2026-05-04T10:00:05+08:00";

fn record(id: i64, kind: &str, status: &str, message: &str, started_at: &str) -> JobRecord {
    JobRecord {
        id,
        kind: kind.into(),
        status: status.into(),
        message: message.into(),
        started_at: started_at.into(),
        updated_at: started_at.into(),
        ended_at: None,
        duration_ms: None,
        input_params_json: None,
        result_summary: None,
        error_details: None,
    }
}

#[test]
fn default_service_starts_without_seed_jobs() {
    let service = JobState::empty(BOOT.to_string());

    assert!(service.list_jobs().is_empty());
}

#[test]
fn tracks_job_lifecycle_updates() {
    let mut service = JobState::empty(BOOT.to_string());
    let job_id = service.start_job(
        "recommendation_generate",
        "正在扫描 SHSE.600000 的 A 股量价信号",
        None,
        BOOT,
    );

    service.finish_job(
        job_id,
        "done",
        "已完成 SHSE.600000 模拟投资建议",
        Some("已完成 SHSE.600000 模拟投资建议".into()),
        None,
        LATER,
    );

    let jobs = service.list_jobs();
    assert_eq!(jobs[0].id, job_id);
    assert_eq!(jobs[0].status, "done");
    assert_eq!(jobs[0].message, "已完成 SHSE.600000 模拟投资建议");
    assert_eq!(
        jobs[0].result_summary.as_deref(),
        Some("已完成 SHSE.600000 模拟投资建议")
    );
    assert!(jobs[0].ended_at.is_some());
    assert!(jobs[0].duration_ms.is_some());
    assert_eq!(jobs[0].duration_ms, Some(5000));
}

#[test]
fn cancellation_marks_running_job_and_sets_cancel_flag() {
    let mut service = JobState::empty(BOOT.to_string());
    let job_id = service.start_job(
        "recommendation_generate",
        "正在扫描 SHSE.600000 的 A 股量价信号",
        None,
        BOOT,
    );

    assert!(service.cancel_job(job_id, LATER));

    let jobs = service.list_jobs();
    assert_eq!(jobs[0].status, "cancelled");
    assert_eq!(jobs[0].error_details.as_deref(), Some("Cancelled by user"));
    assert!(jobs[0].ended_at.is_some());
    assert!(service.is_cancelled(job_id));
}

#[test]
fn same_kind_running_jobs_do_not_reenter() {
    let mut service = JobState::empty(BOOT.to_string());
    let first_job_id =
        service.start_job("market.refresh_tickers", "Refreshing batch tickers", None, BOOT);

    let duplicate_job_id = service.start_non_reentrant_job(
        "market.refresh_tickers",
        "Refreshing batch tickers",
        None,
        BOOT,
    );

    assert_eq!(duplicate_job_id, None);
    assert_eq!(service.list_jobs().len(), 1);
    service.finish_job(first_job_id, "done", "done", Some("done".into()), None, LATER);
    assert!(service
        .start_non_reentrant_job("market.refresh_tickers", "Refreshing batch tickers", None, LATER)
        .is_some());
}

#[test]
fn newer_jobs_are_listed_first() {
    let mut service = JobState::empty(BOOT.to_string());
    let first_job_id = service.start_job("recommendation_generate", "First scan", None, BOOT);
    let second_job_id = service.start_job("paper_order_monitor", "Second scan", None, BOOT);

    let jobs = service.list_jobs();

    assert_eq!(jobs.len(), 2);
    assert_eq!(jobs[0].id, second_job_id);
    assert_eq!(jobs[0].message, "Second scan");
    assert_eq!(jobs[1].id, first_job_id);
    assert_eq!(jobs[1].message, "First scan");
}

#[test]
fn list_current_session_jobs_includes_new_jobs_started_after_boot() {
    let mut service = JobState::empty(BOOT.to_string());
    let job_id = service.start_job(
        kinds::MARKET_REFRESH_ASSET_METADATA,
        "Refreshing asset metadata",
        None,
        LATER,
    );
    service.finish_job(
        job_id,
        "done",
        "Refreshed 42 asset metadata rows",
        Some("Refreshed 42 asset metadata rows".into()),
        None,
        LATER,
    );

    let jobs = service.list_current_session_jobs();
    assert_eq!(jobs.len(), 1);
    assert_eq!(jobs[0].kind, kinds::MARKET_REFRESH_ASSET_METADATA);
}

#[test]
fn list_current_session_jobs_excludes_same_day_pre_boot_history_across_timestamp_formats() {
    let mut before_boot = record(1, "market.refresh_tickers", "done", "Historical refresh before boot", "2026-05-04T09:30:00+02:00");
    before_boot.ended_at = Some("2026-05-04T09:31:00+02:00".into());
    let mut after_boot = record(
        2,
        kinds::MARKET_REFRESH_ASSET_METADATA,
        "done",
        "Metadata refresh after boot",
        "2026-05-04T08:30:00Z",
    );
    after_boot.ended_at = Some("2026-05-04T08:31:00Z".into());
    let restored = JobState::new(vec![after_boot, before_boot], 3, "1777881600000".into());

    let jobs = restored.list_current_session_jobs();

    assert_eq!(jobs.len(), 1);
    assert_eq!(jobs[0].message, "Metadata refresh after boot");
}

#[test]
fn list_current_session_jobs_excludes_restored_history() {
    let historical = record(1, "market.refresh_tickers", "done", "Historical refresh", "2026-05-03T10:00:00+08:00");
    let restored = JobState::new(vec![historical], 2, BOOT.into());
    assert!(restored.list_jobs().len() >= 1);
    assert!(restored.list_current_session_jobs().is_empty());
}

#[test]
fn list_current_session_jobs_includes_restored_running_paper_orders() {
    let order = record(
        1,
        kinds::PAPER_ORDER,
        "running",
        "SHSE.600000 模拟委托已排队，等待 A 股开市",
        "2026-05-03T10:00:00+08:00",
    );
    let restored = JobState::new(vec![order], 2, BOOT.into());
    let jobs = restored.list_current_session_jobs();

    assert_eq!(jobs.len(), 1);
    assert_eq!(jobs[0].kind, kinds::PAPER_ORDER);
    assert_eq!(jobs[0].status, "running");
}

#[test]
fn job_list_is_capped_and_unknown_ids_are_ignored() {
    let mut service = JobState::empty("not a time".into());
    for i in 0..(MAX_LOADED_JOBS + 5) {
        service.start_job("signal.scan", &format!("scan {i}"), None, BOOT);
    }
    let jobs = service.list_jobs();
    assert_eq!(jobs.len(), MAX_LOADED_JOBS);
    assert_eq!(jobs[0].message, format!("scan {}", MAX_LOADED_JOBS + 4));
    assert!(service.list_current_session_jobs().is_empty());
    assert!(service.get_job(1).is_none());
    assert_eq!(service.get_job(205).map(|j| j.id), Some(205));
    assert!(!service.cancel_job(9999, LATER));
    assert!(service.is_cancelled(9999));
    service.finish_job(9998, "done", "x", None, None, LATER);
    assert_eq!(service.list_jobs().len(), MAX_LOADED_JOBS);
}

#[test]
fn job_is_running_until_it_ends() {
    let mut service = JobState::empty(BOOT.to_string());
    let job_id = service.start_job("paper.order", "Placing order", None, BOOT);
    assert!(service.job_is_running(job_id));
    assert!(!service.job_is_running(job_id + 100));
    service.finish_job(job_id, "done", "filled", None, None, LATER);
    assert!(!service.job_is_running(job_id));
}

#[test]
fn expired_jobs_are_those_started_over_a_week_ago() {
    let now_ms = parse_job_timestamp_millis("2026-05-12T10:00:00+08:00").expect("timestamp reads");
    let jobs = vec![
        record(1, "signal.scan", "done", "old", "2026-05-04T10:00:00+08:00"),
        record(2, "signal.scan", "done", "recent", "2026-05-06T10:00:00+08:00"),
        record(3, "signal.scan", "done", "unreadable", "not a time"),
        record(4, "signal.scan", "done", "older", "2026-05-01T10:00:00+08:00"),
    ];
    assert_eq!(expired_job_ids(&jobs, now_ms), vec![1, 4]);
}

#[test]
fn history_cleanup_runs_at_most_hourly() {
    assert!(cleanup_is_due(None, 0));
    assert!(!cleanup_is_due(Some(1_000), 1_000 + 59 * 60 * 1000));
    assert!(cleanup_is_due(Some(1_000), 1_000 + 60 * 60 * 1000));
    assert!(!cleanup_is_due(Some(i64::MAX), i64::MIN));
}

#[test]
fn restart_cancels_cut_off_jobs_but_not_paper_orders() {
    let mut jobs = vec![
        record(1, "signal.scan", "running", "scanning", BOOT),
        record(2, kinds::PAPER_ORDER, "running", "ordering", BOOT),
        record(3, "signal.scan", "queued", "waiting", BOOT),
        record(4, "signal.scan", "done", "finished", BOOT),
    ];
    mark_incomplete_jobs_as_interrupted(&mut jobs, LATER);
    assert_eq!(jobs[0].status, "cancelled");
    assert_eq!(jobs[0].message, "scanning");
    assert_eq!(jobs[0].ended_at.as_deref(), Some(LATER));
    assert_eq!(jobs[0].updated_at, LATER);
    assert_eq!(jobs[0].duration_ms, Some(5_000));
    assert_eq!(jobs[0].error_details.as_deref(), Some("Interrupted by app restart"));
    assert_eq!(jobs[1].status, "running");
    assert_eq!(jobs[1].ended_at, None);
    assert_eq!(jobs[2].status, "cancelled");
    assert_eq!(jobs[3].status, "done");
    assert_eq!(jobs[3].ended_at, None);
}

#[test]
fn paper_orders_wait_for_the_market_unless_stopped() {
    let mut service = JobState::empty(BOOT.to_string());
    let job_id = service.start_job(kinds::PAPER_ORDER, "Waiting for the open", None, BOOT);
    assert_eq!(service.paper_order_wait_step(job_id, false), WaitStep::Wait);
    assert_eq!(service.paper_order_wait_step(job_id, true), WaitStep::Proceed);
    assert_eq!(service.paper_order_wait_step(job_id + 1, true), WaitStep::Stop);
    assert!(service.cancel_job(job_id, LATER));
    assert_eq!(service.paper_order_wait_step(job_id, true), WaitStep::Stop);
}

#[test]
fn running_paper_orders_are_picked_up_after_restart() {
    let mut service = JobState::empty(BOOT.to_string());
    let first = service.start_job(kinds::PAPER_ORDER, "order one", Some("{\"symbol\":\"SHSE.600000\"}".to_string()), BOOT);
    let scan = service.start_job("signal.scan", "scan", None, BOOT);
    let second = service.start_job(kinds::PAPER_ORDER, "order two", None, BOOT);
    let done = service.start_job(kinds::PAPER_ORDER, "order three", Some("{}".to_string()), BOOT);
    service.finish_job(done, "done", "filled", None, None, LATER);
    assert_eq!(
        service.paper_orders_to_resume(),
        vec![(second, None), (first, Some("{\"symbol\":\"SHSE.600000\"}".to_string()))]
    );
    assert!(scan > first);
}

fn seeded(
    id: i64,
    kind: &str,
    status: &str,
    message: &str,
    started_at: &str,
    updated_at: &str,
    ended_at: Option<&str>,
    duration_ms: Option<i64>,
    input_params_json: Option<&str>,
) -> JobRecord {
    JobRecord {
        id,
        kind: kind.into(),
        status: status.into(),
        message: message.into(),
        started_at: started_at.into(),
        updated_at: updated_at.into(),
        ended_at: ended_at.map(Into::into),
        duration_ms,
        input_params_json: input_params_json.map(Into::into),
        result_summary: None,
        error_details: None,
    }
}

/// What reopening the stored history does at `now`: expired jobs are
/// deleted, cut-off jobs cancelled, and the rest loaded newest first.
fn restore(mut stored: Vec<JobRecord>, now: &str) -> JobState {
    let now_ms = parse_job_timestamp_millis(now).expect("now reads");
    let expired = expired_job_ids(&stored, now_ms);
    stored.retain(|job| !expired.contains(&job.id));
    mark_incomplete_jobs_as_interrupted(&mut stored, now);
    stored.sort_by(|a, b| b.id.cmp(&a.id));
    let next = stored.iter().map(|job| job.id).max().unwrap_or(0) + 1;
    JobState::new(stored, next, now.to_string())
}

const REOPENED: &str = "2026-05-04T10:05:00+08:00";

#[test]
fn removes_expired_jobs_older_than_seven_days_when_loading_sqlite_history() {
    let mut service = JobState::empty(BOOT.to_string());
    let fresh_job_id = service.start_job("recommendation.generate", "Fresh analysis", None, BOOT);
    service.finish_job(
        fresh_job_id,
        "done",
        "Fresh analysis completed",
        Some("Fresh analysis completed".into()),
        None,
        LATER,
    );
    let mut stored = service.list_jobs();
    stored.push(seeded(
        fresh_job_id + 1,
        "market.refresh_tickers",
        "done",
        "Expired ticker refresh",
        "2026-04-20T10:00:00+08:00",
        "2026-04-20T10:00:05+08:00",
        Some("2026-04-20T10:00:05+08:00"),
        Some(5000),
        Some(r#"{"enabledExchanges":["人民币现金"]}"#),
    ));

    let restored = restore(stored, REOPENED);
    let jobs = restored.list_jobs();

    assert_eq!(jobs.len(), 1);
    assert_eq!(jobs[0].message, "Fresh analysis completed");
    assert!(jobs.iter().all(|job| job.message != "Expired ticker refresh"));
}

#[test]
fn marks_stale_running_jobs_as_interrupted_when_restoring_sqlite_history() {
    let stored = vec![seeded(
        1,
        "market.refresh_tickers",
        "running",
        "Refreshing cached batch tickers",
        "2026-05-04T10:00:00+08:00",
        "2026-05-04T10:00:02+08:00",
        None,
        None,
        Some(r#"{"enabledExchanges":["akshare","人民币现金"]}"#),
    )];

    let mut restored = restore(stored, REOPENED);
    let jobs = restored.list_jobs();

    assert_eq!(jobs.len(), 1);
    assert_eq!(jobs[0].status, "cancelled");
    assert_eq!(jobs[0].error_details.as_deref(), Some("Interrupted by app restart"));
    assert!(jobs[0].ended_at.is_some());
    assert!(restored
        .start_non_reentrant_job("market.refresh_tickers", "Refreshing cached batch tickers", None, REOPENED)
        .is_some());
}

#[test]
fn preserves_running_paper_order_jobs_when_restoring_sqlite_history() {
    let stored = vec![seeded(
        1,
        kinds::PAPER_ORDER,
        "running",
        "SHSE.600000 模拟委托已排队，等待 A 股开市",
        "2026-05-04T10:00:00+08:00",
        "2026-05-04T10:00:02+08:00",
        None,
        None,
        Some(
            r#"{"account_id":"paper-cny","symbol":"SHSE.600000","market_type":"ashare","side":"buy","quantity":100,"entry_price":null,"leverage":1,"stop_loss":null,"take_profit":null}"#,
        ),
    )];

    let restored = restore(stored, REOPENED);
    let jobs = restored.list_jobs();

    assert_eq!(jobs.len(), 1);
    assert_eq!(jobs[0].kind, kinds::PAPER_ORDER);
    assert_eq!(jobs[0].status, "running");
    assert_eq!(jobs[0].ended_at, None);
    assert!(jobs[0].message.contains("等待 A 股开市"));
}
