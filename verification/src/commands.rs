//! What the desktop commands hand back to the interface.
use vstd::prelude::*;

use crate::assistant::{append_chars, append_str, join_strings, joined};
use crate::financial::progress::failure_lines;
use crate::jobs::state::opt_view;
use crate::numbers::decimal_digits_exec;
use crate::text::{chars_of, decimal_digits, string_from_chars, string_views};

verus! {

/// Reply to a request to start an assistant turn.
#[derive(Debug, Clone, Copy, PartialEq, Eq)]
pub struct AssistantCommandAck {
    pub started: bool,
}

/// Reply to a request to stop an assistant turn.
#[derive(Debug, Clone, Copy, PartialEq, Eq)]
pub struct AssistantStopAck {
    pub stopped: bool,
}

/// Reply to a request to clear an assistant session.
#[derive(Debug, Clone, Copy, PartialEq, Eq)]
pub struct AssistantClearAck {
    pub cleared: bool,
}

/// The stored secrets as shown in the settings page; a missing secret is
/// shown as empty text.
#[derive(Debug, Clone, PartialEq, Eq)]
pub struct SettingsSecretsDto {
    pub model_api_key: String,
    pub xueqiu_token: String,
}

pub open spec fn shown_secret(s: Option<String>) -> Seq<char> {
    match s {
        Some(v) => v@,
        None => Seq::empty(),
    }
}

fn shown_secret_exec(s: Option<String>) -> (r: String)
    ensures
        r@ == shown_secret(s),
{
    match s {
        Some(v) => v,
        None => String::new(),
    }
}

/// The secrets reply from what reading the model API key and the Xueqiu
/// token gave: the first failed read (the key is read first) is the error.
pub fn settings_secrets(
    model_api_key: Result<Option<String>, String>,
    xueqiu_token: Result<Option<String>, String>,
) -> (r: Result<SettingsSecretsDto, String>)
    ensures
        match (model_api_key, xueqiu_token) {
            (Err(e), _) => r == Err::<SettingsSecretsDto, String>(e),
            (Ok(_), Err(e)) => r == Err::<SettingsSecretsDto, String>(e),
            (Ok(k), Ok(t)) => r matches Ok(d) && d.model_api_key@ == shown_secret(k)
                && d.xueqiu_token@ == shown_secret(t),
        },
{
    let key = match model_api_key {
        Ok(k) => k,
        Err(e) => return Err(e),
    };
    let token = match xueqiu_token {
        Ok(t) => t,
        Err(e) => return Err(e),
    };
    Ok(SettingsSecretsDto { model_api_key: shown_secret_exec(key), xueqiu_token: shown_secret_exec(token) })
}


/// The first position of a page of the signal history: `(page - 1) *
/// page_size`, both steps saturating.
pub open spec fn page_start(page: int, page_size: int) -> int {
    let before: int = if page >= 1 { page - 1 } else { 0 };
    if before * page_size > usize::MAX {
        usize::MAX as int
    } else {
        before * page_size
    }
}

/// The positions `[start, end)` of the records that one page of the signal
/// history shows: up to `page_size` records from the page's first position.
pub fn history_page_window(total: usize, page: usize, page_size: usize) -> (r: (usize, usize))
    ensures
        r.0 == (if page_start(page as int, page_size as int) < total {
            page_start(page as int, page_size as int)
        } else {
            total as int
        }),
        r.1 == page_end(total as int, page as int, page_size as int),
{
    let before = page.saturating_sub(1);
    let raw = match before.checked_mul(page_size) {
        Some(v) => v,
        None => usize::MAX,
    };
    let start = if raw < total { raw } else { total };
    let end = if page_size < total - start { start + page_size } else { total };
    (start, end)
}


/// The end of the window of a page, as `history_page_window` gives it.
pub open spec fn page_end(total: int, page: int, page_size: int) -> int {
    let start = if page_start(page, page_size) < total { page_start(page, page_size) } else { total };
    if start + page_size < total { start + page_size } else { total }
}

/// Consecutive pages of the signal history tile the records: each page
/// starts where the one before it ended, so no record is shown twice or
/// skipped (while the page arithmetic does not saturate).
pub proof fn law_history_pages_tile(total: usize, page: usize, page_size: usize)
    requires
        page >= 1,
        page as int * page_size as int <= usize::MAX,
    ensures
        page_end(total as int, page as int, page_size as int) == (if page_start(page + 1, page_size as int) < total {
            page_start(page + 1, page_size as int)
        } else {
            total as int
        }),
{
    assert((page - 1) as int * page_size as int + page_size as int == page as int * page_size as int) by (nonlinear_arith);
    assert(0 <= (page - 1) as int * page_size as int) by (nonlinear_arith)
        requires
            page >= 1,
    ;
}

/// The refusal of a sentiment analysis started with no stock selected.
pub fn sentiment_selection_error(selected_symbols: &[String]) -> (r: Option<String>)
    ensures
        selected_symbols.len() == 0 ==> (r matches Some(m) && m@ == "请选择至少一只自选股后再开始 AI 舆情分析"@),
        selected_symbols.len() > 0 ==> r is None,
{
    if selected_symbols.len() == 0 {
        Some("请选择至少一只自选股后再开始 AI 舆情分析".to_string())
    } else {
        None
    }
}

pub open spec fn failed_codes(failures: Seq<(String, String)>) -> Seq<Seq<char>> {
    failures.map_values(|f: (String, String)| f.0@)
}

/// The summary of a finished sentiment analysis job: how many stocks
/// succeeded and, when some failed, how many and which.
pub open spec fn sentiment_summary_spec(success_count: nat, failures: Seq<(String, String)>) -> Seq<char> {
    let head = "已完成 "@ + decimal_digits(success_count) + " 只自选股 AI 舆情分析"@;
    if failures.len() == 0 {
        head
    } else {
        head + "，"@ + decimal_digits(failures.len()) + " 只失败："@ + joined(failed_codes(failures), "、"@)
    }
}

/// The summary and, when some stock failed, the error details (one
/// `code: error` line each) of a finished sentiment analysis job.
pub fn sentiment_job_outcome(success_count: usize, failures: &[(String, String)]) -> (r: (String, Option<String>))
    ensures
        r.0@ == sentiment_summary_spec(success_count as nat, failures@),
        failures.len() == 0 ==> r.1 is None,
        failures.len() > 0 ==> (r.1 matches Some(d) && d@ == joined(failure_lines(failures@), "\n"@)),
{
    let mut summary: Vec<char> = Vec::new();
    append_str(&mut summary, "已完成 ");
    append_chars(&mut summary, &decimal_digits_exec(success_count as u64));
    append_str(&mut summary, " 只自选股 AI 舆情分析");
    if failures.len() == 0 {
        return (string_from_chars(&summary), None);
    }
    let mut codes: Vec<String> = Vec::new();
    let mut lines: Vec<String> = Vec::new();
    let mut i: usize = 0;
    while i < failures.len()
        invariant
            i <= failures.len(),
            string_views(codes@) == failed_codes(failures@).take(i as int),
            string_views(lines@) == failure_lines(failures@).take(i as int),
        decreases failures.len() - i,
    {
        let ghost before_codes = string_views(codes@);
        let ghost before_lines = string_views(lines@);
        codes.push(failures[i].0.clone());
        let mut line: Vec<char> = Vec::new();
        append_chars(&mut line, &chars_of(failures[i].0.as_str()));
        append_str(&mut line, ": ");
        append_chars(&mut line, &chars_of(failures[i].1.as_str()));
        let text = string_from_chars(&line);
        assert(text@ == failure_lines(failures@)[i as int]);
        lines.push(text);
        assert(string_views(codes@) =~= before_codes.push(failures@[i as int].0@));
        assert(failed_codes(failures@).take(i + 1) =~= failed_codes(failures@).take(i as int).push(failures@[i as int].0@));
        assert(string_views(lines@) =~= before_lines.push(text@));
        assert(failure_lines(failures@).take(i + 1) =~= failure_lines(failures@).take(i as int).push(text@));
        i += 1;
    }
    assert(failed_codes(failures@).take(failures.len() as int) =~= failed_codes(failures@));
    assert(failure_lines(failures@).take(failures.len() as int) =~= failure_lines(failures@));
    append_str(&mut summary, "，");
    append_chars(&mut summary, &decimal_digits_exec(failures.len() as u64));
    append_str(&mut summary, " 只失败：");
    append_chars(&mut summary, &join_strings(&codes, "、"));
    let details = string_from_chars(&join_strings(&lines, "\n"));
    (string_from_chars(&summary), Some(details))
}


/// How a background job ends: its status and message, and the summary or
/// error it records.
#[derive(Debug, Clone, PartialEq, Eq)]
pub struct JobEnding {
    pub status: String,
    pub message: String,
    pub result_summary: Option<String>,
    pub error_details: Option<String>,
}

pub open spec fn ending_is(
    e: JobEnding,
    status: Seq<char>,
    message: Seq<char>,
    result_summary: Option<Seq<char>>,
    error_details: Option<Seq<char>>,
) -> bool {
    &&& e.status@ == status
    &&& e.message@ == message
    &&& opt_view(e.result_summary) == result_summary
    &&& opt_view(e.error_details) == error_details
}

/// The end of a watchlist quote refresh: done with the number of rows
/// refreshed, or failed with the error.
pub fn ticker_refresh_ending(result: Result<usize, String>) -> (r: JobEnding)
    ensures
        match result {
            Ok(n) => ending_is(
                r,
                "done"@,
                "已刷新 "@ + decimal_digits(n as nat) + " 条自选股行情"@,
                Some("已刷新 "@ + decimal_digits(n as nat) + " 条自选股行情"@),
                None,
            ),
            Err(e) => ending_is(r, "failed"@, "Ticker cache refresh failed: "@ + e@, None, Some(e@)),
        },
{
    match result {
        Ok(n) => {
            let mut text: Vec<char> = Vec::new();
            append_str(&mut text, "已刷新 ");
            append_chars(&mut text, &decimal_digits_exec(n as u64));
            append_str(&mut text, " 条自选股行情");
            JobEnding {
                status: "done".to_string(),
                message: string_from_chars(&text),
                result_summary: Some(string_from_chars(&text)),
                error_details: None,
            }
        },
        Err(e) => {
            let mut text: Vec<char> = Vec::new();
            append_str(&mut text, "Ticker cache refresh failed: ");
            append_chars(&mut text, &chars_of(e.as_str()));
            JobEnding {
                status: "failed".to_string(),
                message: string_from_chars(&text),
                result_summary: None,
                error_details: Some(e),
            }
        },
    }
}

/// The end of a financial report fetch: cancelled when its progress says
/// so, else done; failed with the error when the fetch failed.
pub fn report_fetch_ending(result: Result<(), String>, progress_status: Option<&str>) -> (r: JobEnding)
    ensures
        match result {
            Ok(()) => if progress_status matches Some(p) && p@ == "cancelled"@ {
                ending_is(r, "cancelled"@, "财报拉取已取消"@, None, Some("Cancelled by user"@))
            } else {
                ending_is(r, "done"@, "财报拉取完成"@, Some("财报拉取完成"@), None)
            },
            Err(e) => ending_is(r, "failed"@, "财报拉取失败"@, None, Some(e@)),
        },
{
    match result {
        Ok(()) => {
            let cancelled = match progress_status {
                Some(p) => {
                    proof {
                        reveal_strlit("cancelled");
                    }
                    crate::text::chars_eq(&chars_of(p), &chars_of("cancelled"))
                },
                None => false,
            };
            if cancelled {
                JobEnding {
                    status: "cancelled".to_string(),
                    message: "财报拉取已取消".to_string(),
                    result_summary: None,
                    error_details: Some("Cancelled by user".to_string()),
                }
            } else {
                JobEnding {
                    status: "done".to_string(),
                    message: "财报拉取完成".to_string(),
                    result_summary: Some("财报拉取完成".to_string()),
                    error_details: None,
                }
            }
        },
        Err(e) => JobEnding {
            status: "failed".to_string(),
            message: "财报拉取失败".to_string(),
            result_summary: None,
            error_details: Some(e),
        },
    }
}

} // verus!
