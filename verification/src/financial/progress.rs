//! Progress of the AI analysis of the watchlist's financial reports: one
//! item per stock, and counts, a status and a message derived from them.
use vstd::prelude::*;

use super::shorten_display_name;
use crate::assistant::{append_chars, append_str, join_strings, joined};
use crate::jobs::state::opt_view;
use crate::text::{chars_eq, chars_of, string_from_chars, string_views};

verus! {

/// Where the analysis of one stock stands.
#[derive(Debug, PartialEq, Eq)]
pub struct AnalysisProgressItem {
    pub stock_code: String,
    pub short_name: String,
    pub status: String,
    pub attempt: u32,
    pub error_message: Option<String>,
}

pub struct ItemView {
    pub stock_code: Seq<char>,
    pub short_name: Seq<char>,
    pub status: Seq<char>,
    pub attempt: u32,
    pub error_message: Option<Seq<char>>,
}

impl View for AnalysisProgressItem {
    type V = ItemView;

    open spec fn view(&self) -> ItemView {
        ItemView {
            stock_code: self.stock_code@,
            short_name: self.short_name@,
            status: self.status@,
            attempt: self.attempt,
            error_message: opt_view(self.error_message),
        }
    }
}

/// The analysis of the watchlist as a whole.
#[derive(Debug, PartialEq, Eq)]
pub struct AnalysisProgress {
    pub status: String,
    pub completed_count: u32,
    pub total_count: u32,
    pub message: String,
    pub items: Vec<AnalysisProgressItem>,
}

pub struct ProgressView {
    pub status: Seq<char>,
    pub completed_count: u32,
    pub total_count: u32,
    pub message: Seq<char>,
    pub items: Seq<ItemView>,
}

pub open spec fn item_views(v: Seq<AnalysisProgressItem>) -> Seq<ItemView> {
    v.map_values(|i: AnalysisProgressItem| i@)
}

impl View for AnalysisProgress {
    type V = ProgressView;

    open spec fn view(&self) -> ProgressView {
        ProgressView {
            status: self.status@,
            completed_count: self.completed_count,
            total_count: self.total_count,
            message: self.message@,
            items: item_views(self.items@),
        }
    }
}

pub open spec fn is_done(status: Seq<char>) -> bool {
    status == "succeeded"@ || status == "failed"@
}

/// How many items have ended, whether they succeeded or failed.
pub open spec fn done_count(items: Seq<ItemView>) -> nat
    decreases items.len(),
{
    if items.len() == 0 {
        0
    } else {
        done_count(items.drop_last()) + if is_done(items.last().status) { 1nat } else { 0nat }
    }
}

proof fn lemma_done_count_le(items: Seq<ItemView>)
    ensures
        done_count(items) <= items.len(),
    decreases items.len(),
{
    if items.len() > 0 {
        lemma_done_count_le(items.drop_last());
    }
}

/// The counts agree with the items.
pub open spec fn counts_agree(p: ProgressView) -> bool {
    &&& p.completed_count == done_count(p.items)
    &&& p.total_count == p.items.len()
}

pub const IDLE_MESSAGE: &'static str = "尚未开始财报 AI 分析";
pub const RUNNING_MESSAGE: &'static str = "正在分析自选股票池财报";
pub const COMPLETED_MESSAGE: &'static str = "财报 AI 分析完成";

/// Nothing analysed yet.
pub open spec fn idle_view() -> ProgressView {
    ProgressView {
        status: "idle"@,
        completed_count: 0,
        total_count: 0,
        message: IDLE_MESSAGE@,
        items: Seq::empty(),
    }
}

pub fn idle_analysis_progress() -> (r: AnalysisProgress)
    ensures
        r@ == idle_view(),
{
    let r = AnalysisProgress {
        status: "idle".to_string(),
        completed_count: 0,
        total_count: 0,
        message: IDLE_MESSAGE.to_string(),
        items: Vec::new(),
    };
    assert(r@.items =~= Seq::<ItemView>::empty());
    r
}

/// The short name shown for a stock: the first four characters of its
/// latest known name, or of its code when no name is known.
pub fn short_name_for_stock(latest_name: Option<&str>, stock_code: &str) -> (r: String)
    ensures
        r@ == (match latest_name {
            Some(n) => n@.take(if n@.len() < 4 { n@.len() as int } else { 4 }),
            None => stock_code@.take(if stock_code@.len() < 4 { stock_code@.len() as int } else { 4 }),
        }),
{
    match latest_name {
        Some(n) => shorten_display_name(n),
        None => shorten_display_name(stock_code),
    }
}

/// A pending item for each stock of the watchlist, with its short name.
pub open spec fn pending_item(code: Seq<char>, short_name: Seq<char>) -> ItemView {
    ItemView { stock_code: code, short_name, status: "pending"@, attempt: 0, error_message: None }
}

/// The progress of a fresh analysis of `watchlist`, whose stocks have the
/// short names `short_names` (one each, in order).
pub fn initialize_analysis_progress(watchlist: &[String], short_names: &[String]) -> (r: AnalysisProgress)
    requires
        short_names.len() == watchlist.len(),
        watchlist.len() <= u32::MAX,
    ensures
        r@.status == "running"@,
        r@.completed_count == 0,
        r@.total_count == watchlist.len(),
        r@.message == RUNNING_MESSAGE@,
        r@.items.len() == watchlist.len(),
        forall|k: int| 0 <= k < watchlist.len() ==> #[trigger] r@.items[k] == pending_item(watchlist@[k]@, short_names@[k]@),
        counts_agree(r@),
{
    let mut items: Vec<AnalysisProgressItem> = Vec::new();
    let mut i: usize = 0;
    while i < watchlist.len()
        invariant
            i <= watchlist.len(),
            short_names.len() == watchlist.len(),
            items@.len() == i,
            forall|k: int| 0 <= k < i ==> (#[trigger] items@[k])@ == pending_item(watchlist@[k]@, short_names@[k]@),
            done_count(item_views(items@)) == 0,
        decreases watchlist.len() - i,
    {
        let ghost before = item_views(items@);
        items.push(AnalysisProgressItem {
            stock_code: watchlist[i].clone(),
            short_name: short_names[i].clone(),
            status: "pending".to_string(),
            attempt: 0,
            error_message: None,
        });
        proof {
            reveal_strlit("pending");
            reveal_strlit("succeeded");
            reveal_strlit("failed");
            assert(item_views(items@).drop_last() =~= before);
            assert("pending"@[0] != "succeeded"@[0] && "pending"@[0] != "failed"@[0]);
        }
        i += 1;
    }
    let total = watchlist.len() as u32;
    AnalysisProgress {
        status: "running".to_string(),
        completed_count: 0,
        total_count: total,
        message: RUNNING_MESSAGE.to_string(),
        items,
    }
}

fn is_done_exec(status: &str) -> (r: bool)
    ensures
        r == is_done(status@),
{
    let s = chars_of(status);
    chars_eq(&s, &chars_of("succeeded")) || chars_eq(&s, &chars_of("failed"))
}

fn count_done(items: &Vec<AnalysisProgressItem>) -> (r: u32)
    requires
        items.len() <= u32::MAX,
    ensures
        r == done_count(item_views(items@)),
{
    let ghost iv = item_views(items@);
    let mut n: u32 = 0;
    let mut i: usize = 0;
    while i < items.len()
        invariant
            i <= items.len(),
            items.len() <= u32::MAX,
            iv == item_views(items@),
            n == done_count(iv.take(i as int)),
            n <= i,
        decreases items.len() - i,
    {
        proof {
            assert(iv.take(i + 1).drop_last() =~= iv.take(i as int));
            assert(iv.take(i + 1).last() == items@[i as int]@);
        }
        if is_done_exec(items[i].status.as_str()) {
            n = n + 1;
        }
        i += 1;
    }
    assert(iv.take(items.len() as int) =~= iv);
    n
}

/// Ends the analysis: with no stocks it is idle again; otherwise the count
/// of ended items is taken, and it is completed.
pub open spec fn finalized(p: ProgressView) -> ProgressView {
    if p.total_count == 0 {
        idle_view()
    } else {
        ProgressView {
            status: "completed"@,
            completed_count: done_count(p.items) as u32,
            message: COMPLETED_MESSAGE@,
            ..p
        }
    }
}

pub fn finalize_analysis_progress(progress: &mut AnalysisProgress)
    requires
        old(progress).items.len() <= u32::MAX,
    ensures
        final(progress)@ == finalized(old(progress)@),
        final(progress).items.len() <= u32::MAX,
{
    if progress.total_count == 0 {
        *progress = idle_analysis_progress();
        assert(progress.items@.len() == item_views(progress.items@).len());
        return;
    }
    progress.completed_count = count_done(&progress.items);
    progress.status = "completed".to_string();
    progress.message = COMPLETED_MESSAGE.to_string();
}

/// The first item of a stock.
pub open spec fn item_of(items: Seq<ItemView>, code: Seq<char>) -> Option<int>
    decreases items.len(),
{
    if items.len() == 0 {
        None
    } else if items[0].stock_code == code {
        Some(0)
    } else {
        match item_of(items.drop_first(), code) {
            Some(k) => Some(k + 1),
            None => None,
        }
    }
}

proof fn lemma_item_of(items: Seq<ItemView>, code: Seq<char>)
    ensures
        match item_of(items, code) {
            Some(k) => 0 <= k < items.len() && items[k].stock_code == code
                && forall|j: int| 0 <= j < k ==> (#[trigger] items[j]).stock_code != code,
            None => forall|j: int| 0 <= j < items.len() ==> (#[trigger] items[j]).stock_code != code,
        },
    decreases items.len(),
{
    if items.len() > 0 && items[0].stock_code != code {
        let rest = items.drop_first();
        lemma_item_of(rest, code);
        assert forall|j: int| 1 <= j < items.len() implies items[j] == #[trigger] rest[j - 1] by {}
        match item_of(rest, code) {
            Some(k) => {
                assert forall|j: int| 0 <= j < k + 1 implies (#[trigger] items[j]).stock_code != code by {
                    if j > 0 {
                        assert(items[j] == rest[j - 1]);
                    }
                }
            },
            None => {
                assert forall|j: int| 0 <= j < items.len() implies (#[trigger] items[j]).stock_code != code by {
                    if j > 0 {
                        assert(items[j] == rest[j - 1]);
                    }
                }
            },
        }
    }
}

fn find_item(items: &Vec<AnalysisProgressItem>, code: &[char]) -> (r: Option<usize>)
    ensures
        match r {
            Some(k) => item_of(item_views(items@), code@) == Some(k as int) && k < items.len(),
            None => item_of(item_views(items@), code@) is None,
        },
{
    let ghost iv = item_views(items@);
    proof {
        lemma_item_of(iv, code@);
    }
    let mut k: usize = 0;
    while k < items.len()
        invariant
            k <= items.len(),
            iv == item_views(items@),
            forall|j: int| 0 <= j < k ==> (#[trigger] iv[j]).stock_code != code@,
        decreases items.len() - k,
    {
        if chars_eq(&chars_of(items[k].stock_code.as_str()), code) {
            proof {
                assert(iv[k as int].stock_code == code@);
                lemma_item_of(iv, code@);
            }
            return Some(k);
        }
        k += 1;
    }
    proof {
        lemma_item_of(iv, code@);
    }
    None
}

/// The items after the stock's item took the new status, attempt and error.
pub open spec fn items_after_update(
    items: Seq<ItemView>,
    code: Seq<char>,
    status: Seq<char>,
    attempt: u32,
    error: Option<Seq<char>>,
) -> Seq<ItemView> {
    match item_of(items, code) {
        Some(k) => items.update(k, ItemView { status, attempt, error_message: error, ..items[k] }),
        None => items,
    }
}

/// The progress after the stock's item took a new status: the counts are
/// taken again; it is idle with no items, completed when every item ended,
/// else running; the message names the stock while it is being retried.
pub open spec fn updated(
    p: ProgressView,
    code: Seq<char>,
    status: Seq<char>,
    attempt: u32,
    error: Option<Seq<char>>,
    short_name: Seq<char>,
) -> ProgressView {
    let items = items_after_update(p.items, code, status, attempt, error);
    let completed = done_count(items);
    ProgressView {
        status: if items.len() == 0 {
            "idle"@
        } else if completed == items.len() {
            "completed"@
        } else {
            "running"@
        },
        completed_count: completed as u32,
        total_count: items.len() as u32,
        message: if status == "retrying"@ {
            "正在重试 "@ + short_name + " 的财报 AI 分析"@
        } else if completed == items.len() {
            COMPLETED_MESSAGE@
        } else {
            RUNNING_MESSAGE@
        },
        items,
    }
}

/// Records where the analysis of `stock_code` stands; `short_name` is the
/// stock's short name, shown while it is retried.
pub fn update_analysis_item(
    progress: &mut AnalysisProgress,
    stock_code: &str,
    status: &str,
    attempt: u32,
    error_message: Option<String>,
    short_name: &str,
)
    requires
        old(progress).items.len() <= u32::MAX,
    ensures
        final(progress)@ == updated(old(progress)@, stock_code@, status@, attempt, opt_view(error_message), short_name@),
        counts_agree(final(progress)@),
        final(progress).items.len() <= u32::MAX,
{
    let ghost start = progress@.items;
    let code = chars_of(stock_code);
    proof {
        lemma_item_of(start, stock_code@);
    }
    match find_item(&progress.items, &code) {
        Some(k) => {
            let old_item = progress.items.remove(k);
            let item = AnalysisProgressItem {
                stock_code: old_item.stock_code,
                short_name: old_item.short_name,
                status: status.to_string(),
                attempt,
                error_message,
            };
            progress.items.insert(k, item);
        },
        None => {},
    }
    assert(item_views(progress.items@) =~= items_after_update(start, stock_code@, status@, attempt, opt_view(error_message)));
    let completed = count_done(&progress.items);
    let total = progress.items.len() as u32;
    proof {
        lemma_done_count_le(item_views(progress.items@));
    }
    progress.completed_count = completed;
    progress.total_count = total;
    progress.status = if progress.items.len() == 0 {
        "idle".to_string()
    } else if completed == total {
        "completed".to_string()
    } else {
        "running".to_string()
    };
    let retrying = chars_eq(&chars_of(status), &chars_of("retrying"));
    progress.message = if retrying {
        let mut text: Vec<char> = Vec::new();
        append_str(&mut text, "正在重试 ");
        append_chars(&mut text, &chars_of(short_name));
        append_str(&mut text, " 的财报 AI 分析");
        string_from_chars(&text)
    } else if completed == total {
        COMPLETED_MESSAGE.to_string()
    } else {
        RUNNING_MESSAGE.to_string()
    };
}


/// `code: error` for each failed stock.
pub open spec fn failure_lines(failures: Seq<(String, String)>) -> Seq<Seq<char>> {
    failures.map_values(|f: (String, String)| f.0@ + ": "@ + f.1@)
}

/// How the analysis of the whole watchlist ends: an error naming every
/// failure when no stock succeeded and some failed; otherwise the number of
/// successes and the failures.
pub fn watchlist_analysis_result(success_count: usize, failures: Vec<(String, String)>) -> (r: Result<
    (usize, Vec<(String, String)>),
    String,
>)
    ensures
        success_count == 0 && failures.len() > 0 ==> (r matches Err(m) && m@ == "财报 AI 分析全部失败："@ + joined(
            failure_lines(failures@),
            "；"@,
        )),
        !(success_count == 0 && failures.len() > 0) ==> r == Ok::<(usize, Vec<(String, String)>), String>(
            (success_count, failures),
        ),
{
    if success_count == 0 && failures.len() > 0 {
        let mut lines: Vec<String> = Vec::new();
        let mut i: usize = 0;
        while i < failures.len()
            invariant
                i <= failures.len(),
                string_views(lines@) == failure_lines(failures@).take(i as int),
            decreases failures.len() - i,
        {
            let mut line: Vec<char> = Vec::new();
            append_chars(&mut line, &chars_of(failures[i].0.as_str()));
            append_str(&mut line, ": ");
            append_chars(&mut line, &chars_of(failures[i].1.as_str()));
            let ghost before = string_views(lines@);
            let text = string_from_chars(&line);
            assert(text@ == failure_lines(failures@)[i as int]);
            lines.push(text);
            assert(string_views(lines@) =~= before.push(text@));
            assert(failure_lines(failures@).take(i + 1) =~= failure_lines(failures@).take(i as int).push(text@));
            i += 1;
        }
        assert(failure_lines(failures@).take(failures.len() as int) =~= failure_lines(failures@));
        let mut text: Vec<char> = Vec::new();
        append_str(&mut text, "财报 AI 分析全部失败：");
        append_chars(&mut text, &join_strings(&lines, "；"));
        Err(string_from_chars(&text))
    } else {
        Ok((success_count, failures))
    }
}


// ---------------------------------------------------------------------------
// Fetching the report sections
// ---------------------------------------------------------------------------

/// Sections a full report fetch walks through.
pub const TOTAL_SECTIONS: u32 = 6;

/// The fetch progress recorded after a step: status, sections done,
/// message and the section's error.
#[derive(Debug, Clone, PartialEq, Eq)]
pub struct FetchProgressUpdate {
    pub status: String,
    pub completed_sections: u32,
    pub message: String,
    pub error_message: Option<String>,
}

/// What the fetch does with one section.
#[derive(Debug, Clone, PartialEq, Eq)]
pub struct SectionStep {
    /// Store the section's rows.
    pub save: bool,
    /// Stop the fetch here.
    pub stop: bool,
    pub progress: FetchProgressUpdate,
}

pub open spec fn progress_is(
    p: FetchProgressUpdate,
    status: Seq<char>,
    completed: int,
    message: Seq<char>,
    error: Option<Seq<char>>,
) -> bool {
    &&& p.status@ == status
    &&& p.completed_sections == completed
    &&& p.message@ == message
    &&& opt_view(p.error_message) == error
}

/// One section of a report fetch, after `completed` sections: when the
/// fetch was cancelled it stops, keeping what was cached; a section with no
/// rows and no error counts as done with nothing to cache; otherwise its
/// rows (if any) are stored and it counts as cached, with its error.
pub fn section_fetch_step(
    completed: u32,
    cancelled: bool,
    row_count: usize,
    error: Option<String>,
    label: &str,
) -> (r: SectionStep)
    requires
        completed < u32::MAX,
    ensures
        cancelled ==> !r.save && r.stop && progress_is(
            r.progress,
            "cancelled"@,
            completed as int,
            "财报拉取已取消，已保留完成的缓存"@,
            None,
        ),
        !cancelled && row_count == 0 && (match error {
            Some(e) => e@.len() == 0,
            None => true,
        }) ==> !r.save && !r.stop && progress_is(
            r.progress,
            "running"@,
            completed + 1,
            label@ + " 暂无可缓存数据"@,
            None,
        ),
        !cancelled && !(row_count == 0 && (match error {
            Some(e) => e@.len() == 0,
            None => true,
        })) ==> r.save == (row_count > 0) && !r.stop && progress_is(
            r.progress,
            "running"@,
            completed + 1,
            "已缓存 "@ + label@,
            opt_view(error),
        ),
{
    if cancelled {
        return SectionStep {
            save: false,
            stop: true,
            progress: FetchProgressUpdate {
                status: "cancelled".to_string(),
                completed_sections: completed,
                message: "财报拉取已取消，已保留完成的缓存".to_string(),
                error_message: None,
            },
        };
    }
    let blank_error = match &error {
        Some(e) => chars_of(e.as_str()).len() == 0,
        None => true,
    };
    let mut text: Vec<char> = Vec::new();
    if row_count == 0 && blank_error {
        append_str(&mut text, label);
        append_str(&mut text, " 暂无可缓存数据");
        return SectionStep {
            save: false,
            stop: false,
            progress: FetchProgressUpdate {
                status: "running".to_string(),
                completed_sections: completed + 1,
                message: string_from_chars(&text),
                error_message: None,
            },
        };
    }
    append_str(&mut text, "已缓存 ");
    append_str(&mut text, label);
    SectionStep {
        save: row_count > 0,
        stop: false,
        progress: FetchProgressUpdate {
            status: "running".to_string(),
            completed_sections: completed + 1,
            message: string_from_chars(&text),
            error_message: error,
        },
    }
}

/// The progress recorded when every section was walked through.
pub fn fetch_completed_progress() -> (r: FetchProgressUpdate)
    ensures
        progress_is(r, "completed"@, TOTAL_SECTIONS as int, "财报拉取完成"@, None),
{
    FetchProgressUpdate {
        status: "completed".to_string(),
        completed_sections: TOTAL_SECTIONS,
        message: "财报拉取完成".to_string(),
        error_message: None,
    }
}

} // verus!
