//! Candle requests of the market pages: watchlist normalisation, the AKShare
//! frequency and bar count for a chart interval, connection test items and
//! the trading-hours check.
use vstd::prelude::*;

use crate::akshare::{AkshareAction, AkshareRequestOverrides};
use crate::order::{lemma_lex_antisym, lemma_lex_order_total, lex_order, sort_lex};
use crate::seqs::{lemma_sort_keeps_elements, lemma_sort_sorted, sort_stable, sorted_by};
use crate::text::{
    string_views,
    ascii_lower, ascii_lower_vec, ascii_upper, ascii_upper_vec, chars_eq, chars_of, has_prefix,
    has_prefix_exec, string_from_chars, trim_str, trimmed,
};

verus! {

/// A watchlist entry trimmed and upper-cased (ASCII).
pub open spec fn watch_entry(v: Seq<char>) -> Seq<char> {
    ascii_upper(trimmed(v))
}

pub open spec fn watch_entries(values: Seq<Seq<char>>) -> Seq<Seq<char>>
    decreases values.len(),
{
    if values.len() == 0 {
        Seq::empty()
    } else {
        let prev = watch_entries(values.drop_last());
        let e = watch_entry(values.last());
        if has_prefix(e, "SHSE."@) || has_prefix(e, "SZSE."@) {
            prev.push(e)
        } else {
            prev
        }
    }
}

/// `Vec::dedup`: runs of equal neighbours collapse to one.
pub open spec fn dedup_adjacent(s: Seq<Seq<char>>) -> Seq<Seq<char>>
    decreases s.len(),
{
    if s.len() == 0 {
        s
    } else {
        let prev = dedup_adjacent(s.drop_last());
        if prev.len() > 0 && prev.last() == s.last() {
            prev
        } else {
            prev.push(s.last())
        }
    }
}

/// The texts sorted by character order, each once.
pub fn sorted_distinct(values: Vec<String>) -> (r: Vec<String>)
    ensures
        string_views(r@) == dedup_adjacent(sort_stable(string_views(values@), lex_order())),
{
    let sorted = sort_lex(values);
    let ghost so = string_views(sorted@);
    let mut out: Vec<String> = Vec::new();
    let mut j: usize = 0;
    while j < sorted.len()
        invariant
            j <= sorted.len(),
            so == string_views(sorted@),
            string_views(out@) == dedup_adjacent(so.take(j as int)),
        decreases sorted.len() - j,
    {
        let x = sorted[j].clone();
        proof {
            assert(so.take(j + 1).drop_last() =~= so.take(j as int));
            assert(so.take(j + 1).last() == x@);
        }
        let n = out.len();
        let same = n > 0 && chars_eq(&chars_of(out[n - 1].as_str()), &chars_of(x.as_str()));
        if !same {
            let ghost before = string_views(out@);
            out.push(x);
            assert(string_views(out@) =~= before.push(so[j as int]));
        }
        j += 1;
    }
    assert(so.take(sorted.len() as int) =~= so);
    out
}

/// Sorting and dropping repeats keeps exactly the given texts, in strictly
/// increasing order.
pub proof fn lemma_sorted_distinct(values: Seq<Seq<char>>)
    ensures
        dedup_adjacent(sort_stable(values, lex_order())).no_duplicates(),
        sorted_by(dedup_adjacent(sort_stable(values, lex_order())), lex_order()),
        forall|x: Seq<char>| #[trigger] dedup_adjacent(sort_stable(values, lex_order())).contains(x) <==> values.contains(x),
{
    let sorted = sort_stable(values, lex_order());
    lemma_lex_order_total();
    lemma_sort_sorted(values, lex_order());
    lemma_sort_keeps_elements(values, lex_order());
    lemma_dedup_sorted(sorted);
    lemma_strictly_sorted(dedup_adjacent(sorted));
}

/// Trims and upper-cases (ASCII) the entries, keeps the Shanghai and
/// Shenzhen codes, sorts them and drops repeats.
pub fn normalize_watchlist(symbols: &[String]) -> (r: Vec<String>)
    ensures
        string_views(r@) == dedup_adjacent(sort_stable(watch_entries(string_views(symbols@)), lex_order())),
{
    let ghost sv = string_views(symbols@);
    let mut kept: Vec<String> = Vec::new();
    let mut i: usize = 0;
    while i < symbols.len()
        invariant
            i <= symbols.len(),
            sv == string_views(symbols@),
            string_views(kept@) == watch_entries(sv.take(i as int)),
        decreases symbols.len() - i,
    {
        let t = trim_str(symbols[i].as_str());
        let e = ascii_upper_vec(&chars_of(t.as_str()));
        proof {
            assert(sv.take(i + 1).drop_last() =~= sv.take(i as int));
            assert(sv.take(i + 1).last() == symbols@[i as int]@);
        }
        if has_prefix_exec(&e, &chars_of("SHSE.")) || has_prefix_exec(&e, &chars_of("SZSE.")) {
            let ghost before = string_views(kept@);
            kept.push(string_from_chars(&e));
            assert(string_views(kept@) =~= before.push(e@));
        }
        i += 1;
    }
    assert(sv.take(symbols.len() as int) =~= sv);
    sorted_distinct(kept)
}

proof fn lemma_dedup_sorted(s: Seq<Seq<char>>)
    requires
        sorted_by(s, lex_order()),
    ensures
        sorted_by(dedup_adjacent(s), lex_order()),
        forall|x: Seq<char>| dedup_adjacent(s).contains(x) <==> s.contains(x),
        forall|i: int| 0 < i < dedup_adjacent(s).len() ==> dedup_adjacent(s)[i - 1] != #[trigger] dedup_adjacent(s)[i],
    decreases s.len(),
{
    if s.len() > 0 {
        let t = s.drop_last();
        let x = s.last();
        assert(sorted_by(t, lex_order()));
        lemma_dedup_sorted(t);
        let rt = dedup_adjacent(t);
        let r = dedup_adjacent(s);
        assert forall|y: Seq<char>| r.contains(y) <==> s.contains(y) by {
            if s.contains(y) {
                let k = choose|k: int| 0 <= k < s.len() && s[k] == y;
                if k < t.len() {
                    assert(t[k] == y);
                    assert(t.contains(y));
                    assert(rt.contains(y));
                    let m = choose|m: int| 0 <= m < rt.len() && rt[m] == y;
                    assert(r[m] == y);
                } else if rt.len() > 0 && rt.last() == x {
                    assert(r[rt.len() - 1] == y);
                } else {
                    assert(r[rt.len() as int] == y);
                }
            }
            if r.contains(y) {
                let m = choose|m: int| 0 <= m < r.len() && r[m] == y;
                if m < rt.len() {
                    assert(rt[m] == y);
                    assert(rt.contains(y));
                    assert(t.contains(y));
                    let k = choose|k: int| 0 <= k < t.len() && t[k] == y;
                    assert(s[k] == y);
                } else {
                    assert(s[s.len() - 1] == y);
                }
            }
        }
        if !(rt.len() > 0 && rt.last() == x) {
            assert forall|i: int, j: int| 0 <= i < j < r.len() implies (lex_order())(r[i], r[j]) by {
                if j == rt.len() {
                    assert(rt.contains(r[i]));
                    assert(t.contains(r[i]));
                    let k = choose|k: int| 0 <= k < t.len() && t[k] == r[i];
                    assert(s[k] == r[i]);
                    assert((lex_order())(s[k], s[s.len() - 1]));
                } else {
                    assert(r[i] == rt[i] && r[j] == rt[j]);
                }
            }
            assert forall|i: int| 0 < i < r.len() implies r[i - 1] != #[trigger] r[i] by {
                if i < rt.len() {
                    assert(r[i - 1] == rt[i - 1] && r[i] == rt[i]);
                }
            }
        }
    }
}

/// A sorted sequence without equal neighbours has no repeats at all.
proof fn lemma_strictly_sorted(r: Seq<Seq<char>>)
    requires
        sorted_by(r, lex_order()),
        forall|i: int| 0 < i < r.len() ==> r[i - 1] != #[trigger] r[i],
    ensures
        r.no_duplicates(),
{
    assert forall|i: int, j: int| 0 <= i < r.len() && 0 <= j < r.len() && i != j implies r[i] != r[j] by {
        let (a, b) = if i < j { (i, j) } else { (j, i) };
        if r[a] == r[b] {
            assert((lex_order())(r[a], r[a + 1]));
            assert((lex_order())(r[a + 1], r[b]));
            lemma_lex_antisym(r[a], r[a + 1]);
            assert(r[a] != r[a + 1]);
        }
    }
}

proof fn lemma_watch_entries_are_codes(values: Seq<Seq<char>>)
    ensures
        forall|x: Seq<char>| watch_entries(values).contains(x) ==> has_prefix(x, "SHSE."@) || has_prefix(x, "SZSE."@),
        forall|x: Seq<char>| watch_entries(values).contains(x) ==> exists|i: int| 0 <= i < values.len() && x == watch_entry(#[trigger] values[i]),
    decreases values.len(),
{
    if values.len() > 0 {
        let t = values.drop_last();
        lemma_watch_entries_are_codes(t);
        let w = watch_entries(values);
        let wt = watch_entries(t);
        assert forall|x: Seq<char>| w.contains(x) implies (has_prefix(x, "SHSE."@) || has_prefix(x, "SZSE."@))
            && exists|i: int| 0 <= i < values.len() && x == watch_entry(#[trigger] values[i]) by {
            let m = choose|m: int| 0 <= m < w.len() && w[m] == x;
            if m < wt.len() {
                assert(wt[m] == x);
                assert(wt.contains(x));
                let i = choose|i: int| 0 <= i < t.len() && x == watch_entry(#[trigger] t[i]);
                assert(values[i] == t[i]);
            } else {
                assert(x == watch_entry(values[values.len() - 1]));
            }
        }
    }
}

/// A normalised watchlist lists Shanghai and Shenzhen codes only, each the
/// trimmed, upper-cased form of an input entry, every such code of the input
/// once, in lexicographic order.
pub proof fn law_watchlist_normalised(symbols: Seq<Seq<char>>)
    ensures
        dedup_adjacent(sort_stable(watch_entries(symbols), lex_order())).no_duplicates(),
        sorted_by(dedup_adjacent(sort_stable(watch_entries(symbols), lex_order())), lex_order()),
        forall|x: Seq<char>| dedup_adjacent(sort_stable(watch_entries(symbols), lex_order())).contains(x)
            <==> watch_entries(symbols).contains(x),
        forall|x: Seq<char>| #[trigger] dedup_adjacent(sort_stable(watch_entries(symbols), lex_order())).contains(x)
            ==> (has_prefix(x, "SHSE."@) || has_prefix(x, "SZSE."@))
                && exists|i: int| 0 <= i < symbols.len() && x == watch_entry(#[trigger] symbols[i]),
{
    let w = watch_entries(symbols);
    let sorted = sort_stable(w, lex_order());
    lemma_sorted_distinct(w);
    lemma_watch_entries_are_codes(symbols);
    let d = dedup_adjacent(sorted);
    assert forall|x: Seq<char>| #[trigger] d.contains(x) implies (has_prefix(x, "SHSE."@) || has_prefix(x, "SZSE."@))
        && exists|i: int| 0 <= i < symbols.len() && x == watch_entry(#[trigger] symbols[i]) by {
        assert(w.contains(x));
    }
}

/// The AKShare frequency for a chart interval (ASCII case ignored):
/// minute intervals pass through, `1h` is `60m`, `1w` stays, anything else is daily.
pub open spec fn akshare_frequency_spec(interval: Seq<char>) -> Seq<char> {
    let l = ascii_lower(interval);
    if l == "1m"@ || l == "5m"@ || l == "15m"@ || l == "30m"@ || l == "60m"@ {
        l
    } else if l == "1h"@ {
        "60m"@
    } else if l == "1w"@ {
        "1w"@
    } else {
        "1d"@
    }
}

/// The bar frequency asked of AKShare: each minute interval (1m, 5m, 15m,
/// 30m, 60m, ASCII case ignored) is asked for as itself in lower case; 1h is
/// asked for as 60m, 1w as itself, and anything else as daily bars. The
/// answer is always one of the seven frequencies AKShare knows.
pub proof fn law_frequency_keeps_minute_intervals(interval: Seq<char>)
    ensures
        ascii_lower(interval) == "1m"@ ==> akshare_frequency_spec(interval) == "1m"@,
        ascii_lower(interval) == "5m"@ ==> akshare_frequency_spec(interval) == "5m"@,
        ascii_lower(interval) == "15m"@ ==> akshare_frequency_spec(interval) == "15m"@,
        ascii_lower(interval) == "30m"@ ==> akshare_frequency_spec(interval) == "30m"@,
        ascii_lower(interval) == "60m"@ ==> akshare_frequency_spec(interval) == "60m"@,
        ascii_lower(interval) == "1h"@ ==> akshare_frequency_spec(interval) == "60m"@,
        ascii_lower(interval) == "1w"@ ==> akshare_frequency_spec(interval) == "1w"@,
        ascii_lower(interval) != "1m"@ && ascii_lower(interval) != "5m"@ && ascii_lower(interval) != "15m"@
            && ascii_lower(interval) != "30m"@ && ascii_lower(interval) != "60m"@ && ascii_lower(interval) != "1h"@
            && ascii_lower(interval) != "1w"@ ==> akshare_frequency_spec(interval) == "1d"@,
        seq!["1m"@, "5m"@, "15m"@, "30m"@, "60m"@, "1w"@, "1d"@].contains(akshare_frequency_spec(interval)),
{
    reveal_strlit("1m");
    reveal_strlit("5m");
    reveal_strlit("15m");
    reveal_strlit("30m");
    reveal_strlit("60m");
    reveal_strlit("1h");
    reveal_strlit("1w");
    reveal_strlit("1d");
    assert("1h"@ != "1m"@) by {
        assert("1h"@[1] != "1m"@[1]);
    }
    assert("1h"@ != "5m"@) by {
        assert("1h"@[0] != "5m"@[0]);
    }
    assert("1h"@.len() != "15m"@.len() && "1h"@.len() != "30m"@.len() && "1h"@.len() != "60m"@.len());
    assert("1w"@ != "1m"@) by {
        assert("1w"@[1] != "1m"@[1]);
    }
    assert("1w"@ != "5m"@) by {
        assert("1w"@[0] != "5m"@[0]);
    }
    assert("1w"@ != "1h"@) by {
        assert("1w"@[1] != "1h"@[1]);
    }
    assert("1w"@.len() != "15m"@.len() && "1w"@.len() != "30m"@.len() && "1w"@.len() != "60m"@.len());
    let all = seq!["1m"@, "5m"@, "15m"@, "30m"@, "60m"@, "1w"@, "1d"@];
    let r = akshare_frequency_spec(interval);
    if r == "1m"@ {
        assert(all[0] == r);
    } else if r == "5m"@ {
        assert(all[1] == r);
    } else if r == "15m"@ {
        assert(all[2] == r);
    } else if r == "30m"@ {
        assert(all[3] == r);
    } else if r == "60m"@ {
        assert(all[4] == r);
    } else if r == "1w"@ {
        assert(all[5] == r);
    } else {
        assert(all[6] == r);
    }
}

fn is_one_of(v: &[char], options: &[&str]) -> (r: bool)
    ensures
        r == exists|i: int| 0 <= i < options@.len() && v@ == (#[trigger] options@[i])@,
{
    let mut i: usize = 0;
    while i < options.len()
        invariant
            i <= options.len(),
            forall|j: int| 0 <= j < i ==> v@ != (#[trigger] options@[j])@,
        decreases options.len() - i,
    {
        if chars_eq(v, &chars_of(options[i])) {
            return true;
        }
        i += 1;
    }
    false
}

pub fn akshare_frequency(interval: &str) -> (r: String)
    ensures
        r@ == akshare_frequency_spec(interval@),
{
    let l = ascii_lower_vec(&chars_of(interval));
    let minutes = ["1m", "5m", "15m", "30m", "60m"];
    if is_one_of(&l, &minutes) {
        proof {
            let i = choose|i: int| 0 <= i < minutes@.len() && l@ == (#[trigger] minutes@[i])@;
            assert(i == 0 || i == 1 || i == 2 || i == 3 || i == 4);
        }
        string_from_chars(&l)
    } else if chars_eq(&l, &chars_of("1h")) {
        proof {
            assert(minutes@[0] == "1m");
            assert(minutes@[1] == "5m");
            assert(minutes@[2] == "15m");
            assert(minutes@[3] == "30m");
            assert(minutes@[4] == "60m");
        }
        "60m".to_string()
    } else if chars_eq(&l, &chars_of("1w")) {
        proof {
            assert(minutes@[0] == "1m");
            assert(minutes@[1] == "5m");
            assert(minutes@[2] == "15m");
            assert(minutes@[3] == "30m");
            assert(minutes@[4] == "60m");
        }
        "1w".to_string()
    } else {
        proof {
            assert(minutes@[0] == "1m");
            assert(minutes@[1] == "5m");
            assert(minutes@[2] == "15m");
            assert(minutes@[3] == "30m");
            assert(minutes@[4] == "60m");
        }
        "1d".to_string()
    }
}

/// How many bars a chart of this interval asks for.
pub open spec fn candle_count_spec(interval: Seq<char>) -> usize {
    let l = ascii_lower(interval);
    if l == "1m"@ || l == "5m"@ {
        120
    } else if l == "15m"@ || l == "30m"@ || l == "1h"@ || l == "60m"@ {
        96
    } else if l == "1w"@ {
        80
    } else {
        120
    }
}

pub fn candle_count(interval: &str) -> (r: usize)
    ensures
        r == candle_count_spec(interval@),
{
    let l = ascii_lower_vec(&chars_of(interval));
    if chars_eq(&l, &chars_of("1m")) || chars_eq(&l, &chars_of("5m")) {
        120
    } else if chars_eq(&l, &chars_of("15m")) || chars_eq(&l, &chars_of("30m")) || chars_eq(&l, &chars_of("1h"))
        || chars_eq(&l, &chars_of("60m")) {
        96
    } else if chars_eq(&l, &chars_of("1w")) {
        80
    } else {
        120
    }
}

// ---------------------------------------------------------------------------
// Connection tests of the data sources
// ---------------------------------------------------------------------------

/// The items of the data source connection test.
#[derive(Clone, Copy, Debug, PartialEq, Eq)]
pub enum ConnectionTestItem {
    Quote,
    Intraday,
    Historical,
    Financial,
    CompanyInfo,
    TradeCalendar,
}

pub open spec fn connection_test_item_spec(id: Seq<char>) -> Option<ConnectionTestItem> {
    if id == "quote"@ {
        Some(ConnectionTestItem::Quote)
    } else if id == "intraday"@ {
        Some(ConnectionTestItem::Intraday)
    } else if id == "historical"@ {
        Some(ConnectionTestItem::Historical)
    } else if id == "financial"@ {
        Some(ConnectionTestItem::Financial)
    } else if id == "companyInfo"@ {
        Some(ConnectionTestItem::CompanyInfo)
    } else if id == "tradeCalendar"@ {
        Some(ConnectionTestItem::TradeCalendar)
    } else {
        None
    }
}

/// The test item named `item_id`; unknown names are refused with the name.
pub fn connection_test_item(item_id: &str) -> (r: Result<ConnectionTestItem, String>)
    ensures
        match connection_test_item_spec(item_id@) {
            Some(item) => r == Ok::<ConnectionTestItem, String>(item),
            None => r matches Err(m) && m@ == "不支持的测试项："@ + item_id@,
        },
{
    let id = chars_of(item_id);
    if chars_eq(&id, &chars_of("quote")) {
        Ok(ConnectionTestItem::Quote)
    } else if chars_eq(&id, &chars_of("intraday")) {
        Ok(ConnectionTestItem::Intraday)
    } else if chars_eq(&id, &chars_of("historical")) {
        Ok(ConnectionTestItem::Historical)
    } else if chars_eq(&id, &chars_of("financial")) {
        Ok(ConnectionTestItem::Financial)
    } else if chars_eq(&id, &chars_of("companyInfo")) {
        Ok(ConnectionTestItem::CompanyInfo)
    } else if chars_eq(&id, &chars_of("tradeCalendar")) {
        Ok(ConnectionTestItem::TradeCalendar)
    } else {
        let mut m = chars_of("不支持的测试项：");
        let mut rest = id;
        m.append(&mut rest);
        Err(string_from_chars(&m))
    }
}

/// The message reported when a test item succeeds.
pub fn connection_test_message(item: ConnectionTestItem) -> (r: &'static str)
    ensures
        r@ == match item {
            ConnectionTestItem::Quote => "个股实时行情测试成功"@,
            ConnectionTestItem::Intraday => "分时数据测试成功"@,
            ConnectionTestItem::Historical => "历史行情数据测试成功"@,
            ConnectionTestItem::Financial => "财报数据测试成功"@,
            ConnectionTestItem::CompanyInfo => "公司基础资料测试成功"@,
            ConnectionTestItem::TradeCalendar => "交易日历测试成功"@,
        },
{
    match item {
        ConnectionTestItem::Quote => "个股实时行情测试成功",
        ConnectionTestItem::Intraday => "分时数据测试成功",
        ConnectionTestItem::Historical => "历史行情数据测试成功",
        ConnectionTestItem::Financial => "财报数据测试成功",
        ConnectionTestItem::CompanyInfo => "公司基础资料测试成功",
        ConnectionTestItem::TradeCalendar => "交易日历测试成功",
    }
}

pub open spec fn history_action_is(a: AkshareAction, symbol: Seq<char>, frequency: Seq<char>, count: usize) -> bool {
    match a {
        AkshareAction::HistoryBars { symbol: s, frequency: f, count: c, start_date: sd, end_date: ed } => {
            s@ == symbol && f@ == frequency && c == count && sd is None && ed is None
        },
        _ => false,
    }
}

/// What each test item asks the service for, on the sample stock `SHSE.600000`.
pub fn connection_test_action(item: ConnectionTestItem) -> (r: AkshareAction)
    ensures
        item == ConnectionTestItem::Quote ==> (r matches AkshareAction::CurrentQuote { symbol: s } && s@ == "SHSE.600000"@),
        item == ConnectionTestItem::Intraday ==> history_action_is(r, "SHSE.600000"@, "5m"@, 2),
        item == ConnectionTestItem::Historical ==> history_action_is(r, "SHSE.600000"@, "1d"@, 2),
        item == ConnectionTestItem::Financial ==> r == AkshareAction::FinancialReportProbe,
        item == ConnectionTestItem::CompanyInfo ==> (r matches AkshareAction::StockInfo { symbol: s } && s@ == "SHSE.600000"@),
        item == ConnectionTestItem::TradeCalendar ==> (r matches AkshareAction::IsTradeDate { date: d } && d@ == "2026-05-11"@),
{
    match item {
        ConnectionTestItem::Quote => AkshareAction::CurrentQuote { symbol: "SHSE.600000".to_string() },
        ConnectionTestItem::Intraday => AkshareAction::HistoryBars {
            symbol: "SHSE.600000".to_string(),
            frequency: "5m".to_string(),
            count: 2,
            start_date: None,
            end_date: None,
        },
        ConnectionTestItem::Historical => AkshareAction::HistoryBars {
            symbol: "SHSE.600000".to_string(),
            frequency: "1d".to_string(),
            count: 2,
            start_date: None,
            end_date: None,
        },
        ConnectionTestItem::Financial => AkshareAction::FinancialReportProbe,
        ConnectionTestItem::CompanyInfo => AkshareAction::StockInfo { symbol: "SHSE.600000".to_string() },
        ConnectionTestItem::TradeCalendar => AkshareAction::IsTradeDate { date: "2026-05-11".to_string() },
    }
}

/// The overrides a connection test uses: the sources and token under test.
pub fn connection_test_overrides(
    intraday_data_source: &str,
    historical_data_source: &str,
    xueqiu_token: Option<&str>,
) -> (r: AkshareRequestOverrides)
    ensures
        r.intraday_data_source matches Some(s) && s@ == intraday_data_source@,
        r.historical_data_source matches Some(s) && s@ == historical_data_source@,
        match xueqiu_token {
            Some(t) => r.xueqiu_token matches Some(s) && s@ == t@,
            None => r.xueqiu_token is None,
        },
{
    AkshareRequestOverrides {
        intraday_data_source: Some(intraday_data_source.to_string()),
        historical_data_source: Some(historical_data_source.to_string()),
        xueqiu_token: match xueqiu_token {
            Some(t) => Some(t.to_string()),
            None => None,
        },
    }
}

// ---------------------------------------------------------------------------
// Trading hours
// ---------------------------------------------------------------------------

/// Whether the A-share market is open at a Shanghai time: a weekday the
/// calendar does not close (no answer counts as open), 09:30-11:30 or 13:00-15:00.
pub open spec fn market_open_spec(weekday_from_monday: u8, calendar_answer: Option<bool>, hour: u8, minute: u8) -> bool {
    let minutes = hour * 60 + minute;
    weekday_from_monday <= 5 && (match calendar_answer {
        Some(b) => b,
        None => true,
    }) && ((570 <= minutes <= 690) || (780 <= minutes <= 900))
}

pub fn a_share_market_is_open_at(weekday_from_monday: u8, calendar_answer: Option<bool>, hour: u8, minute: u8) -> (r: bool)
    ensures
        r == market_open_spec(weekday_from_monday, calendar_answer, hour, minute),
{
    if weekday_from_monday > 5 {
        return false;
    }
    let trading = match calendar_answer {
        Some(b) => b,
        None => true,
    };
    if !trading {
        return false;
    }
    let minutes: u16 = (hour as u16) * 60 + (minute as u16);
    (570 <= minutes && minutes <= 690) || (780 <= minutes && minutes <= 900)
}


// ---------------------------------------------------------------------------
// Chart requests
// ---------------------------------------------------------------------------

/// What a chart request turns into: an empty series for a symbol that is not
/// watched, else a load of bars with the AKShare frequency and count for the
/// interval, from the given market type and exchange ("ashare" and "akshare"
/// when not given).
#[derive(Debug, PartialEq, Eq)]
pub enum CandlePlan {
    Unwatched { symbol: String },
    Load { symbol: String, frequency: String, count: usize, market_type: String, exchange: String },
}

pub open spec fn or_default(o: Option<String>, d: Seq<char>) -> Seq<char> {
    match o {
        Some(v) => v@,
        None => d,
    }
}

/// The plan's contents for a request, as plain values.
pub open spec fn candle_plan_is(
    p: CandlePlan,
    symbol: Seq<char>,
    watchlist_symbols: Seq<Seq<char>>,
    interval: Seq<char>,
    market_type: Option<String>,
    exchange: Option<String>,
) -> bool {
    let wanted = watch_entry(symbol);
    let watched = dedup_adjacent(sort_stable(watch_entries(watchlist_symbols), lex_order())).contains(wanted);
    match p {
        CandlePlan::Unwatched { symbol: s } => !watched && s@ == wanted,
        CandlePlan::Load { symbol: s, frequency: f, count: c, market_type: m, exchange: e } => {
            &&& watched
            &&& s@ == wanted
            &&& f@ == akshare_frequency_spec(interval)
            &&& c == candle_count_spec(interval)
            &&& m@ == or_default(market_type, "ashare"@)
            &&& e@ == or_default(exchange, "akshare"@)
        },
    }
}

fn contains_text(list: &Vec<String>, value: &[char]) -> (r: bool)
    ensures
        r == string_views(list@).contains(value@),
{
    let ghost sv = string_views(list@);
    let mut i: usize = 0;
    while i < list.len()
        invariant
            i <= list.len(),
            sv == string_views(list@),
            forall|j: int| 0 <= j < i ==> sv[j] != value@,
        decreases list.len() - i,
    {
        if chars_eq(&chars_of(list[i].as_str()), value) {
            assert(sv[i as int] == value@);
            return true;
        }
        i += 1;
    }
    false
}

/// Reads a chart request: the symbol is trimmed and ASCII upper-cased and
/// looked up in the normalised watchlist.
pub fn candle_plan(
    symbol: &str,
    watchlist_symbols: &[String],
    interval: &str,
    market_type: Option<String>,
    exchange: Option<String>,
) -> (r: CandlePlan)
    ensures
        candle_plan_is(r, symbol@, string_views(watchlist_symbols@), interval@, market_type, exchange),
{
    let wanted = ascii_upper_vec(&chars_of(trim_str(symbol).as_str()));
    let watchlist = normalize_watchlist(watchlist_symbols);
    let normalized = string_from_chars(&wanted);
    if !contains_text(&watchlist, &wanted) {
        return CandlePlan::Unwatched { symbol: normalized };
    }
    let market = match market_type {
        Some(m) => m,
        None => "ashare".to_string(),
    };
    let venue = match exchange {
        Some(e) => e,
        None => "akshare".to_string(),
    };
    CandlePlan::Load {
        symbol: normalized,
        frequency: akshare_frequency(interval),
        count: candle_count(interval),
        market_type: market,
        exchange: venue,
    }
}

} // verus!
