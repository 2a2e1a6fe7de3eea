//! Requests to the AKShare data service and the reading of its replies.
//!
//! The service itself runs as a separate process; the library decides
//! whether a call is needed, what it asks for (with the data sources and the
//! Xueqiu token resolved from the runtime settings), and what a reply means.
use vstd::prelude::*;

use crate::text::{trim_str, trimmed};

verus! {

/// Name of the market data source.
pub const DATA_SOURCE_NAME: &'static str = "akshare";

/// Per-request replacements for the runtime data sources and token.
#[derive(Debug, Clone, Default)]
pub struct AkshareRequestOverrides {
    pub intraday_data_source: Option<String>,
    pub historical_data_source: Option<String>,
    pub xueqiu_token: Option<String>,
}

/// What the runtime settings hold for AKShare requests; reading the stored
/// Xueqiu token may have failed.
#[derive(Debug)]
pub struct AkshareSettings {
    pub intraday_data_source: String,
    pub historical_data_source: String,
    pub xueqiu_token: Result<Option<String>, String>,
}

/// What a request asks the service to do.
#[derive(Debug, Clone, PartialEq, Eq)]
pub enum AkshareAction {
    CurrentQuote { symbol: String },
    CurrentQuotes { symbols: Vec<String> },
    HistoryBars {
        symbol: String,
        frequency: String,
        count: usize,
        start_date: Option<String>,
        end_date: Option<String>,
    },
    StockInfo { symbol: String },
    MultiFrequencyBars { symbol: String, count: usize },
    FinancialReports { years: u32 },
    FinancialReportProbe,
    SearchStocks { query: String },
    StockUniverse,
    IsTradeDate { date: String },
}

/// A request with its data sources resolved.
#[derive(Debug, Clone, PartialEq, Eq)]
pub struct AkshareRequest {
    pub action: AkshareAction,
    pub intraday_data_source: String,
    pub historical_data_source: String,
    pub xueqiu_token: Option<String>,
}

/// A reply of the service: `ok`, the data, or an error message.
#[derive(Debug)]
pub struct AkshareReply<T> {
    pub ok: bool,
    pub data: Option<T>,
    pub error: Option<String>,
}

pub open spec fn is_blank(s: Seq<char>) -> bool {
    trimmed(s).len() == 0
}

fn is_blank_exec(s: &str) -> (r: bool)
    ensures
        r == is_blank(s@),
{
    crate::text::chars_of(trim_str(s).as_str()).len() == 0
}

pub open spec fn opt_view(o: Option<String>) -> Option<Seq<char>> {
    match o {
        Some(s) => Some(s@),
        None => None,
    }
}

/// The token sent with a request: a non-blank override, else the stored
/// token when it is not blank; a failed read of the stored token only
/// matters when no override applies.
pub open spec fn resolved_token(override_token: Option<Seq<char>>, stored: Result<Option<Seq<char>>, Seq<char>>) -> Result<Option<Seq<char>>, Seq<char>> {
    match override_token {
        Some(t) if !is_blank(t) => Ok(Some(t)),
        _ => match stored {
            Err(e) => Err(e),
            Ok(Some(t)) => if is_blank(t) {
                Ok(None)
            } else {
                Ok(Some(t))
            },
            Ok(None) => Ok(None),
        },
    }
}

pub open spec fn stored_view(r: Result<Option<String>, String>) -> Result<Option<Seq<char>>, Seq<char>> {
    match r {
        Ok(o) => Ok(opt_view(o)),
        Err(e) => Err(e@),
    }
}

fn copy_opt(o: &Option<String>) -> (r: Option<String>)
    ensures
        opt_view(r) == opt_view(*o),
{
    match o {
        Some(s) => Some(s.clone()),
        None => None,
    }
}

/// The request for `action`: overrides replace the runtime data sources,
/// and the token is resolved as `resolved_token` says.
pub fn request_with_runtime_overrides(
    action: AkshareAction,
    settings: &AkshareSettings,
    overrides: &AkshareRequestOverrides,
) -> (r: Result<AkshareRequest, String>)
    ensures
        match resolved_token(opt_view(overrides.xueqiu_token), stored_view(settings.xueqiu_token)) {
            Err(e) => r matches Err(m) && m@ == e,
            Ok(t) => r matches Ok(req) && req.action == action
                && req.intraday_data_source@ == (match overrides.intraday_data_source {
                    Some(s) => s@,
                    None => settings.intraday_data_source@,
                })
                && req.historical_data_source@ == (match overrides.historical_data_source {
                    Some(s) => s@,
                    None => settings.historical_data_source@,
                })
                && opt_view(req.xueqiu_token) == t,
        },
{
    let intraday = match &overrides.intraday_data_source {
        Some(s) => s.clone(),
        None => settings.intraday_data_source.clone(),
    };
    let historical = match &overrides.historical_data_source {
        Some(s) => s.clone(),
        None => settings.historical_data_source.clone(),
    };
    let override_usable = match &overrides.xueqiu_token {
        Some(t) => !is_blank_exec(t.as_str()),
        None => false,
    };
    let token: Option<String> = if override_usable {
        copy_opt(&overrides.xueqiu_token)
    } else {
        match &settings.xueqiu_token {
            Err(e) => return Err(e.clone()),
            Ok(Some(t)) => if is_blank_exec(t.as_str()) {
                None
            } else {
                Some(t.clone())
            },
            Ok(None) => None,
        }
    };
    Ok(AkshareRequest {
        action,
        intraday_data_source: intraday,
        historical_data_source: historical,
        xueqiu_token: token,
    })
}

/// `request_with_runtime_overrides` without overrides.
pub fn request_with_runtime_settings(action: AkshareAction, settings: &AkshareSettings) -> (r: Result<AkshareRequest, String>)
    ensures
        match resolved_token(None, stored_view(settings.xueqiu_token)) {
            Err(e) => r matches Err(m) && m@ == e,
            Ok(t) => r matches Ok(req) && req.action == action
                && req.intraday_data_source@ == settings.intraday_data_source@
                && req.historical_data_source@ == settings.historical_data_source@
                && opt_view(req.xueqiu_token) == t,
        },
{
    let none = AkshareRequestOverrides { intraday_data_source: None, historical_data_source: None, xueqiu_token: None };
    request_with_runtime_overrides(action, settings, &none)
}

/// What a reply yields: its data when `ok` (possibly none), else its error
/// message or `failure_message`.
pub fn reply_data<T>(reply: AkshareReply<T>, failure_message: &str) -> (r: Result<Option<T>, String>)
    ensures
        reply.ok ==> r == Ok::<Option<T>, String>(reply.data),
        !reply.ok ==> (r matches Err(m) && m@ == match reply.error {
            Some(e) => e@,
            None => failure_message@,
        }),
{
    if !reply.ok {
        return Err(match reply.error {
            Some(e) => e,
            None => failure_message.to_string(),
        });
    }
    Ok(reply.data)
}

/// What a list reply yields: its items (none when the data is missing)
/// when `ok`, else its error message or `failure`.
pub open spec fn list_reply<T>(reply: AkshareReply<Vec<T>>, failure: Seq<char>) -> Result<Seq<T>, Seq<char>> {
    if reply.ok {
        Ok(
            match reply.data {
                Some(d) => d@,
                None => Seq::<T>::empty(),
            },
        )
    } else {
        Err(
            match reply.error {
                Some(e) => e@,
                None => failure,
            },
        )
    }
}

pub open spec fn list_result_view<T>(r: Result<Vec<T>, String>) -> Result<Seq<T>, Seq<char>> {
    match r {
        Ok(v) => Ok(v@),
        Err(m) => Err(m@),
    }
}

/// A list reply: its items, none when the data is missing.
pub fn reply_list<T>(reply: AkshareReply<Vec<T>>, failure_message: &str) -> (r: Result<Vec<T>, String>)
    ensures
        list_result_view(r) == list_reply(reply, failure_message@),
{
    match reply_data(reply, failure_message) {
        Ok(Some(v)) => Ok(v),
        Ok(None) => Ok(Vec::new()),
        Err(e) => Err(e),
    }
}

pub open spec fn opt_str(o: Option<&str>) -> Option<Seq<char>> {
    match o {
        Some(x) => Some(x@),
        None => None,
    }
}

/// `r` is the request for history bars of `symbol` from `start` to `end`:
/// none for a blank symbol, else the bars request with the runtime data
/// sources and the resolved token, or the token's error.
pub open spec fn ranged_history_request(
    r: Result<Option<AkshareRequest>, String>,
    settings: AkshareSettings,
    symbol: Seq<char>,
    frequency: Seq<char>,
    count: usize,
    start: Option<Seq<char>>,
    end: Option<Seq<char>>,
) -> bool {
    if is_blank(symbol) {
        r == Ok::<Option<AkshareRequest>, String>(None)
    } else {
        match resolved_token(None, stored_view(settings.xueqiu_token)) {
            Err(e) => r matches Err(m) && m@ == e,
            Ok(t) => r matches Ok(Some(req)) && (req.action matches AkshareAction::HistoryBars {
                symbol: s,
                frequency: f,
                count: c,
                start_date: sd,
                end_date: ed,
            } && s@ == symbol && f@ == frequency && c == count && opt_view(sd) == start && opt_view(ed)
                == end) && req.intraday_data_source@ == settings.intraday_data_source@
                && req.historical_data_source@ == settings.historical_data_source@
                && opt_view(req.xueqiu_token) == t,
        }
    }
}

/// `r` is the request for the latest `count` history bars of `symbol`,
/// with no date range.
pub open spec fn latest_history_request(
    r: Result<Option<AkshareRequest>, String>,
    settings: AkshareSettings,
    symbol: Seq<char>,
    frequency: Seq<char>,
    count: usize,
) -> bool {
    if is_blank(symbol) {
        r == Ok::<Option<AkshareRequest>, String>(None)
    } else {
        match resolved_token(None, stored_view(settings.xueqiu_token)) {
            Err(e) => r matches Err(m) && m@ == e,
            Ok(t) => r matches Ok(Some(req)) && (req.action matches AkshareAction::HistoryBars {
                symbol: s,
                frequency: f,
                count: c,
                start_date: None,
                end_date: None,
            } && s@ == symbol && f@ == frequency && c == count)
                && req.intraday_data_source@ == settings.intraday_data_source@
                && req.historical_data_source@ == settings.historical_data_source@
                && opt_view(req.xueqiu_token) == t,
        }
    }
}

/// The request for a range of history bars; none for a blank symbol (the
/// answer is then no bars).
pub fn fetch_history_bars_in_range_with_settings(
    settings: &AkshareSettings,
    symbol: &str,
    frequency: &str,
    count: usize,
    start_date: Option<&str>,
    end_date: Option<&str>,
) -> (r: Result<Option<AkshareRequest>, String>)
    ensures
        ranged_history_request(
            r,
            *settings,
            symbol@,
            frequency@,
            count,
            opt_str(start_date),
            opt_str(end_date),
        ),
{
    if is_blank_exec(symbol) {
        return Ok(None);
    }
    let action = AkshareAction::HistoryBars {
        symbol: symbol.to_string(),
        frequency: frequency.to_string(),
        count,
        start_date: match start_date {
            Some(x) => Some(x.to_string()),
            None => None,
        },
        end_date: match end_date {
            Some(x) => Some(x.to_string()),
            None => None,
        },
    };
    match request_with_runtime_settings(action, settings) {
        Ok(req) => Ok(Some(req)),
        Err(e) => Err(e),
    }
}

/// The request for the latest `count` history bars (no date range).
pub fn fetch_history_bars_with_settings(
    settings: &AkshareSettings,
    symbol: &str,
    frequency: &str,
    count: usize,
) -> (r: Result<Option<AkshareRequest>, String>)
    ensures
        latest_history_request(r, *settings, symbol@, frequency@, count),
{
    fetch_history_bars_in_range_with_settings(settings, symbol, frequency, count, None, None)
}

/// Per-request overrides as plain values: intraday source, historical
/// source, token.
pub open spec fn overrides_view(o: AkshareRequestOverrides) -> (Option<Seq<char>>, Option<Seq<char>>, Option<Seq<char>>) {
    (opt_view(o.intraday_data_source), opt_view(o.historical_data_source), opt_view(o.xueqiu_token))
}

/// `r` is the trading-day request for `date` under `overrides`: each given
/// data source replaces the runtime one, and the token is resolved as
/// `resolved_token` says.
pub open spec fn trade_date_request_with(
    r: Result<AkshareRequest, String>,
    settings: AkshareSettings,
    date: Seq<char>,
    overrides: (Option<Seq<char>>, Option<Seq<char>>, Option<Seq<char>>),
) -> bool {
    match resolved_token(overrides.2, stored_view(settings.xueqiu_token)) {
        Err(e) => r matches Err(m) && m@ == e,
        Ok(t) => r matches Ok(req) && (req.action matches AkshareAction::IsTradeDate { date: d } && d@ == date)
            && req.intraday_data_source@ == (match overrides.0 {
                Some(x) => x,
                None => settings.intraday_data_source@,
            }) && req.historical_data_source@ == (match overrides.1 {
                Some(x) => x,
                None => settings.historical_data_source@,
            }) && opt_view(req.xueqiu_token) == t,
    }
}

/// `r` is the trading-day request for `date` under the runtime settings.
pub open spec fn trade_date_request(r: Result<AkshareRequest, String>, settings: AkshareSettings, date: Seq<char>) -> bool {
    match resolved_token(None, stored_view(settings.xueqiu_token)) {
        Err(e) => r matches Err(m) && m@ == e,
        Ok(t) => r matches Ok(req) && (req.action matches AkshareAction::IsTradeDate { date: d } && d@ == date)
            && req.intraday_data_source@ == settings.intraday_data_source@
            && req.historical_data_source@ == settings.historical_data_source@
            && opt_view(req.xueqiu_token) == t,
    }
}

/// The request asking whether `date` is an exchange trading day, with
/// per-request overrides.
pub fn is_trade_date_with_overrides(
    settings: &AkshareSettings,
    date: &str,
    overrides: &AkshareRequestOverrides,
) -> (r: Result<AkshareRequest, String>)
    ensures
        trade_date_request_with(r, *settings, date@, overrides_view(*overrides)),
{
    request_with_runtime_overrides(AkshareAction::IsTradeDate { date: date.to_string() }, settings, overrides)
}

/// The request asking whether `date` is an exchange trading day.
pub fn is_trade_date_with_settings(settings: &AkshareSettings, date: &str) -> (r: Result<AkshareRequest, String>)
    ensures
        trade_date_request(r, *settings, date@),
{
    let none = AkshareRequestOverrides { intraday_data_source: None, historical_data_source: None, xueqiu_token: None };
    is_trade_date_with_overrides(settings, date, &none)
}

/// A trading-calendar reply: the answer, `false` when it carries none.
pub fn is_trade_date_from_reply(reply: AkshareReply<bool>) -> (r: Result<bool, String>)
    ensures
        reply.ok ==> r == Ok::<bool, String>(match reply.data {
            Some(b) => b,
            None => false,
        }),
        !reply.ok ==> (r matches Err(m) && m@ == match reply.error {
            Some(e) => e@,
            None => "AKShare 交易日历请求失败"@,
        }),
{
    match reply_data(reply, "AKShare 交易日历请求失败") {
        Ok(Some(b)) => Ok(b),
        Ok(None) => Ok(false),
        Err(e) => Err(e),
    }
}

/// The request for the whole A-share stock list.
pub fn fetch_stock_universe_with_settings(settings: &AkshareSettings) -> (r: Result<AkshareRequest, String>)
    ensures
        match resolved_token(None, stored_view(settings.xueqiu_token)) {
            Err(e) => r matches Err(m) && m@ == e,
            Ok(t) => r matches Ok(req) && req.action == AkshareAction::StockUniverse
                && req.intraday_data_source@ == settings.intraday_data_source@
                && req.historical_data_source@ == settings.historical_data_source@
                && opt_view(req.xueqiu_token) == t,
        },
{
    request_with_runtime_settings(AkshareAction::StockUniverse, settings)
}

/// The message of a failed stock list request.
pub open spec fn universe_failure() -> Seq<char> {
    "AKShare 股票列表缓存失败"@
}

/// The stocks of a stock list reply.
pub fn fetch_stock_universe_from_reply<T>(reply: AkshareReply<Vec<T>>) -> (r: Result<Vec<T>, String>)
    ensures
        list_result_view(r) == list_reply(reply, universe_failure()),
{
    reply_list(reply, "AKShare 股票列表缓存失败")
}

/// How many stocks a stock list reply holds, or its error.
pub open spec fn warm_reply<T>(reply: AkshareReply<Vec<T>>) -> Result<nat, Seq<char>> {
    if !reply.ok {
        Err(
            match reply.error {
                Some(e) => e@,
                None => universe_failure(),
            },
        )
    } else {
        match reply.data {
            Some(v) => Ok(v@.len()),
            None => Ok(0),
        }
    }
}

/// Warming the stock list cache reports how many stocks the reply holds.
pub fn warm_stock_universe_cache_with_settings<T>(reply: AkshareReply<Vec<T>>) -> (r: Result<usize, String>)
    ensures
        match r {
            Ok(n) => warm_reply(reply) == Ok::<nat, Seq<char>>(n as nat),
            Err(m) => warm_reply(reply) == Err::<nat, Seq<char>>(m@),
        },
{
    match fetch_stock_universe_from_reply(reply) {
        Ok(v) => Ok(v.len()),
        Err(e) => Err(e),
    }
}

/// The request searching stocks by `query`; none for a blank query (the
/// answer is then no stocks).
pub fn search_stocks_with_settings(settings: &AkshareSettings, query: &str) -> (r: Result<Option<AkshareRequest>, String>)
    ensures
        is_blank(query@) ==> r == Ok::<Option<AkshareRequest>, String>(None),
        !is_blank(query@) ==> match resolved_token(None, stored_view(settings.xueqiu_token)) {
            Err(e) => r matches Err(m) && m@ == e,
            Ok(t) => r matches Ok(Some(req)) && (req.action matches AkshareAction::SearchStocks { query: q } && q@ == query@)
                && req.intraday_data_source@ == settings.intraday_data_source@
                && req.historical_data_source@ == settings.historical_data_source@
                && opt_view(req.xueqiu_token) == t,
        },
{
    if is_blank_exec(query) {
        return Ok(None);
    }
    match request_with_runtime_settings(AkshareAction::SearchStocks { query: query.to_string() }, settings) {
        Ok(req) => Ok(Some(req)),
        Err(e) => Err(e),
    }
}

/// The request for current quotes of `symbols`; none when there are no symbols.
pub fn fetch_current_quotes_with_settings(settings: &AkshareSettings, symbols: &[String]) -> (r: Result<Option<AkshareRequest>, String>)
    ensures
        symbols@.len() == 0 ==> r == Ok::<Option<AkshareRequest>, String>(None),
        symbols@.len() > 0 ==> match resolved_token(None, stored_view(settings.xueqiu_token)) {
            Err(e) => r matches Err(m) && m@ == e,
            Ok(t) => r matches Ok(Some(req)) && (req.action matches AkshareAction::CurrentQuotes { symbols: v }
                && v@.map_values(|s: String| s@) == symbols@.map_values(|s: String| s@))
                && opt_view(req.xueqiu_token) == t,
        },
{
    if symbols.len() == 0 {
        return Ok(None);
    }
    let mut v: Vec<String> = Vec::new();
    let mut i: usize = 0;
    while i < symbols.len()
        invariant
            i <= symbols.len(),
            v@.map_values(|s: String| s@) == symbols@.take(i as int).map_values(|s: String| s@),
        decreases symbols.len() - i,
    {
        let x = symbols[i].clone();
        let ghost before = v@.map_values(|s: String| s@);
        v.push(x);
        assert(v@.map_values(|s: String| s@) =~= before.push(symbols@[i as int]@));
        assert(symbols@.take(i + 1).map_values(|s: String| s@) =~= symbols@.take(i as int).map_values(|s: String| s@).push(symbols@[i as int]@));
        i += 1;
    }
    assert(symbols@.take(symbols.len() as int) =~= symbols@);
    match request_with_runtime_settings(AkshareAction::CurrentQuotes { symbols: v }, settings) {
        Ok(req) => Ok(Some(req)),
        Err(e) => Err(e),
    }
}

/// Asking for the latest history bars is asking for the ranged bars with
/// no start and no end date: both admit exactly the same requests.
pub proof fn law_latest_bars_are_unranged(
    r: Result<Option<AkshareRequest>, String>,
    settings: AkshareSettings,
    symbol: Seq<char>,
    frequency: Seq<char>,
    count: usize,
)
    ensures
        latest_history_request(r, settings, symbol, frequency, count) == ranged_history_request(
            r,
            settings,
            symbol,
            frequency,
            count,
            None,
            None,
        ),
{
}

/// The trading-day request under the runtime settings is the request under
/// overrides that replace nothing (what `AkshareRequestOverrides::default`
/// holds).
pub proof fn law_trade_date_without_overrides(
    r: Result<AkshareRequest, String>,
    settings: AkshareSettings,
    date: Seq<char>,
)
    ensures
        trade_date_request(r, settings, date) == trade_date_request_with(r, settings, date, (None, None, None)),
{
}

/// Warming the stock list cache gives the number of stocks the stock list
/// request gives, and its error unchanged.
pub proof fn law_warm_counts_universe<T>(reply: AkshareReply<Vec<T>>)
    ensures
        warm_reply(reply) == match list_reply(reply, universe_failure()) {
            Ok(v) => Ok::<nat, Seq<char>>(v.len()),
            Err(e) => Err::<nat, Seq<char>>(e),
        },
{
}

} // verus!
