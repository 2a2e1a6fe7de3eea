//! Job kinds and their routes; job history timestamps and durations.
use vstd::prelude::*;

pub mod kinds;
pub mod state;
pub mod store;

use crate::arbitrage::{parse_rfc3339_millis, rfc3339_millis};
use crate::numbers::{parse_i64, parse_int, slice_from};
use crate::text::{chars_eq, chars_of, has_prefix, has_prefix_exec, string_from_chars, trim_str, trimmed};

verus! {

/// The job kinds that have a worker, with the worker each is routed to.
pub open spec fn job_routes() -> Seq<(Seq<char>, Seq<char>)> {
    seq![
        (kinds::RECOMMENDATION_GENERATE@, "recommendation.generate"@),
        (kinds::RECOMMENDATION_EVALUATE@, "recommendation.evaluate"@),
        (kinds::PAPER_ORDER_MONITOR@, "paper.monitor"@),
        (kinds::NOTIFICATION_DISPATCH@, "notifications.dispatch"@),
        (kinds::SIGNAL_SCAN@, "signal.scan"@),
        (kinds::MARKET_REFRESH_SYMBOLS@, "market.refresh_symbols"@),
        (kinds::MARKET_REFRESH_SNAPSHOTS@, "market.refresh_snapshots"@),
        (kinds::MARKET_REBUILD_ORDERBOOK@, "market.rebuild_orderbook"@),
        (kinds::SPREAD_EVALUATE@, "spread.evaluate"@),
        (kinds::CREDENTIAL_VALIDATE@, "credential.validate"@),
        (kinds::PORTFOLIO_REFRESH@, "portfolio.refresh"@),
        (kinds::ASSISTANT_RUN@, "assistant.run"@),
        (kinds::FINANCIAL_REPORT_FETCH@, "financial_report.fetch"@),
        (kinds::FINANCIAL_REPORT_ANALYZE@, "financial_report.analyze"@),
    ]
}

/// The route of `kind`: that of the first table entry for it, `noop` for an
/// unknown kind.
pub open spec fn route_spec(table: Seq<(Seq<char>, Seq<char>)>, kind: Seq<char>) -> Seq<char>
    decreases table.len(),
{
    if table.len() == 0 {
        "noop"@
    } else if table[0].0 == kind {
        table[0].1
    } else {
        route_spec(table.drop_first(), kind)
    }
}

fn job_route_table() -> (r: Vec<(&'static str, &'static str)>)
    ensures
        r@.map_values(|e: (&'static str, &'static str)| (e.0@, e.1@)) == job_routes(),
{
    let v = vec![
        (kinds::RECOMMENDATION_GENERATE, "recommendation.generate"),
        (kinds::RECOMMENDATION_EVALUATE, "recommendation.evaluate"),
        (kinds::PAPER_ORDER_MONITOR, "paper.monitor"),
        (kinds::NOTIFICATION_DISPATCH, "notifications.dispatch"),
        (kinds::SIGNAL_SCAN, "signal.scan"),
        (kinds::MARKET_REFRESH_SYMBOLS, "market.refresh_symbols"),
        (kinds::MARKET_REFRESH_SNAPSHOTS, "market.refresh_snapshots"),
        (kinds::MARKET_REBUILD_ORDERBOOK, "market.rebuild_orderbook"),
        (kinds::SPREAD_EVALUATE, "spread.evaluate"),
        (kinds::CREDENTIAL_VALIDATE, "credential.validate"),
        (kinds::PORTFOLIO_REFRESH, "portfolio.refresh"),
        (kinds::ASSISTANT_RUN, "assistant.run"),
        (kinds::FINANCIAL_REPORT_FETCH, "financial_report.fetch"),
        (kinds::FINANCIAL_REPORT_ANALYZE, "financial_report.analyze"),
    ];
    assert(v@.map_values(|e: (&'static str, &'static str)| (e.0@, e.1@)) =~= job_routes());
    v
}

/// The worker a job of `kind` is routed to.
pub fn route_job_kind(kind: &str) -> (r: &'static str)
    ensures
        r@ == route_spec(job_routes(), kind@),
{
    let table = job_route_table();
    let ghost t = job_routes();
    let k = chars_of(kind);
    let mut i: usize = 0;
    assert(t.skip(0) =~= t);
    while i < table.len()
        invariant
            i <= table.len(),
            t == job_routes(),
            t.len() == table@.len(),
            table@.map_values(|e: (&'static str, &'static str)| (e.0@, e.1@)) == t,
            k@ == kind@,
            route_spec(t, kind@) == route_spec(t.skip(i as int), kind@),
        decreases table.len() - i,
    {
        let (key, route) = table[i];
        assert(t[i as int] == (key@, route@));
        assert(t.skip(i as int)[0] == t[i as int]);
        assert(t.skip(i as int).drop_first() =~= t.skip(i + 1));
        if chars_eq(&chars_of(key), &k) {
            return route;
        }
        i += 1;
    }
    assert(t.skip(i as int).len() == 0);
    "noop"
}

/// Seconds below 10^12 become milliseconds (saturating).
pub open spec fn epoch_millis_spec(value: int) -> int {
    if value < 1_000_000_000_000 {
        if value * 1000 < i64::MIN {
            i64::MIN as int
        } else {
            value * 1000
        }
    } else {
        value
    }
}

pub fn normalize_epoch_millis(value: i64) -> (r: i64)
    ensures
        r as int == epoch_millis_spec(value as int),
{
    if value < 1_000_000_000_000 {
        let wide = (value as i128) * 1000;
        if wide < i64::MIN as i128 {
            i64::MIN
        } else {
            wide as i64
        }
    } else {
        value
    }
}

pub open spec fn i64_parse(s: Seq<char>) -> Option<int> {
    match parse_int(s, i64::MIN as int, i64::MAX as int) {
        Ok(v) => Some(v),
        Err(_) => None,
    }
}

/// Milliseconds since the epoch of a job timestamp: `epoch:<n>` or a bare
/// number (seconds below 10^12), else RFC 3339 (milliseconds truncated to `i64`).
pub open spec fn job_timestamp_millis(value: Seq<char>) -> Option<int> {
    let t = trimmed(value);
    if has_prefix(t, "epoch:"@) {
        match i64_parse(t.skip(6)) {
            Some(v) => Some(epoch_millis_spec(v)),
            None => None,
        }
    } else {
        match i64_parse(t) {
            Some(v) => Some(epoch_millis_spec(v)),
            None => match rfc3339_millis(t) {
                Some(m) => Some((m as i64) as int),
                None => None,
            },
        }
    }
}

pub fn parse_job_timestamp_millis(value: &str) -> (r: Option<i64>)
    ensures
        match r {
            Some(x) => job_timestamp_millis(value@) == Some(x as int),
            None => job_timestamp_millis(value@) is None,
        },
{
    let t = trim_str(value);
    let chars = chars_of(t.as_str());
    if has_prefix_exec(&chars, &chars_of("epoch:")) {
        proof {
            reveal_strlit("epoch:");
        }
        let rest = slice_from(&chars, 6);
        return match parse_i64(&rest) {
            Ok(v) => Some(normalize_epoch_millis(v)),
            Err(_) => None,
        };
    }
    match parse_i64(&chars) {
        Ok(v) => Some(normalize_epoch_millis(v)),
        Err(_) => match parse_rfc3339_millis(t.as_str()) {
            Some(m) => Some(#[verifier::truncate] (m as i64)),
            None => None,
        },
    }
}

/// Milliseconds from `start` to `end`, saturating at the bounds of `i64`.
pub open spec fn saturating_span(start: int, end: int) -> int {
    if end - start > i64::MAX {
        i64::MAX as int
    } else if end - start < i64::MIN {
        i64::MIN as int
    } else {
        end - start
    }
}

/// The duration between two read timestamps (saturating); none when either
/// did not read.
pub fn duration_from_millis(started: Option<i64>, ended: Option<i64>) -> (r: Option<i64>)
    ensures
        match (started, ended) {
            (Some(s), Some(e)) => r == Some(saturating_span(s as int, e as int) as i64),
            _ => r is None,
        },
{
    let s = started?;
    let e = ended?;
    let wide = (e as i128) - (s as i128);
    Some(if wide > i64::MAX as i128 {
        i64::MAX
    } else if wide < i64::MIN as i128 {
        i64::MIN
    } else {
        wide as i64
    })
}

/// Milliseconds from start to end (saturating), when both timestamps read.
pub fn duration_between(started_at: &str, ended_at: &str) -> (r: Option<i64>)
    ensures
        match (job_timestamp_millis(started_at@), job_timestamp_millis(ended_at@)) {
            (Some(s), Some(e)) => r matches Some(d) && d as int == saturating_span(s, e),
            _ => r is None,
        },
{
    let s = parse_job_timestamp_millis(started_at);
    let e = parse_job_timestamp_millis(ended_at);
    duration_from_millis(s, e)
}

/// The placeholder timestamp written when the clock cannot be formatted.
pub fn fallback_epoch_timestamp(seconds: u64) -> (r: String)
    ensures
        r@ == "epoch:"@ + crate::text::decimal_digits(seconds as nat),
{
    let mut out = chars_of("epoch:");
    let mut digits = crate::numbers::decimal_digits_exec(seconds);
    out.append(&mut digits);
    string_from_chars(&out)
}

} // verus!
