//! Backtest sampling plan: the A-share session timepoints of a date range,
//! the bars sampled at those timepoints, and the size of a backtest run.
use vstd::prelude::*;

use crate::assistant::{append_chars, append_str};
use crate::candles::{dedup_adjacent, lemma_sorted_distinct, sorted_distinct};
use crate::calendar::{
    lemma_date_le_ordinal, date_le, date_le_exec, date_ordinal, date_text, date_to_string, lemma_next_day_valid,
    next_calendar_day, next_day_spec, parse_date, parse_date_spec, valid_date, weekday_number_from_monday,
    CalendarDate, DateParseError, iso_weekday,
};
use crate::numbers::{decimal_digits_exec, parse_i64, parse_int, NumberError};
use crate::order::{lex_le, lex_le_exec, lex_lt, lex_order};
use crate::seqs::{sort_stable, sorted_by};
use crate::text::{
    before_char, chars_eq, chars_of, decimal_digits, signed_pad2, string_from_chars, string_views, trim_str, trimmed,
};

verus! {

// ---------------------------------------------------------------------------
// Clock times
// ---------------------------------------------------------------------------

pub open spec fn i64_parse(s: Seq<char>) -> Option<int> {
    match parse_int(s, i64::MIN as int, i64::MAX as int) {
        Ok(v) => Some(v),
        Err(_) => None,
    }
}

/// Hours and minutes of `HH:MM` (split at the first colon).
pub open spec fn clock_parts(v: Seq<char>) -> Option<(int, int)> {
    let head = before_char(v, ':');
    if head.len() == v.len() {
        None
    } else {
        match (i64_parse(head), i64_parse(v.skip(head.len() + 1int))) {
            (Some(h), Some(m)) => Some((h, m)),
            _ => None,
        }
    }
}

/// Minutes since midnight of `HH:MM`.
pub open spec fn minutes_spec(v: Seq<char>) -> Option<int> {
    match clock_parts(v) {
        Some((h, m)) => Some(h * 60 + m),
        None => None,
    }
}

/// `hours * 60` and the sum fit in an `i64` (otherwise the computation overflows).
pub open spec fn minutes_fit(v: Seq<char>) -> bool {
    let head = before_char(v, ':');
    &&& (head.len() < v.len() && i64_parse(head) is Some) ==> (i64::MIN <= i64_parse(head)->0 * 60 <= i64::MAX)
    &&& (minutes_spec(v) matches Some(x) ==> i64::MIN <= x <= i64::MAX)
}

fn before_char_len(s: &[char], sep: char) -> (r: usize)
    ensures
        r == before_char(s@, sep).len(),
        r <= s.len(),
        s@.take(r as int) == before_char(s@, sep),
        r < s.len() ==> s@[r as int] == sep,
{
    let mut i: usize = 0;
    assert(s@.skip(0) =~= s@);
    while i < s.len()
        invariant
            i <= s.len(),
            before_char(s@, sep) == s@.take(i as int) + before_char(s@.skip(i as int), sep),
        decreases s.len() - i,
    {
        assert(s@.skip(i as int)[0] == s@[i as int]);
        assert(s@.skip(i as int).drop_first() =~= s@.skip(i + 1));
        if s[i] == sep {
            assert(s@.take(i as int) + Seq::<char>::empty() =~= s@.take(i as int));
            return i;
        }
        assert(s@.take(i as int) + before_char(s@.skip(i as int), sep) =~= s@.take(i + 1)
            + before_char(s@.skip(i + 1), sep));
        i += 1;
    }
    assert(s@.skip(i as int) =~= Seq::<char>::empty());
    assert(s@.take(i as int) + Seq::<char>::empty() =~= s@.take(i as int));
    i
}

/// Minutes since midnight of an `HH:MM` time; `None` when there is no colon or
/// either side is not an integer.
pub fn minutes_of_day(value: &str) -> (r: Option<i64>)
    requires
        minutes_fit(value@),
    ensures
        match r {
            Some(x) => minutes_spec(value@) == Some(x as int),
            None => minutes_spec(value@) is None,
        },
{
    let chars = chars_of(value);
    let k = before_char_len(&chars, ':');
    if k == chars.len() {
        return None;
    }
    let head = crate::numbers::slice_range(&chars, 0, k);
    let tail = crate::numbers::slice_from(&chars, k + 1);
    let h = match parse_i64(&head) {
        Ok(h) => h,
        Err(_) => return None,
    };
    let hm = h * 60;
    let m = match parse_i64(&tail) {
        Ok(m) => m,
        Err(_) => return None,
    };
    Some(hm + m)
}

/// Rust's truncating division and remainder by 60.
pub open spec fn trunc_div60(m: int) -> int {
    if m >= 0 {
        m / 60
    } else {
        -((-m) / 60)
    }
}

pub open spec fn trunc_rem60(m: int) -> int {
    m - 60 * trunc_div60(m)
}

/// `"{date}T{HH:02}:{MM:02}:00+08:00"` for `m` minutes past midnight.
pub open spec fn timepoint_text(date: Seq<char>, m: int) -> Seq<char> {
    date + seq!['T'] + signed_pad2(trunc_div60(m)) + seq![':'] + signed_pad2(trunc_rem60(m)) + ":00+08:00"@
}

/// The timepoints from `m` to `end` (inclusive) every `step` minutes.
pub open spec fn points_from(date: Seq<char>, m: int, end: int, step: int) -> Seq<Seq<char>>
    decreases end - m + step,
    when step > 0
{
    if m > end {
        Seq::empty()
    } else {
        seq![timepoint_text(date, m)] + points_from(date, m + step, end, step)
    }
}

/// What pushing one session's timepoints adds.
pub open spec fn session_points(date: Seq<char>, start_time: Seq<char>, end_time: Seq<char>, step: int) -> Seq<Seq<char>> {
    match (minutes_spec(start_time), minutes_spec(end_time)) {
        (Some(s), Some(e)) => points_from(date, s, e, step),
        _ => Seq::empty(),
    }
}

pub open spec fn session_ok(start_time: Seq<char>, end_time: Seq<char>, step: int) -> bool {
    &&& step > 0
    &&& minutes_fit(start_time)
    &&& minutes_fit(end_time)
    &&& (minutes_spec(start_time) is Some ==> (minutes_spec(end_time) matches Some(e) ==> e + step <= i64::MAX))
}

fn timepoint_exec(date: &[char], m: i64) -> (r: String)
    ensures
        r@ == timepoint_text(date@, m as int),
{
    let q: i64;
    let rem: i64;
    if m >= 0 {
        q = m / 60;
        rem = m % 60;
    } else {
        let a: u64 = if m == i64::MIN { 9223372036854775808u64 } else { (0 - m) as u64 };
        q = 0 - ((a / 60) as i64);
        rem = 0 - ((a % 60) as i64);
    }
    assert(q as int == trunc_div60(m as int));
    assert(rem as int == trunc_rem60(m as int));
    let mut out: Vec<char> = Vec::new();
    let mut i: usize = 0;
    while i < date.len()
        invariant
            i <= date.len(),
            out@ == date@.take(i as int),
        decreases date.len() - i,
    {
        out.push(date[i]);
        assert(out@ =~= date@.take(i + 1));
        i += 1;
    }
    assert(date@.take(date.len() as int) =~= date@);
    out.push('T');
    let mut hh = crate::numbers::signed_pad2_exec(q);
    out.append(&mut hh);
    out.push(':');
    let mut mm = crate::numbers::signed_pad2_exec(rem);
    out.append(&mut mm);
    let mut tail = chars_of(":00+08:00");
    out.append(&mut tail);
    assert(out@ =~= timepoint_text(date@, m as int));
    string_from_chars(&out)
}

/// Pushes `"{date}THH:MM:00+08:00"` for every `step_minutes` from the start
/// time to the end time inclusive; nothing when either time does not parse.
pub fn push_session_timepoints(
    output: &mut Vec<String>,
    date: &str,
    start_time: &str,
    end_time: &str,
    step_minutes: i64,
)
    requires
        session_ok(start_time@, end_time@, step_minutes as int),
    ensures
        string_views(final(output)@) == string_views(old(output)@) + session_points(date@, start_time@, end_time@, step_minutes as int),
{
    let ghost old_views = string_views(output@);
    let mut minutes = match minutes_of_day(start_time) {
        Some(m) => m,
        None => {
            assert(old_views + Seq::<Seq<char>>::empty() =~= old_views);
            return;
        },
    };
    let end = match minutes_of_day(end_time) {
        Some(e) => e,
        None => {
            assert(old_views + Seq::<Seq<char>>::empty() =~= old_views);
            return;
        },
    };
    let date_chars = chars_of(date);
    let ghost start = minutes as int;
    assert(string_views(output@) + points_from(date@, start, end as int, step_minutes as int) =~= old_views
        + points_from(date@, start, end as int, step_minutes as int));
    while minutes <= end
        invariant
            step_minutes > 0,
            end as int + step_minutes <= i64::MAX,
            date_chars@ == date@,
            string_views(output@) + points_from(date@, minutes as int, end as int, step_minutes as int)
                == old_views + points_from(date@, start, end as int, step_minutes as int),
        decreases end - minutes + step_minutes,
    {
        let tp = timepoint_exec(&date_chars, minutes);
        let ghost before = string_views(output@);
        output.push(tp);
        assert(string_views(output@) =~= before.push(timepoint_text(date@, minutes as int)));
        let ghost rest = points_from(date@, minutes + step_minutes, end as int, step_minutes as int);
        assert(points_from(date@, minutes as int, end as int, step_minutes as int) == seq![timepoint_text(date@, minutes as int)] + rest);
        assert(before + (seq![timepoint_text(date@, minutes as int)] + rest) =~= before.push(timepoint_text(date@, minutes as int)) + rest);
        minutes = minutes + step_minutes;
    }
    assert(string_views(output@) + Seq::<Seq<char>>::empty() =~= string_views(output@));
}

/// The session's closing timepoint, `"{date}T{end_time}:00+08:00"`.
pub open spec fn session_end_text(date: Seq<char>, end_time: Seq<char>) -> Seq<char> {
    date + seq!['T'] + end_time + ":00+08:00"@
}

/// What appending a session does to the output: its timepoints, then the
/// closing time unless the output already ends with it.
pub open spec fn append_session_spec(out: Seq<Seq<char>>, date: Seq<char>, start_time: Seq<char>, end_time: Seq<char>, step: int) -> Seq<Seq<char>> {
    let pushed = out + session_points(date, start_time, end_time, step);
    let close = session_end_text(date, end_time);
    if pushed.len() > 0 && pushed.last() == close {
        pushed
    } else {
        pushed.push(close)
    }
}

/// Pushes the session's timepoints and makes sure the output ends at the
/// session close.
pub fn append_session_timepoints(
    output: &mut Vec<String>,
    date: &str,
    start_time: &str,
    end_time: &str,
    step_minutes: i64,
)
    requires
        session_ok(start_time@, end_time@, step_minutes as int),
    ensures
        string_views(final(output)@) == append_session_spec(string_views(old(output)@), date@, start_time@, end_time@, step_minutes as int),
{
    push_session_timepoints(output, date, start_time, end_time, step_minutes);
    let mut close = chars_of(date);
    close.push('T');
    let mut et = chars_of(end_time);
    close.append(&mut et);
    let mut tail = chars_of(":00+08:00");
    close.append(&mut tail);
    assert(close@ =~= session_end_text(date@, end_time@));
    let n = output.len();
    let already = n > 0 && chars_eq(&chars_of(output[n - 1].as_str()), &close);
    if !already {
        output.push(string_from_chars(&close));
        assert(string_views(output@) =~= string_views(old(output)@) + session_points(date@, start_time@, end_time@, step_minutes as int)
            + seq![close@]);
    }
}

/// Appending a session keeps what was there and ends at the session close.
proof fn lemma_append_session(out: Seq<Seq<char>>, date: Seq<char>, start_time: Seq<char>, end_time: Seq<char>, step: int)
    ensures
        append_session_spec(out, date, start_time, end_time, step).len() > 0,
        append_session_spec(out, date, start_time, end_time, step).last() == session_end_text(date, end_time),
        append_session_spec(out, date, start_time, end_time, step).len() >= out.len(),
        append_session_spec(out, date, start_time, end_time, step).take(out.len() as int) == out,
{
    let pushed = out + session_points(date, start_time, end_time, step);
    assert(pushed.take(out.len() as int) =~= out);
    let close = session_end_text(date, end_time);
    if !(pushed.len() > 0 && pushed.last() == close) {
        assert(pushed.push(close).take(out.len() as int) =~= out);
    }
}

/// Each session of a trading day, whatever the sampling interval, ends at
/// its close: the day's timepoints include the morning close and end at the
/// afternoon close, after everything planned before.
pub proof fn law_trading_day_ends_at_closes(out: Seq<Seq<char>>, day: Seq<char>, step: int)
    ensures
        trading_day_block(out, day, step).contains(session_end_text(day, "11:30"@)),
        trading_day_block(out, day, step).last() == session_end_text(day, "15:00"@),
        trading_day_block(out, day, step).take(out.len() as int) == out,
{
    let a1 = append_session_spec(out, day, "09:30"@, "11:30"@, step);
    let a2 = append_session_spec(a1, day, "13:00"@, "15:00"@, step);
    lemma_append_session(out, day, "09:30"@, "11:30"@, step);
    lemma_append_session(a1, day, "13:00"@, "15:00"@, step);
    assert(a2.take(a1.len() as int)[a1.len() - 1] == a1.last());
    assert(a2[a1.len() - 1] == a1.last());
    assert(a2.take(out.len() as int) =~= a1.take(out.len() as int));
}

// ---------------------------------------------------------------------------
// Session timepoints over a date range
// ---------------------------------------------------------------------------

proof fn lemma_clock(v: Seq<char>, a: char, b: char, c: char, d: char)
    requires
        v == seq![a, b, ':', c, d],
        '0' <= a <= '9',
        '0' <= b <= '9',
        '0' <= c <= '9',
        '0' <= d <= '9',
    ensures
        minutes_spec(v) == Some(
            ((a as u32 - '0' as u32) * 10 + (b as u32 - '0' as u32)) * 60 + (c as u32 - '0' as u32) * 10 + (d as u32
                - '0' as u32),
        ),
        minutes_fit(v),
{
    reveal_with_fuel(before_char, 4);
    reveal_with_fuel(crate::numbers::digits_value, 3);
    let head = before_char(v, ':');
    assert(v.drop_first().drop_first() =~= seq![':', c, d]);
    assert(v.drop_first() =~= seq![b, ':', c, d]);
    assert(head =~= seq![a, b]);
    assert(v.skip(3) =~= seq![c, d]);
    assert(seq![a, b].drop_last() =~= seq![a]);
    assert(seq![a].drop_last() =~= Seq::<char>::empty());
    assert(seq![c, d].drop_last() =~= seq![c]);
    assert(seq![c].drop_last() =~= Seq::<char>::empty());
    assert(crate::numbers::all_digits(seq![a, b]));
    assert(crate::numbers::all_digits(seq![c, d]));
}

/// The clock times of the two A-share sessions parse as expected.
proof fn lemma_session_times()
    ensures
        minutes_spec("09:30"@) == Some(570int),
        minutes_spec("11:30"@) == Some(690int),
        minutes_spec("13:00"@) == Some(780int),
        minutes_spec("15:00"@) == Some(900int),
        minutes_fit("09:30"@),
        minutes_fit("11:30"@),
        minutes_fit("13:00"@),
        minutes_fit("15:00"@),
{
    reveal_strlit("09:30");
    reveal_strlit("11:30");
    reveal_strlit("13:00");
    reveal_strlit("15:00");
    assert("09:30"@ =~= seq!['0', '9', ':', '3', '0']);
    assert("11:30"@ =~= seq!['1', '1', ':', '3', '0']);
    assert("13:00"@ =~= seq!['1', '3', ':', '0', '0']);
    assert("15:00"@ =~= seq!['1', '5', ':', '0', '0']);
    lemma_clock("09:30"@, '0', '9', '3', '0');
    lemma_clock("11:30"@, '1', '1', '3', '0');
    lemma_clock("13:00"@, '1', '3', '0', '0');
    lemma_clock("15:00"@, '1', '5', '0', '0');
}

/// Decreases as the iteration over a date range advances.
pub open spec fn remaining_days_measure(d: CalendarDate, end: CalendarDate) -> int {
    if date_le(d, end) {
        date_ordinal(end) - date_ordinal(d) + 1
    } else {
        0
    }
}

/// The days from `d` to `end` inclusive, stopping after the last representable day.
pub open spec fn days_between(d: CalendarDate, end: CalendarDate) -> Seq<CalendarDate>
    decreases remaining_days_measure(d, end),
    when valid_date(d) && valid_date(end)
{
    if !date_le(d, end) {
        Seq::empty()
    } else {
        match next_day_spec(d) {
            None => seq![d],
            Some(n) => {
                proof {
                    lemma_next_day_valid(d);
                    lemma_date_le_ordinal(d, end);
                    lemma_date_le_ordinal(n, end);
                }
                seq![d] + days_between(n, end)
            },
        }
    }
}

/// The last representable day.
pub open spec fn max_date() -> CalendarDate {
    CalendarDate { year: 9999, month: 12, day: 31 }
}

/// Timepoints of one trading day appended to `out`: the morning then the afternoon session.
pub open spec fn trading_day_block(out: Seq<Seq<char>>, day: Seq<char>, step: int) -> Seq<Seq<char>> {
    append_session_spec(append_session_spec(out, day, "09:30"@, "11:30"@, step), day, "13:00"@, "15:00"@, step)
}

/// Timepoints of `days`, of which those flagged are trading days.
pub open spec fn timepoints_for(days: Seq<CalendarDate>, flags: Seq<bool>, step: int) -> Seq<Seq<char>>
    decreases days.len(),
{
    if days.len() == 0 || flags.len() != days.len() {
        Seq::empty()
    } else {
        let prev = timepoints_for(days.drop_last(), flags.drop_last(), step);
        if flags.last() {
            trading_day_block(prev, date_text(days.last()), step)
        } else {
            prev
        }
    }
}

/// The interval between sampled timepoints: at least five minutes.
pub open spec fn sampling_step(interval_minutes: u32) -> int {
    if interval_minutes < 5 {
        5
    } else {
        interval_minutes as int
    }
}

/// Why no timepoints could be planned.
#[derive(Clone, Copy, Debug, PartialEq, Eq)]
pub enum TimepointError {
    /// A bound of the range is not a date.
    Date(DateParseError),
    /// The range runs past the last representable day.
    RangeTooLarge,
}

/// Both bounds read as dates, or the first error.
pub open spec fn parsed_range(start: Seq<char>, end: Seq<char>) -> Result<(CalendarDate, CalendarDate), TimepointError> {
    match parse_date_spec(start) {
        Err(e) => Err(TimepointError::Date(e)),
        Ok(s) => match parse_date_spec(end) {
            Err(e) => Err(TimepointError::Date(e)),
            Ok(e) => if date_le(s, e) && e == max_date() {
                Err(TimepointError::RangeTooLarge)
            } else {
                Ok((s, e))
            },
        },
    }
}

/// The days of a valid range.
pub open spec fn planned_days(start: Seq<char>, end: Seq<char>) -> Seq<CalendarDate> {
    match parsed_range(start, end) {
        Ok(p) => days_between(p.0, p.1),
        Err(_) => Seq::empty(),
    }
}

/// The answers a trading-day test gives for `days`, in order.
pub open spec fn answers_of<F: Fn(CalendarDate) -> bool>(f: F, days: Seq<CalendarDate>, flags: Seq<bool>) -> bool {
    flags.len() == days.len() && forall|i: int| 0 <= i < days.len() ==> call_ensures(f, (days[i],), #[trigger] flags[i])
}

proof fn lemma_days_between_step(d: CalendarDate, n: CalendarDate, end: CalendarDate)
    requires
        valid_date(d),
        valid_date(end),
        date_le(d, end),
        next_day_spec(d) == Some(n),
    ensures
        days_between(d, end) == seq![d] + days_between(n, end),
        valid_date(n),
{
    lemma_next_day_valid(d);
}

/// The A-share session timepoints (09:30-11:30 and 13:00-15:00, every
/// `interval_minutes` but at least every five minutes, each session ending
/// at its close) of every day from `start_date` to `end_date` that
/// `is_trade_day_fn` reports as a trading day.
pub fn expected_timepoints_with_trade_day_filter<F: Fn(CalendarDate) -> bool>(
    start_date: &str,
    end_date: &str,
    interval_minutes: u32,
    is_trade_day_fn: F,
) -> (r: Result<Vec<String>, TimepointError>)
    requires
        forall|d: CalendarDate| valid_date(d) ==> call_requires(is_trade_day_fn, (d,)),
    ensures
        parsed_range(start_date@, end_date@) is Err ==> r == Err::<Vec<String>, TimepointError>(
            parsed_range(start_date@, end_date@)->Err_0,
        ),
        parsed_range(start_date@, end_date@) is Ok ==> r is Ok && exists|flags: Seq<bool>|
            answers_of(is_trade_day_fn, planned_days(start_date@, end_date@), flags) && string_views(r->Ok_0@)
                == timepoints_for(planned_days(start_date@, end_date@), flags, sampling_step(interval_minutes)),
{
    let start = match parse_date(start_date) {
        Ok(d) => d,
        Err(e) => return Err(TimepointError::Date(e)),
    };
    let end = match parse_date(end_date) {
        Ok(d) => d,
        Err(e) => return Err(TimepointError::Date(e)),
    };
    let step: i64 = if interval_minutes < 5 { 5 } else { interval_minutes as i64 };
    proof {
        lemma_session_times();
    }
    let mut date = start;
    let mut timepoints: Vec<String> = Vec::new();
    let ghost mut flags: Seq<bool> = Seq::empty();
    let ghost all_days = days_between(start, end);
    let ghost mut seen: Seq<CalendarDate> = Seq::empty();
    assert(all_days =~= seen + days_between(date, end));
    while date_le_exec(date, end)
        invariant
            valid_date(date),
            valid_date(end),
            valid_date(start),
            step as int == sampling_step(interval_minutes),
            all_days == days_between(start, end),
            all_days == seen + days_between(date, end),
            answers_of(is_trade_day_fn, seen, flags),
            string_views(timepoints@) == timepoints_for(seen, flags, step as int),
            forall|d: CalendarDate| valid_date(d) ==> call_requires(is_trade_day_fn, (d,)),
            minutes_spec("09:30"@) == Some(570int),
            minutes_spec("11:30"@) == Some(690int),
            minutes_spec("13:00"@) == Some(780int),
            minutes_spec("15:00"@) == Some(900int),
            minutes_fit("09:30"@),
            minutes_fit("11:30"@),
            minutes_fit("13:00"@),
            minutes_fit("15:00"@),
            date_le(start, date),
            parse_date_spec(start_date@) == Ok::<CalendarDate, DateParseError>(start),
            parse_date_spec(end_date@) == Ok::<CalendarDate, DateParseError>(end),
        decreases remaining_days_measure(date, end),
    {
        let trading = is_trade_day_fn(date);
        let ghost before = string_views(timepoints@);
        if trading {
            let ds = date_to_string(date);
            append_session_timepoints(&mut timepoints, ds.as_str(), "09:30", "11:30", step);
            append_session_timepoints(&mut timepoints, ds.as_str(), "13:00", "15:00", step);
        }
        proof {
            let seen2 = seen.push(date);
            let flags2 = flags.push(trading);
            assert(seen2.drop_last() =~= seen);
            assert(flags2.drop_last() =~= flags);
            assert(answers_of(is_trade_day_fn, seen2, flags2)) by {
                assert forall|i: int| 0 <= i < seen2.len() implies call_ensures(is_trade_day_fn, (seen2[i],), #[trigger] flags2[i]) by {
                    if i < seen.len() {
                        assert(seen2[i] == seen[i]);
                        assert(flags2[i] == flags[i]);
                    }
                }
            }
            assert(string_views(timepoints@) == timepoints_for(seen2, flags2, step as int));
            seen = seen2;
            flags = flags2;
        }
        match next_calendar_day(date) {
            Some(n) => {
                proof {
                    lemma_days_between_step(date, n, end);
                    assert(all_days =~= seen + days_between(n, end));
                    lemma_next_day_valid(date);
                    lemma_date_le_ordinal(date, end);
                    lemma_date_le_ordinal(n, end);
                }
                date = n;
            },
            None => {
                proof {
                    lemma_next_day_valid(date);
                    assert(date == max_date());
                    assert(end == max_date());
                    assert(parse_date_spec(start_date@) == Ok::<CalendarDate, DateParseError>(start));
                    assert(parse_date_spec(end_date@) == Ok::<CalendarDate, DateParseError>(end));
                }
                return Err(TimepointError::RangeTooLarge);
            },
        }
    }
    proof {
        assert(days_between(date, end) =~= Seq::<CalendarDate>::empty());
        assert(all_days =~= seen);
        assert(end != max_date());
        assert(parsed_range(start_date@, end_date@) == Ok::<(CalendarDate, CalendarDate), TimepointError>((start, end)));
        assert(answers_of(is_trade_day_fn, days_between(start, end), flags));
        assert(string_views(timepoints@) == timepoints_for(days_between(start, end), flags, sampling_step(interval_minutes)));
        assert(planned_days(start_date@, end_date@) == days_between(start, end));
    }
    Ok(timepoints)
}

// ---------------------------------------------------------------------------
// Trading days
// ---------------------------------------------------------------------------

/// Monday to Friday.
pub fn is_weekday(date: CalendarDate) -> (r: bool)
    requires
        valid_date(date),
    ensures
        r == (iso_weekday(date.year as int, date.month as int, date.day as int) <= 5),
{
    weekday_number_from_monday(date) <= 5
}

/// A day trades when the exchange calendar says so; when the calendar gave
/// no answer, weekdays trade.
pub fn trade_day_decision(calendar_answer: Option<bool>, date: CalendarDate) -> (r: bool)
    requires
        valid_date(date),
    ensures
        r == match calendar_answer {
            Some(b) => b,
            None => iso_weekday(date.year as int, date.month as int, date.day as int) <= 5,
        },
{
    match calendar_answer {
        Some(b) => b,
        None => is_weekday(date),
    }
}

pub open spec fn count_true(flags: Seq<bool>) -> nat
    decreases flags.len(),
{
    if flags.len() == 0 {
        0
    } else {
        count_true(flags.drop_last()) + if flags.last() { 1nat } else { 0nat }
    }
}

proof fn lemma_count_true_le(flags: Seq<bool>)
    ensures
        count_true(flags) <= flags.len(),
    decreases flags.len(),
{
    if flags.len() > 0 {
        lemma_count_true_le(flags.drop_last());
    }
}

/// The number of days from `start_date` to `end_date` that `is_trade_day_fn`
/// reports as trading days.
pub fn trading_day_count_with_filter<F: Fn(CalendarDate) -> bool>(
    start_date: &str,
    end_date: &str,
    is_trade_day_fn: F,
) -> (r: Result<u32, TimepointError>)
    requires
        forall|d: CalendarDate| valid_date(d) ==> call_requires(is_trade_day_fn, (d,)),
    ensures
        parsed_range(start_date@, end_date@) is Err ==> r == Err::<u32, TimepointError>(
            parsed_range(start_date@, end_date@)->Err_0,
        ),
        parsed_range(start_date@, end_date@) is Ok ==> r is Ok && exists|flags: Seq<bool>|
            answers_of(is_trade_day_fn, planned_days(start_date@, end_date@), flags) && r->Ok_0 as nat
                == count_true(flags),
{
    let start = match parse_date(start_date) {
        Ok(d) => d,
        Err(e) => return Err(TimepointError::Date(e)),
    };
    let end = match parse_date(end_date) {
        Ok(d) => d,
        Err(e) => return Err(TimepointError::Date(e)),
    };
    let mut date = start;
    let mut count: u32 = 0;
    let ghost mut flags: Seq<bool> = Seq::empty();
    let ghost all_days = days_between(start, end);
    let ghost mut seen: Seq<CalendarDate> = Seq::empty();
    assert(all_days =~= seen + days_between(date, end));
    while date_le_exec(date, end)
        invariant
            valid_date(date),
            valid_date(end),
            valid_date(start),
            all_days == days_between(start, end),
            all_days == seen + days_between(date, end),
            answers_of(is_trade_day_fn, seen, flags),
            count as nat == count_true(flags),
            seen.len() <= date_ordinal(date) - date_ordinal(start),
            forall|d: CalendarDate| valid_date(d) ==> call_requires(is_trade_day_fn, (d,)),
            date_le(start, date),
            parse_date_spec(start_date@) == Ok::<CalendarDate, DateParseError>(start),
            parse_date_spec(end_date@) == Ok::<CalendarDate, DateParseError>(end),
        decreases remaining_days_measure(date, end),
    {
        let trading = is_trade_day_fn(date);
        proof {
            lemma_count_true_le(flags);
        }
        if trading {
            count = count + 1;
        }
        proof {
            let seen2 = seen.push(date);
            let flags2 = flags.push(trading);
            assert(seen2.drop_last() =~= seen);
            assert(flags2.drop_last() =~= flags);
            assert(answers_of(is_trade_day_fn, seen2, flags2)) by {
                assert forall|i: int| 0 <= i < seen2.len() implies call_ensures(is_trade_day_fn, (seen2[i],), #[trigger] flags2[i]) by {
                    if i < seen.len() {
                        assert(seen2[i] == seen[i]);
                        assert(flags2[i] == flags[i]);
                    }
                }
            }
            seen = seen2;
            flags = flags2;
        }
        match next_calendar_day(date) {
            Some(n) => {
                proof {
                    lemma_days_between_step(date, n, end);
                    assert(all_days =~= seen + days_between(n, end));
                    lemma_next_day_valid(date);
                    lemma_date_le_ordinal(date, end);
                    lemma_date_le_ordinal(n, end);
                }
                date = n;
            },
            None => {
                proof {
                    lemma_next_day_valid(date);
                    assert(date == max_date());
                    assert(end == max_date());
                }
                return Err(TimepointError::RangeTooLarge);
            },
        }
    }
    proof {
        assert(days_between(date, end) =~= Seq::<CalendarDate>::empty());
        assert(all_days =~= seen);
        assert(end != max_date());
        assert(parsed_range(start_date@, end_date@) == Ok::<(CalendarDate, CalendarDate), TimepointError>((start, end)));
        assert(planned_days(start_date@, end_date@) == days_between(start, end));
    }
    Ok(count)
}

/// Market snapshots a backtest plans: one per session timepoint of each
/// trading day, for each symbol, as a 32-bit count (the low 32 bits of the
/// product).
pub fn planned_snapshot_count_with_filter<F: Fn(CalendarDate) -> bool>(
    start_date: &str,
    end_date: &str,
    interval_minutes: u32,
    symbol_count: usize,
    is_trade_day_fn: F,
) -> (r: Result<u32, TimepointError>)
    requires
        forall|d: CalendarDate| valid_date(d) ==> call_requires(is_trade_day_fn, (d,)),
    ensures
        parsed_range(start_date@, end_date@) is Err ==> r == Err::<u32, TimepointError>(
            parsed_range(start_date@, end_date@)->Err_0,
        ),
        parsed_range(start_date@, end_date@) is Ok ==> r is Ok && exists|flags: Seq<bool>|
            answers_of(is_trade_day_fn, planned_days(start_date@, end_date@), flags) && r->Ok_0
                == ((timepoints_for(planned_days(start_date@, end_date@), flags, sampling_step(interval_minutes)).len()
                * symbol_count) as u32),
{
    match expected_timepoints_with_trade_day_filter(start_date, end_date, interval_minutes, is_trade_day_fn) {
        Ok(points) => {
            let n = points.len();
            let ghost sv = string_views(points@);
            assert(sv.len() == n);
            assert((n as int) * (symbol_count as int) <= u128::MAX) by (nonlinear_arith)
                requires
                    n <= usize::MAX,
                    symbol_count <= usize::MAX,
                    usize::MAX <= u64::MAX,
            ;
            let product: u128 = n as u128 * symbol_count as u128;
            Ok(product as u32)
        },
        Err(e) => Err(e),
    }
}

/// Model calls a backtest needs: one per sampling slot of each trading day
/// (240 trading minutes divided by the sampling step, at least one slot),
/// one trading day assumed when the count is unknown; saturating at `u32::MAX`.
pub fn llm_call_estimate(trading_days: Option<u32>, interval_minutes: u32) -> (r: u32)
    ensures
        ({
            let days: int = match trading_days {
                Some(d) => d as int,
                None => 1,
            };
            let slots: int = if 240int / sampling_step(interval_minutes) < 1 {
                1
            } else {
                240int / sampling_step(interval_minutes)
            };
            r as int == if days * slots > u32::MAX as int { u32::MAX as int } else { days * slots }
        }),
{
    let days: u32 = match trading_days {
        Some(d) => d,
        None => 1,
    };
    let step: u32 = if interval_minutes < 5 { 5 } else { interval_minutes };
    let per_day = 240 / step;
    let slots: u32 = if per_day < 1 { 1 } else { per_day };
    assert(slots <= 240);
    assert((days as u64) * (slots as u64) <= 240 * (u32::MAX as u64)) by (nonlinear_arith)
        requires
            slots <= 240,
    ;
    let product: u64 = (days as u64) * (slots as u64);
    assert(product as int == days as int * slots as int) by (nonlinear_arith)
        requires
            product == (days as u64) * (slots as u64),
            slots <= 240,
    ;
    if product > u32::MAX as u64 {
        u32::MAX
    } else {
        product as u32
    }
}

// ---------------------------------------------------------------------------
// Bar times and sampling
// ---------------------------------------------------------------------------

/// Bytes `c` takes in UTF-8.
pub open spec fn utf8_len(c: char) -> int {
    if (c as u32) < 0x80 {
        1
    } else if (c as u32) < 0x800 {
        2
    } else if (c as u32) < 0x10000 {
        3
    } else {
        4
    }
}

/// Bytes `s` takes in UTF-8.
pub open spec fn byte_len(s: Seq<char>) -> int
    decreases s.len(),
{
    if s.len() == 0 {
        0
    } else {
        byte_len(s.drop_last()) + utf8_len(s.last())
    }
}

proof fn lemma_byte_len_bound(s: Seq<char>)
    ensures
        s.len() <= byte_len(s) <= 4 * s.len(),
    decreases s.len(),
{
    if s.len() > 0 {
        lemma_byte_len_bound(s.drop_last());
    }
}

/// Whether `s` takes at most `limit` bytes in UTF-8.
pub fn byte_len_at_most(s: &[char], limit: usize) -> (r: bool)
    ensures
        r == (byte_len(s@) <= limit),
{
    let mut total: usize = 0;
    let mut i: usize = 0;
    while i < s.len()
        invariant
            i <= s.len(),
            total as int == byte_len(s@.take(i as int)),
            total <= limit,
        decreases s.len() - i,
    {
        assert(s@.take(i + 1).drop_last() =~= s@.take(i as int));
        assert(s@.take(i + 1).last() == s@[i as int]);
        let w = utf8_len_exec(s[i]);
        if w > limit - total {
            proof {
                lemma_byte_len_prefix(s@, i + 1);
            }
            return false;
        }
        total = total + w;
        i += 1;
    }
    assert(s@.take(s.len() as int) =~= s@);
    true
}

proof fn lemma_byte_len_prefix(s: Seq<char>, i: int)
    requires
        0 <= i <= s.len(),
    ensures
        byte_len(s.take(i)) <= byte_len(s),
    decreases s.len() - i,
{
    if i < s.len() {
        lemma_byte_len_prefix(s, i + 1);
        assert(s.take(i + 1).drop_last() =~= s.take(i));
    } else {
        assert(s.take(i) =~= s);
    }
}

/// The character index at which byte offset `b` falls on a character boundary.
pub open spec fn boundary_index(s: Seq<char>, b: int) -> Option<int>
    decreases s.len(),
{
    if b == 0 {
        Some(0)
    } else if s.len() == 0 || b < 0 {
        None
    } else {
        match boundary_index(s.drop_first(), b - utf8_len(s[0])) {
            Some(k) => Some(k + 1),
            None => None,
        }
    }
}

/// `str::get(from..to)`: the characters between two byte offsets, when both
/// are character boundaries and in order.
pub open spec fn byte_slice(s: Seq<char>, from: int, to: int) -> Option<Seq<char>> {
    match (boundary_index(s, from), boundary_index(s, to)) {
        (Some(i), Some(j)) => if i <= j {
            Some(s.subrange(i, j))
        } else {
            None
        },
        _ => None,
    }
}

/// `value.get(from..to).unwrap_or("")`.
pub open spec fn byte_slice_or_empty(s: Seq<char>, from: int, to: int) -> Seq<char> {
    match byte_slice(s, from, to) {
        Some(t) => t,
        None => Seq::empty(),
    }
}

pub proof fn lemma_boundary_index_range(s: Seq<char>, b: int)
    ensures
        boundary_index(s, b) matches Some(k) ==> 0 <= k <= s.len(),
    decreases s.len(),
{
    if b != 0 && s.len() > 0 && b >= 0 {
        lemma_boundary_index_range(s.drop_first(), b - utf8_len(s[0]));
    }
}

fn utf8_len_exec(c: char) -> (r: usize)
    ensures
        r as int == utf8_len(c),
{
    let v = c as u32;
    if v < 0x80 {
        1
    } else if v < 0x800 {
        2
    } else if v < 0x10000 {
        3
    } else {
        4
    }
}

pub fn boundary_index_exec(s: &[char], b: usize) -> (r: Option<usize>)
    ensures
        match r {
            Some(k) => boundary_index(s@, b as int) == Some(k as int),
            None => boundary_index(s@, b as int) is None,
        },
{
    let mut i: usize = 0;
    let mut rem: usize = b;
    assert(s@.skip(0) =~= s@);
    while i < s.len() && rem > 0
        invariant
            i <= s.len(),
            rem <= b,
            boundary_index(s@, b as int) == match boundary_index(s@.skip(i as int), rem as int) {
                Some(k) => Some(k + i),
                None => None::<int>,
            },
        decreases s.len() - i,
    {
        assert(s@.skip(i as int)[0] == s@[i as int]);
        assert(s@.skip(i as int).drop_first() =~= s@.skip(i + 1));
        let w = utf8_len_exec(s[i]);
        if w > rem {
            assert(boundary_index(s@.skip(i + 1), rem - w) is None);
            return None;
        }
        rem = rem - w;
        i += 1;
    }
    if rem == 0 {
        Some(i)
    } else {
        None
    }
}

/// `value.get(from..to).unwrap_or("")` on characters.
pub fn byte_slice_or_empty_exec(s: &[char], from: usize, to: usize) -> (r: Vec<char>)
    ensures
        r@ == byte_slice_or_empty(s@, from as int, to as int),
{
    proof {
        lemma_boundary_index_range(s@, from as int);
        lemma_boundary_index_range(s@, to as int);
    }
    match (boundary_index_exec(s, from), boundary_index_exec(s, to)) {
        (Some(i), Some(j)) => if i <= j {
            crate::numbers::slice_range(s, i, j)
        } else {
            Vec::new()
        },
        _ => Vec::new(),
    }
}

/// `s` with every `from` character replaced by `to`.
pub open spec fn replace_char(s: Seq<char>, from: char, to: char) -> Seq<char> {
    s.map_values(|c: char| if c == from { to } else { c })
}

/// A bar time in RFC 3339 form: values already holding a `T` stay as they
/// are; `YYYY-MM-DD HH:MM:SS` becomes `YYYY-MM-DDTHH:MM:SS+08:00`.
pub open spec fn normalized_bar_time(v: Seq<char>) -> Seq<char> {
    if v.contains('T') {
        v
    } else {
        replace_char(v, ' ', 'T') + "+08:00"@
    }
}

fn normalize_bar_chars(v: &[char]) -> (r: Vec<char>)
    ensures
        r@ == normalized_bar_time(v@),
{
    let mut has_t = false;
    let mut i: usize = 0;
    while i < v.len()
        invariant
            i <= v.len(),
            has_t == exists|j: int| 0 <= j < i && v@[j] == 'T',
        decreases v.len() - i,
    {
        if v[i] == 'T' {
            has_t = true;
        }
        i += 1;
    }
    if has_t {
        proof {
            let j = choose|j: int| 0 <= j < v.len() && v@[j] == 'T';
            assert(v@.contains('T'));
        }
        return crate::numbers::slice_from(v, 0);
    }
    let mut out: Vec<char> = Vec::new();
    let mut k: usize = 0;
    while k < v.len()
        invariant
            k <= v.len(),
            out@ == replace_char(v@.take(k as int), ' ', 'T'),
        decreases v.len() - k,
    {
        let c = if v[k] == ' ' { 'T' } else { v[k] };
        out.push(c);
        assert(out@ =~= replace_char(v@.take(k + 1), ' ', 'T'));
        k += 1;
    }
    assert(v@.take(v.len() as int) =~= v@);
    let mut tail = chars_of("+08:00");
    out.append(&mut tail);
    out
}

/// See `normalized_bar_time`.
pub fn normalize_bar_time(value: &str) -> (r: String)
    ensures
        r@ == normalized_bar_time(value@),
{
    let v = chars_of(value);
    string_from_chars(&normalize_bar_chars(&v))
}

/// Whether the clock time (bytes 11 to 16 of a normalised bar time) lies in
/// a trading session, 09:30-11:30 or 13:00-15:00, bounds included.
pub open spec fn in_a_share_session(open_time: Seq<char>) -> bool {
    let t = byte_slice_or_empty(open_time, 11, 16);
    (lex_le("09:30"@, t) && lex_le(t, "11:30"@)) || (lex_le("13:00"@, t) && lex_le(t, "15:00"@))
}

fn in_session_chars(open_time: &[char]) -> (r: bool)
    ensures
        r == in_a_share_session(open_time@),
{
    let t = byte_slice_or_empty_exec(open_time, 11, 16);
    let a = chars_of("09:30");
    let b = chars_of("11:30");
    let c = chars_of("13:00");
    let d = chars_of("15:00");
    (lex_le_exec(&a, &t) && lex_le_exec(&t, &b)) || (lex_le_exec(&c, &t) && lex_le_exec(&t, &d))
}

/// See `in_a_share_session`.
pub fn is_a_share_session(open_time: &str) -> (r: bool)
    ensures
        r == in_a_share_session(open_time@),
{
    in_session_chars(&chars_of(open_time))
}

/// The first ten bytes (the date) of a time, or nothing.
pub open spec fn date_part(t: Seq<char>) -> Seq<char> {
    byte_slice_or_empty(t, 0, 10)
}

/// The bars inside the date window and a trading session, by index.
pub open spec fn window_indices(norms: Seq<Seq<char>>, start: Seq<char>, end: Seq<char>) -> Seq<int>
    decreases norms.len(),
{
    if norms.len() == 0 {
        Seq::empty()
    } else {
        let prev = window_indices(norms.drop_last(), start, end);
        let n = norms.last();
        let d = date_part(n);
        if lex_le(start, d) && lex_le(d, end) && in_a_share_session(n) {
            prev.push(norms.len() - 1)
        } else {
            prev
        }
    }
}

/// A bar at or before the target on the target's day, after the last pick.
pub open spec fn at_or_before(n: Seq<char>, target: Seq<char>, last: Seq<char>) -> bool {
    date_part(n) == date_part(target) && lex_le(n, target) && lex_lt(last, n)
}

/// A bar at or after the target on the target's day, after the last pick.
pub open spec fn at_or_after(n: Seq<char>, target: Seq<char>, last: Seq<char>) -> bool {
    date_part(n) == date_part(target) && lex_le(target, n) && lex_lt(last, n)
}

/// The last index in `idx` whose bar qualifies as at-or-before.
pub open spec fn last_before(idx: Seq<int>, norms: Seq<Seq<char>>, target: Seq<char>, last: Seq<char>) -> Option<int>
    decreases idx.len(),
{
    if idx.len() == 0 {
        None
    } else if at_or_before(norms[idx.last()], target, last) {
        Some(idx.last())
    } else {
        last_before(idx.drop_last(), norms, target, last)
    }
}

/// The first index in `idx` whose bar qualifies as at-or-after.
pub open spec fn first_after(idx: Seq<int>, norms: Seq<Seq<char>>, target: Seq<char>, last: Seq<char>) -> Option<int>
    decreases idx.len(),
{
    if idx.len() == 0 {
        None
    } else if at_or_after(norms[idx[0]], target, last) {
        Some(idx[0])
    } else {
        first_after(idx.drop_first(), norms, target, last)
    }
}

pub open spec fn pick_bar(idx: Seq<int>, norms: Seq<Seq<char>>, target: Seq<char>, last: Seq<char>) -> Option<int> {
    match last_before(idx, norms, target, last) {
        Some(k) => Some(k),
        None => first_after(idx, norms, target, last),
    }
}

/// For each target in turn, the picked bar (the latest at-or-before bar of
/// that day, else the earliest at-or-after one), always later than the
/// previous pick; targets without a bar are skipped.
pub open spec fn sample_plan(idx: Seq<int>, norms: Seq<Seq<char>>, targets: Seq<Seq<char>>, last: Seq<char>) -> Seq<(Seq<char>, int)>
    decreases targets.len(),
{
    if targets.len() == 0 {
        Seq::empty()
    } else {
        let t = targets[0];
        match pick_bar(idx, norms, t, last) {
            Some(k) => seq![(t, k)] + sample_plan(idx, norms, targets.drop_first(), norms[k]),
            None => sample_plan(idx, norms, targets.drop_first(), last),
        }
    }
}

proof fn lemma_last_before(idx: Seq<int>, norms: Seq<Seq<char>>, target: Seq<char>, last: Seq<char>)
    ensures
        last_before(idx, norms, target, last) matches Some(k) ==> at_or_before(norms[k], target, last),
    decreases idx.len(),
{
    if idx.len() > 0 {
        lemma_last_before(idx.drop_last(), norms, target, last);
    }
}

proof fn lemma_first_after(idx: Seq<int>, norms: Seq<Seq<char>>, target: Seq<char>, last: Seq<char>)
    ensures
        first_after(idx, norms, target, last) matches Some(k) ==> at_or_after(norms[k], target, last),
    decreases idx.len(),
{
    if idx.len() > 0 {
        lemma_first_after(idx.drop_first(), norms, target, last);
    }
}

/// The bars inside the window are listed in time order, each once, and
/// each is a bar of the input.
pub proof fn law_window_indices_in_order(norms: Seq<Seq<char>>, start: Seq<char>, end: Seq<char>)
    ensures
        forall|a: int, b: int|
            0 <= a < b < window_indices(norms, start, end).len() ==> window_indices(norms, start, end)[a]
                < window_indices(norms, start, end)[b],
        forall|a: int|
            0 <= a < window_indices(norms, start, end).len() ==> 0 <= #[trigger] window_indices(norms, start, end)[a]
                < norms.len(),
    decreases norms.len(),
{
    if norms.len() > 0 {
        let prev = window_indices(norms.drop_last(), start, end);
        law_window_indices_in_order(norms.drop_last(), start, end);
        let w = window_indices(norms, start, end);
        if w.len() != prev.len() {
            assert(w == prev.push(norms.len() - 1));
            assert forall|a: int, b: int| 0 <= a < b < w.len() implies w[a] < w[b] by {
                if b == w.len() - 1 {
                    assert(w[a] == prev[a]);
                } else {
                    assert(w[a] == prev[a] && w[b] == prev[b]);
                }
            }
            assert forall|a: int| 0 <= a < w.len() implies 0 <= #[trigger] w[a] < norms.len() by {
                if a < prev.len() {
                    assert(w[a] == prev[a]);
                }
            }
        }
    }
}

proof fn lemma_last_before_latest(idx: Seq<int>, norms: Seq<Seq<char>>, target: Seq<char>, last: Seq<char>)
    requires
        forall|a: int, b: int| 0 <= a < b < idx.len() ==> idx[a] < idx[b],
    ensures
        (exists|p: int| 0 <= p < idx.len() && at_or_before(norms[idx[p]], target, last)) ==> (
        last_before(idx, norms, target, last) matches Some(k) && idx.contains(k) && at_or_before(norms[k], target, last)
            && forall|p: int| 0 <= p < idx.len() && at_or_before(norms[idx[p]], target, last) ==> idx[p] <= k),
        (forall|p: int| 0 <= p < idx.len() ==> !at_or_before(norms[idx[p]], target, last)) ==> last_before(
            idx,
            norms,
            target,
            last,
        ) is None,
    decreases idx.len(),
{
    if idx.len() > 0 {
        let t = idx.drop_last();
        lemma_last_before_latest(t, norms, target, last);
        let n = idx.len() - 1;
        if at_or_before(norms[idx[n]], target, last) {
            assert(idx.contains(idx[n]));
            assert forall|p: int| 0 <= p < idx.len() && at_or_before(norms[idx[p]], target, last) implies idx[p] <= idx[n] by {
            }
        } else {
            if exists|p: int| 0 <= p < idx.len() && at_or_before(norms[idx[p]], target, last) {
                let p = choose|p: int| 0 <= p < idx.len() && at_or_before(norms[idx[p]], target, last);
                assert(p < n);
                assert(t[p] == idx[p]);
                let k = last_before(t, norms, target, last)->Some_0;
                assert(t.contains(k));
                let q = choose|q: int| 0 <= q < t.len() && t[q] == k;
                assert(idx[q] == k);
                assert forall|p2: int| 0 <= p2 < idx.len() && at_or_before(norms[idx[p2]], target, last) implies idx[p2] <= k by {
                    assert(p2 < n);
                    assert(t[p2] == idx[p2]);
                }
            } else {
                assert forall|p: int| 0 <= p < t.len() implies !at_or_before(norms[t[p]], target, last) by {
                    assert(t[p] == idx[p]);
                }
            }
        }
    }
}

proof fn lemma_first_after_earliest(idx: Seq<int>, norms: Seq<Seq<char>>, target: Seq<char>, last: Seq<char>)
    requires
        forall|a: int, b: int| 0 <= a < b < idx.len() ==> idx[a] < idx[b],
    ensures
        (exists|p: int| 0 <= p < idx.len() && at_or_after(norms[idx[p]], target, last)) ==> (
        first_after(idx, norms, target, last) matches Some(k) && idx.contains(k) && at_or_after(norms[k], target, last)
            && forall|p: int| 0 <= p < idx.len() && at_or_after(norms[idx[p]], target, last) ==> k <= idx[p]),
        (forall|p: int| 0 <= p < idx.len() ==> !at_or_after(norms[idx[p]], target, last)) ==> first_after(
            idx,
            norms,
            target,
            last,
        ) is None,
    decreases idx.len(),
{
    if idx.len() > 0 {
        let t = idx.drop_first();
        lemma_first_after_earliest(t, norms, target, last);
        if at_or_after(norms[idx[0]], target, last) {
            assert(idx.contains(idx[0]));
            assert forall|p: int| 0 <= p < idx.len() && at_or_after(norms[idx[p]], target, last) implies idx[0] <= idx[p] by {
            }
        } else {
            if exists|p: int| 0 <= p < idx.len() && at_or_after(norms[idx[p]], target, last) {
                let p = choose|p: int| 0 <= p < idx.len() && at_or_after(norms[idx[p]], target, last);
                assert(p > 0);
                assert(t[p - 1] == idx[p]);
                let k = first_after(t, norms, target, last)->Some_0;
                assert(t.contains(k));
                let q = choose|q: int| 0 <= q < t.len() && t[q] == k;
                assert(idx[q + 1] == k);
                assert forall|p2: int| 0 <= p2 < idx.len() && at_or_after(norms[idx[p2]], target, last) implies k <= idx[p2] by {
                    assert(p2 > 0);
                    assert(t[p2 - 1] == idx[p2]);
                }
            } else {
                assert forall|p: int| 0 <= p < t.len() implies !at_or_after(norms[t[p]], target, last) by {
                    assert(t[p] == idx[p + 1]);
                }
            }
        }
    }
}

/// No look-ahead in sampling. Among the candidate bars `idx` (in time order),
/// when some bar lies on the target's day, at or before the target and after
/// the previous pick, the bar picked for the target is such a bar, and the
/// latest of them. Only when there is none is a later bar of that day taken:
/// the earliest one at or after the target and after the previous pick.
/// When neither exists, no bar is picked.
pub proof fn law_sample_takes_latest_bar_not_after_target(
    idx: Seq<int>,
    norms: Seq<Seq<char>>,
    target: Seq<char>,
    last: Seq<char>,
)
    requires
        forall|a: int, b: int| 0 <= a < b < idx.len() ==> idx[a] < idx[b],
    ensures
        (exists|p: int|
            0 <= p < idx.len() && date_part(norms[idx[p]]) == date_part(target) && lex_le(norms[idx[p]], target)
                && lex_lt(last, norms[idx[p]])) ==> (pick_bar(idx, norms, target, last) matches Some(k)
            && idx.contains(k) && date_part(norms[k]) == date_part(target) && lex_le(norms[k], target) && lex_lt(
            last,
            norms[k],
        ) && forall|p: int|
            0 <= p < idx.len() && date_part(norms[idx[p]]) == date_part(target) && lex_le(norms[idx[p]], target)
                && lex_lt(last, norms[idx[p]]) ==> idx[p] <= k),
        (forall|p: int|
            0 <= p < idx.len() ==> !(date_part(norms[idx[p]]) == date_part(target) && lex_le(norms[idx[p]], target)
                && lex_lt(last, norms[idx[p]]))) ==> (match pick_bar(idx, norms, target, last) {
            Some(k) => idx.contains(k) && date_part(norms[k]) == date_part(target) && lex_le(target, norms[k])
                && lex_lt(last, norms[k]) && forall|p: int|
                0 <= p < idx.len() && date_part(norms[idx[p]]) == date_part(target) && lex_le(target, norms[idx[p]])
                    && lex_lt(last, norms[idx[p]]) ==> k <= idx[p],
            None => forall|p: int|
                0 <= p < idx.len() ==> !(date_part(norms[idx[p]]) == date_part(target) && lex_le(
                    target,
                    norms[idx[p]],
                ) && lex_lt(last, norms[idx[p]])),
        }),
{
    lemma_last_before_latest(idx, norms, target, last);
    lemma_first_after_earliest(idx, norms, target, last);
}

proof fn lemma_lex_lt_trans(a: Seq<char>, b: Seq<char>, c: Seq<char>)
    requires
        lex_lt(a, b),
        lex_lt(b, c),
    ensures
        lex_lt(a, c),
{
    crate::order::lemma_lex_trans(a, b, c);
    if a == c {
        crate::order::lemma_lex_antisym(a, b);
    }
}

/// Every sampled bar lies on its timepoint's day and after the bar sampled
/// before it, so a bar is never used twice nor carried into another day;
/// each sample is made at one of the target timepoints.
pub proof fn law_samples_stay_on_their_day(idx: Seq<int>, norms: Seq<Seq<char>>, targets: Seq<Seq<char>>, last: Seq<char>)
    ensures
        forall|i: int| #![trigger sample_plan(idx, norms, targets, last)[i]]
            0 <= i < sample_plan(idx, norms, targets, last).len() ==> {
                let p = sample_plan(idx, norms, targets, last)[i];
                &&& date_part(norms[p.1]) == date_part(p.0)
                &&& targets.contains(p.0)
                &&& lex_lt(last, norms[p.1])
            },
        forall|i: int, j: int| 0 <= i < j < sample_plan(idx, norms, targets, last).len() ==>
            lex_lt(norms[sample_plan(idx, norms, targets, last)[i].1], norms[sample_plan(idx, norms, targets, last)[j].1]),
    decreases targets.len(),
{
    if targets.len() > 0 {
        let t = targets[0];
        let rest = targets.drop_first();
        lemma_last_before(idx, norms, t, last);
        lemma_first_after(idx, norms, t, last);
        let plan = sample_plan(idx, norms, targets, last);
        match pick_bar(idx, norms, t, last) {
            Some(k) => {
                law_samples_stay_on_their_day(idx, norms, rest, norms[k]);
                let tail = sample_plan(idx, norms, rest, norms[k]);
                assert(plan == seq![(t, k)] + tail);
                assert forall|i: int| #![trigger plan[i]] 0 <= i < plan.len() implies {
                    let p = plan[i];
                    &&& date_part(norms[p.1]) == date_part(p.0)
                    &&& targets.contains(p.0)
                    &&& lex_lt(last, norms[p.1])
                } by {
                    if i == 0 {
                        assert(plan[0] == (t, k));
                        assert(targets[0] == t);
                    } else {
                        assert(plan[i] == tail[i - 1]);
                        let p = tail[i - 1];
                        assert(rest.contains(p.0));
                        let m = choose|m: int| 0 <= m < rest.len() && rest[m] == p.0;
                        assert(targets[m + 1] == p.0);
                        lemma_lex_lt_trans(last, norms[k], norms[p.1]);
                    }
                }
                assert forall|i: int, j: int| 0 <= i < j < plan.len() implies lex_lt(norms[plan[i].1], norms[plan[j].1]) by {
                    assert(plan[j] == tail[j - 1]);
                    if i == 0 {
                        assert(plan[0] == (t, k));
                    } else {
                        assert(plan[i] == tail[i - 1]);
                    }
                }
            },
            None => {
                law_samples_stay_on_their_day(idx, norms, rest, last);
                let tail = sample_plan(idx, norms, rest, last);
                assert forall|i: int| #![trigger plan[i]] 0 <= i < plan.len() implies targets.contains(plan[i].0) by {
                    let p = tail[i];
                    assert(rest.contains(p.0));
                    let m = choose|m: int| 0 <= m < rest.len() && rest[m] == p.0;
                    assert(targets[m + 1] == p.0);
                }
            },
        }
    }
}

pub open spec fn normalized_all(times: Seq<Seq<char>>) -> Seq<Seq<char>> {
    times.map_values(|t: Seq<char>| normalized_bar_time(t))
}

/// A bar picked for a timepoint.
#[derive(Debug, PartialEq, Eq)]
pub struct SampledBar {
    pub captured_at: String,
    pub bar_index: usize,
}

impl View for SampledBar {
    type V = (Seq<char>, int);

    open spec fn view(&self) -> (Seq<char>, int) {
        (self.captured_at@, self.bar_index as int)
    }
}

pub open spec fn sample_views(v: Seq<SampledBar>) -> Seq<(Seq<char>, int)> {
    v.map_values(|b: SampledBar| b@)
}

fn lex_lt_exec(a: &[char], b: &[char]) -> (r: bool)
    ensures
        r == lex_lt(a@, b@),
{
    lex_le_exec(a, b) && !chars_eq(a, b)
}

fn last_before_exec(idx: &Vec<usize>, norms: &Vec<Vec<char>>, dates: &Vec<Vec<char>>, target: &[char], target_date: &[char], last: &[char]) -> (r: Option<usize>)
    requires
        forall|i: int| 0 <= i < idx.len() ==> idx@[i] < norms.len(),
        dates.len() == norms.len(),
        forall|i: int| 0 <= i < norms.len() ==> dates@[i]@ == date_part(#[trigger] norms@[i]@),
        target_date@ == date_part(target@),
    ensures
        match r {
            Some(k) => last_before(idx@.map_values(|i: usize| i as int), norms@.map_values(|v: Vec<char>| v@), target@, last@) == Some(k as int),
            None => last_before(idx@.map_values(|i: usize| i as int), norms@.map_values(|v: Vec<char>| v@), target@, last@) is None,
        },
        r matches Some(k) ==> k < norms.len(),
{
    let ghost iv = idx@.map_values(|i: usize| i as int);
    let ghost nv = norms@.map_values(|v: Vec<char>| v@);
    let mut n = idx.len();
    assert(iv.take(n as int) =~= iv);
    while n > 0
        invariant
            n <= idx.len(),
            iv == idx@.map_values(|i: usize| i as int),
            nv == norms@.map_values(|v: Vec<char>| v@),
            forall|i: int| 0 <= i < idx.len() ==> idx@[i] < norms.len(),
            dates.len() == norms.len(),
            forall|i: int| 0 <= i < norms.len() ==> dates@[i]@ == date_part(#[trigger] norms@[i]@),
            target_date@ == date_part(target@),
            last_before(iv, nv, target@, last@) == last_before(iv.take(n as int), nv, target@, last@),
        decreases n,
    {
        let k = idx[n - 1];
        assert(iv.take(n as int).last() == k as int);
        assert(iv.take(n as int).drop_last() =~= iv.take(n - 1));
        assert(nv[k as int] == norms@[k as int]@);
        let ok = chars_eq(&dates[k], target_date) && lex_le_exec(&norms[k], target) && lex_lt_exec(last, &norms[k]);
        if ok {
            return Some(k);
        }
        n -= 1;
    }
    None
}

fn first_after_exec(idx: &Vec<usize>, norms: &Vec<Vec<char>>, dates: &Vec<Vec<char>>, target: &[char], target_date: &[char], last: &[char]) -> (r: Option<usize>)
    requires
        forall|i: int| 0 <= i < idx.len() ==> idx@[i] < norms.len(),
        dates.len() == norms.len(),
        forall|i: int| 0 <= i < norms.len() ==> dates@[i]@ == date_part(#[trigger] norms@[i]@),
        target_date@ == date_part(target@),
    ensures
        match r {
            Some(k) => first_after(idx@.map_values(|i: usize| i as int), norms@.map_values(|v: Vec<char>| v@), target@, last@) == Some(k as int),
            None => first_after(idx@.map_values(|i: usize| i as int), norms@.map_values(|v: Vec<char>| v@), target@, last@) is None,
        },
        r matches Some(k) ==> k < norms.len(),
{
    let ghost iv = idx@.map_values(|i: usize| i as int);
    let ghost nv = norms@.map_values(|v: Vec<char>| v@);
    let mut n: usize = 0;
    assert(iv.skip(0) =~= iv);
    while n < idx.len()
        invariant
            n <= idx.len(),
            iv == idx@.map_values(|i: usize| i as int),
            nv == norms@.map_values(|v: Vec<char>| v@),
            forall|i: int| 0 <= i < idx.len() ==> idx@[i] < norms.len(),
            dates.len() == norms.len(),
            forall|i: int| 0 <= i < norms.len() ==> dates@[i]@ == date_part(#[trigger] norms@[i]@),
            target_date@ == date_part(target@),
            first_after(iv, nv, target@, last@) == first_after(iv.skip(n as int), nv, target@, last@),
        decreases idx.len() - n,
    {
        let k = idx[n];
        assert(iv.skip(n as int)[0] == k as int);
        assert(iv.skip(n as int).drop_first() =~= iv.skip(n + 1));
        assert(nv[k as int] == norms@[k as int]@);
        let ok = chars_eq(&dates[k], target_date) && lex_le_exec(target, &norms[k]) && lex_lt_exec(last, &norms[k]);
        if ok {
            return Some(k);
        }
        n += 1;
    }
    None
}

/// The bars sampled at the session timepoints of the trading days from
/// `start_date` to `end_date` (no timepoints when the dates do not read),
/// the days told by `is_trade_day_fn`; see `sampled_bars_with_targets`.
pub fn sampled_bars<F: Fn(CalendarDate) -> bool>(
    bar_times: &[String],
    start_date: &str,
    end_date: &str,
    interval_minutes: u32,
    is_trade_day_fn: F,
) -> (r: Vec<SampledBar>)
    requires
        forall|d: CalendarDate| valid_date(d) ==> call_requires(is_trade_day_fn, (d,)),
    ensures
        ({
            let norms = normalized_all(string_views(bar_times@));
            let window = window_indices(norms, start_date@, end_date@);
            &&& parsed_range(start_date@, end_date@) is Err ==> sample_views(r@) == sample_plan(
                window,
                norms,
                Seq::empty(),
                Seq::empty(),
            )
            &&& parsed_range(start_date@, end_date@) is Ok ==> exists|flags: Seq<bool>|
                answers_of(is_trade_day_fn, planned_days(start_date@, end_date@), flags) && sample_views(r@)
                    == sample_plan(
                    window,
                    norms,
                    timepoints_for(planned_days(start_date@, end_date@), flags, sampling_step(interval_minutes)),
                    Seq::empty(),
                )
        }),
{
    let targets = match expected_timepoints_with_trade_day_filter(start_date, end_date, interval_minutes, is_trade_day_fn) {
        Ok(t) => t,
        Err(_) => Vec::new(),
    };
    proof {
        if targets@.len() == 0 {
            assert(string_views(targets@) =~= Seq::<Seq<char>>::empty());
        }
    }
    sampled_bars_with_targets(bar_times, start_date, end_date, &targets)
}

/// Picks, for each target timepoint, the bar sampled at it (see `sample_plan`)
/// among the bars whose date lies in `[start_date, end_date]` and whose time
/// lies in a session; bars are named by their index in `bar_times`.
pub fn sampled_bars_with_targets(
    bar_times: &[String],
    start_date: &str,
    end_date: &str,
    targets: &[String],
) -> (r: Vec<SampledBar>)
    ensures
        ({
            let norms = normalized_all(string_views(bar_times@));
            sample_views(r@) == sample_plan(
                window_indices(norms, start_date@, end_date@),
                norms,
                string_views(targets@),
                Seq::empty(),
            )
        }),
{
    let ghost nv_spec = normalized_all(string_views(bar_times@));
    let start = chars_of(start_date);
    let end = chars_of(end_date);
    let mut norms: Vec<Vec<char>> = Vec::new();
    let mut dates: Vec<Vec<char>> = Vec::new();
    let mut idx: Vec<usize> = Vec::new();
    let mut i: usize = 0;
    while i < bar_times.len()
        invariant
            i <= bar_times.len(),
            start@ == start_date@,
            end@ == end_date@,
            nv_spec == normalized_all(string_views(bar_times@)),
            norms.len() == i,
            dates.len() == i,
            norms@.map_values(|v: Vec<char>| v@) == nv_spec.take(i as int),
            forall|j: int| 0 <= j < i ==> dates@[j]@ == date_part(#[trigger] norms@[j]@),
            forall|j: int| 0 <= j < idx.len() ==> idx@[j] < i,
            idx@.map_values(|x: usize| x as int) == window_indices(nv_spec.take(i as int), start_date@, end_date@),
        decreases bar_times.len() - i,
    {
        let n = normalize_bar_chars(&chars_of(bar_times[i].as_str()));
        let d = byte_slice_or_empty_exec(&n, 0, 10);
        let keep = lex_le_exec(&start, &d) && lex_le_exec(&d, &end) && in_session_chars(&n);
        proof {
            assert(nv_spec[i as int] == n@);
            assert(nv_spec.take(i + 1).drop_last() =~= nv_spec.take(i as int));
            assert(nv_spec.take(i + 1).last() == n@);
        }
        let ghost old_idx = idx@.map_values(|x: usize| x as int);
        if keep {
            idx.push(i);
            assert(idx@.map_values(|x: usize| x as int) =~= old_idx.push(i as int));
        }
        let ghost old_norms = norms@.map_values(|v: Vec<char>| v@);
        norms.push(n);
        dates.push(d);
        assert(norms@.map_values(|v: Vec<char>| v@) =~= old_norms.push(nv_spec[i as int]));
        assert(nv_spec.take(i + 1) =~= nv_spec.take(i as int).push(nv_spec[i as int]));
        i += 1;
    }
    assert(nv_spec.take(bar_times.len() as int) =~= nv_spec);
    let ghost iv = idx@.map_values(|x: usize| x as int);
    let ghost nv = norms@.map_values(|v: Vec<char>| v@);
    assert(nv == nv_spec);
    let ghost tv = string_views(targets@);
    let mut out: Vec<SampledBar> = Vec::new();
    let mut last: Vec<char> = Vec::new();
    let mut t: usize = 0;
    assert(tv.skip(0) =~= tv);
    assert(Seq::<(Seq<char>, int)>::empty() + sample_plan(iv, nv, tv, Seq::empty()) =~= sample_plan(iv, nv, tv, Seq::empty()));
    while t < targets.len()
        invariant
            t <= targets.len(),
            tv == string_views(targets@),
            iv == idx@.map_values(|x: usize| x as int),
            nv == norms@.map_values(|v: Vec<char>| v@),
            forall|j: int| 0 <= j < idx.len() ==> idx@[j] < norms.len(),
            dates.len() == norms.len(),
            forall|j: int| 0 <= j < norms.len() ==> dates@[j]@ == date_part(#[trigger] norms@[j]@),
            sample_views(out@) + sample_plan(iv, nv, tv.skip(t as int), last@) == sample_plan(iv, nv, tv, Seq::empty()),
        decreases targets.len() - t,
    {
        let target = chars_of(targets[t].as_str());
        let target_date = byte_slice_or_empty_exec(&target, 0, 10);
        assert(tv.skip(t as int)[0] == target@);
        assert(tv.skip(t as int).drop_first() =~= tv.skip(t + 1));
        let picked = match last_before_exec(&idx, &norms, &dates, &target, &target_date, &last) {
            Some(k) => Some(k),
            None => first_after_exec(&idx, &norms, &dates, &target, &target_date, &last),
        };
        match picked {
            Some(k) => {
                let ghost before = sample_views(out@);
                let ghost rest = sample_plan(iv, nv, tv.skip(t + 1), nv[k as int]);
                out.push(SampledBar { captured_at: targets[t].clone(), bar_index: k });
                assert(sample_views(out@) =~= before.push((target@, k as int)));
                assert(before + (seq![(target@, k as int)] + rest) =~= before.push((target@, k as int)) + rest);
                last = crate::numbers::slice_from(&norms[k], 0);
                assert(last@ =~= nv[k as int]);
            },
            None => {},
        }
        t += 1;
    }
    assert(tv.skip(targets.len() as int) =~= Seq::<Seq<char>>::empty());
    assert(sample_views(out@) + Seq::<(Seq<char>, int)>::empty() =~= sample_views(out@));
    out
}


// ---------------------------------------------------------------------------
// Model context of a snapshot
// ---------------------------------------------------------------------------

/// The chart intervals the model may be shown.
pub open spec fn allowed_kline_frequencies() -> Seq<Seq<char>> {
    seq!["1m"@, "5m"@, "30m"@, "1h"@, "1d"@, "1w"@, "1M"@]
}

/// The requested intervals that are allowed, each once, in request order.
pub open spec fn allowed_requested(requested: Seq<Seq<char>>) -> Seq<Seq<char>>
    decreases requested.len(),
{
    if requested.len() == 0 {
        requested
    } else {
        let prev = allowed_requested(requested.drop_last());
        let f = requested.last();
        if allowed_kline_frequencies().contains(f) && !prev.contains(f) {
            prev.push(f)
        } else {
            prev
        }
    }
}

/// The intervals a backtest shows the model: the allowed requested ones,
/// or `defaults` when none is left.
pub open spec fn kline_frequencies_spec(requested: Seq<Seq<char>>, defaults: Seq<Seq<char>>) -> Seq<Seq<char>> {
    if allowed_requested(requested).len() == 0 {
        defaults
    } else {
        allowed_requested(requested)
    }
}

/// Unless the defaults are used, the model is shown allowed intervals only,
/// each once, and every allowed requested interval.
pub proof fn law_requested_intervals(requested: Seq<Seq<char>>)
    ensures
        allowed_requested(requested).no_duplicates(),
        forall|f: Seq<char>| allowed_requested(requested).contains(f)
            <==> (requested.contains(f) && allowed_kline_frequencies().contains(f)),
    decreases requested.len(),
{
    if requested.len() > 0 {
        let t = requested.drop_last();
        law_requested_intervals(t);
        let prev = allowed_requested(t);
        let f = requested.last();
        let cur = allowed_requested(requested);
        assert forall|g: Seq<char>| cur.contains(g) <==> (requested.contains(g) && allowed_kline_frequencies().contains(g)) by {
            if requested.contains(g) {
                let k = choose|k: int| 0 <= k < requested.len() && requested[k] == g;
                if k < t.len() {
                    assert(t[k] == g);
                }
            }
            if t.contains(g) {
                let k = choose|k: int| 0 <= k < t.len() && t[k] == g;
                assert(requested[k] == g);
            }
            if cur.contains(g) && !prev.contains(g) {
                let m = choose|m: int| 0 <= m < cur.len() && cur[m] == g;
                if m < prev.len() {
                    assert(prev[m] == g);
                }
            }
            if prev.contains(g) && cur != prev {
                let m = choose|m: int| 0 <= m < prev.len() && prev[m] == g;
                assert(cur[m] == g);
            }
            if g == f && allowed_kline_frequencies().contains(f) && !prev.contains(f) {
                assert(cur[prev.len() as int] == g);
            }
            assert(requested[requested.len() - 1] == f);
        }
        if allowed_kline_frequencies().contains(f) && !prev.contains(f) {
            assert forall|i: int, j: int| 0 <= i < cur.len() && 0 <= j < cur.len() && i != j implies cur[i] != cur[j] by {
                if i < prev.len() && j < prev.len() {
                } else if i < prev.len() {
                    assert(prev.contains(cur[i]));
                } else {
                    assert(prev.contains(cur[j]));
                }
            }
        }
    }
}

fn is_allowed_frequency(f: &str) -> (r: bool)
    ensures
        r == allowed_kline_frequencies().contains(f@),
{
    let fc = chars_of(f);
    let allowed = ["1m", "5m", "30m", "1h", "1d", "1w", "1M"];
    let ghost spec_allowed = allowed_kline_frequencies();
    assert(spec_allowed =~= allowed@.map_values(|a: &str| a@));
    let mut i: usize = 0;
    while i < allowed.len()
        invariant
            i <= allowed@.len(),
            fc@ == f@,
            spec_allowed == allowed@.map_values(|a: &str| a@),
            spec_allowed == allowed_kline_frequencies(),
            forall|j: int| 0 <= j < i ==> spec_allowed[j] != f@,
        decreases allowed@.len() - i,
    {
        if chars_eq(&chars_of(allowed[i]), &fc) {
            assert(spec_allowed[i as int] == f@);
            return true;
        }
        i += 1;
    }
    false
}

fn contains_str(v: &Vec<String>, s: &String) -> (r: bool)
    ensures
        r == string_views(v@).contains(s@),
{
    let sc = chars_of(s.as_str());
    let mut j: usize = 0;
    while j < v.len()
        invariant
            j <= v.len(),
            sc@ == s@,
            forall|m: int| 0 <= m < j ==> string_views(v@)[m] != s@,
        decreases v.len() - j,
    {
        if chars_eq(&chars_of(v[j].as_str()), &sc) {
            assert(string_views(v@)[j as int] == s@);
            return true;
        }
        j += 1;
    }
    false
}

/// The chart intervals of a backtest's model context.
pub fn configured_ai_kline_frequencies(requested: &[String], defaults: Vec<String>) -> (r: Vec<String>)
    ensures
        string_views(r@) == kline_frequencies_spec(string_views(requested@), string_views(defaults@)),
{
    let ghost rv = string_views(requested@);
    let mut out: Vec<String> = Vec::new();
    let mut i: usize = 0;
    while i < requested.len()
        invariant
            i <= requested.len(),
            rv == string_views(requested@),
            string_views(out@) == allowed_requested(rv.take(i as int)),
        decreases requested.len() - i,
    {
        let f = &requested[i];
        proof {
            assert(rv.take(i + 1).drop_last() =~= rv.take(i as int));
            assert(rv.take(i + 1).last() == f@);
        }
        if is_allowed_frequency(f.as_str()) && !contains_str(&out, f) {
            let ghost before = string_views(out@);
            out.push(f.clone());
            assert(string_views(out@) =~= before.push(f@));
        }
        i += 1;
    }
    assert(rv.take(requested.len() as int) =~= rv);
    if out.len() == 0 {
        defaults
    } else {
        out
    }
}

/// The last bar whose normalised time is not after `t`.
pub open spec fn last_bar_until(norms: Seq<Seq<char>>, t: Seq<char>) -> Option<int>
    decreases norms.len(),
{
    if norms.len() == 0 {
        None
    } else if lex_le(norms.last(), t) {
        Some(norms.len() - 1)
    } else {
        last_bar_until(norms.drop_last(), t)
    }
}

/// The bars shown with a snapshot taken at `open_time`: up to `limit` bars
/// ending with the last one not after it (the last bar when none is), as a
/// range `start..stop` of positions.
pub open spec fn recent_window_spec(bar_times: Seq<Seq<char>>, open_time: Seq<char>, limit: int) -> (int, int) {
    let n = bar_times.len() as int;
    let end = match last_bar_until(normalized_all(bar_times), normalized_bar_time(open_time)) {
        Some(i) => i,
        None => if n > 0 { n - 1 } else { 0 },
    };
    let stop = if end + 1 < n { end + 1 } else { n };
    let start = if limit < stop { stop - limit } else { 0 };
    (start, stop)
}

proof fn lemma_last_bar_until_bound(norms: Seq<Seq<char>>, t: Seq<char>)
    ensures
        last_bar_until(norms, t) matches Some(i) ==> 0 <= i < norms.len(),
    decreases norms.len(),
{
    if norms.len() > 0 {
        lemma_last_bar_until_bound(norms.drop_last(), t);
    }
}

/// The positions of the bars shown with a snapshot taken at `open_time`.
pub fn recent_bar_window(bar_times: &[String], open_time: &str, limit: usize) -> (r: (usize, usize))
    ensures
        (r.0 as int, r.1 as int) == recent_window_spec(string_views(bar_times@), open_time@, limit as int),
        r.0 <= r.1 <= bar_times.len(),
{
    let ghost norms = normalized_all(string_views(bar_times@));
    let t = normalize_bar_chars(&chars_of(open_time));
    let n = bar_times.len();
    let mut k = n;
    assert(norms.take(n as int) =~= norms);
    while k > 0 && !lex_le_exec(&normalize_bar_chars(&chars_of(bar_times[k - 1].as_str())), &t)
        invariant
            k <= n,
            n == bar_times.len(),
            norms == normalized_all(string_views(bar_times@)),
            t@ == normalized_bar_time(open_time@),
            last_bar_until(norms, t@) == last_bar_until(norms.take(k as int), t@),
        decreases k,
    {
        proof {
            assert(norms.take(k as int).last() == norms[k - 1]);
            assert(norms.take(k as int).drop_last() =~= norms.take(k - 1));
        }
        k -= 1;
    }
    proof {
        if k > 0 {
            assert(norms.take(k as int).last() == norms[k - 1]);
        } else {
            assert(norms.take(0) =~= Seq::<Seq<char>>::empty());
        }
        lemma_last_bar_until_bound(norms, t@);
    }
    let end: usize = if k > 0 {
        k - 1
    } else if n > 0 {
        n - 1
    } else {
        0
    };
    let stop: usize = if end + 1 < n { end + 1 } else { n };
    let start: usize = if limit < stop { stop - limit } else { 0 };
    (start, stop)
}


// ---------------------------------------------------------------------------
// Stock names
// ---------------------------------------------------------------------------

/// The fields of a stock's profile its name is read from, in order.
pub open spec fn stock_name_fields() -> Seq<Seq<char>> {
    seq!["股票简称"@, "名称"@, "name"@, "org_name_cn"@, "short_name"@]
}

pub fn stock_name_keys() -> (r: Vec<&'static str>)
    ensures
        r@.map_values(|k: &str| k@) == stock_name_fields(),
{
    let r = vec!["股票简称", "名称", "name", "org_name_cn", "short_name"];
    assert(r@.map_values(|k: &str| k@) =~= stock_name_fields());
    r
}

/// The first value that is not blank, as it was given.
pub open spec fn first_non_blank(values: Seq<Option<Seq<char>>>) -> Option<Seq<char>>
    decreases values.len(),
{
    if values.len() == 0 {
        None
    } else if values[0] matches Some(v) && trimmed(v).len() > 0 {
        values[0]
    } else {
        first_non_blank(values.drop_first())
    }
}

pub open spec fn text_options(v: Seq<Option<String>>) -> Seq<Option<Seq<char>>> {
    v.map_values(|o: Option<String>| match o {
        Some(s) => Some(s@),
        None => None,
    })
}

/// A stock's name from the text values of its profile fields (in the order
/// of `stock_name_keys`): the first that is not blank.
pub fn stock_name_from_values(values: &[Option<String>]) -> (r: Option<String>)
    ensures
        match r {
            Some(s) => first_non_blank(text_options(values@)) == Some(s@),
            None => first_non_blank(text_options(values@)) is None,
        },
{
    let ghost tv = text_options(values@);
    let mut i: usize = 0;
    assert(tv.skip(0) =~= tv);
    while i < values.len()
        invariant
            i <= values.len(),
            tv == text_options(values@),
            first_non_blank(tv) == first_non_blank(tv.skip(i as int)),
        decreases values.len() - i,
    {
        proof {
            assert(tv.skip(i as int).drop_first() =~= tv.skip(i + 1));
            assert(tv.skip(i as int)[0] == tv[i as int]);
        }
        match &values[i] {
            Some(v) => {
                if chars_of(trim_str(v.as_str()).as_str()).len() > 0 {
                    return Some(v.clone());
                }
            },
            None => {},
        }
        i += 1;
    }
    assert(tv.skip(i as int).len() == 0);
    None
}


// ---------------------------------------------------------------------------
// Snapshot windows
// ---------------------------------------------------------------------------

/// Samples that make a trading day in the snapshot fetch.
pub const SAMPLES_PER_DAY: usize = 48;

/// The samples `[start, end)` whose volume a snapshot sums: up to a day of
/// samples before sample `index`, and that sample.
pub fn trailing_day_window(index: usize) -> (r: (usize, usize))
    requires
        index < usize::MAX,
    ensures
        r.0 == (if index >= SAMPLES_PER_DAY { index - SAMPLES_PER_DAY } else { 0 }),
        r.1 == index + 1,
{
    let start = index.saturating_sub(SAMPLES_PER_DAY);
    (start, index + 1)
}

/// The sample a day before sample `index`, whose close a snapshot's change
/// is measured from; none in the first day.
pub fn day_ago_index(index: usize) -> (r: Option<usize>)
    ensures
        r == (if index >= SAMPLES_PER_DAY { Some((index - SAMPLES_PER_DAY) as usize) } else { None::<usize> }),
{
    if index >= SAMPLES_PER_DAY {
        Some(index - SAMPLES_PER_DAY)
    } else {
        None
    }
}

/// The error of a snapshot fetch that stored nothing.
pub fn no_snapshots_message(failures: u32) -> (r: String)
    ensures
        r@ == "没有拉取到可用历史快照，已记录 "@ + decimal_digits(failures as nat) + " 条失败股票-时间点。"@,
{
    let mut text: Vec<char> = Vec::new();
    append_str(&mut text, "没有拉取到可用历史快照，已记录 ");
    append_chars(&mut text, &decimal_digits_exec(failures as u64));
    append_str(&mut text, " 条失败股票-时间点。");
    string_from_chars(&text)
}


// ---------------------------------------------------------------------------
// Snapshots that still need a signal
// ---------------------------------------------------------------------------

/// Why a backtest has no snapshot to generate signals for.
#[derive(Debug, Clone, Copy, PartialEq, Eq, Structural)]
pub enum SignalPlanError {
    /// The dataset holds no snapshot.
    NoSnapshots,
    /// No snapshot is of a selected stock.
    NoneSelected,
}

impl SignalPlanError {
    pub fn message(&self) -> (r: String)
        ensures
            r@ == match *self {
                SignalPlanError::NoSnapshots => "回测数据集没有可用快照"@,
                SignalPlanError::NoneSelected => "回测数据集没有匹配所选股票的快照"@,
            },
    {
        match self {
            SignalPlanError::NoSnapshots => "回测数据集没有可用快照".to_string(),
            SignalPlanError::NoneSelected => "回测数据集没有匹配所选股票的快照".to_string(),
        }
    }
}

pub type SnapshotKey = (Seq<char>, Seq<char>);

pub open spec fn key_views(v: Seq<(String, String)>) -> Seq<SnapshotKey> {
    v.map_values(|k: (String, String)| (k.0@, k.1@))
}

pub open spec fn is_selected(symbol: Seq<char>, selected: Option<Seq<Seq<char>>>) -> bool {
    match selected {
        Some(list) => list.contains(symbol),
        None => true,
    }
}

/// The positions of the snapshots (symbol, time) of selected stocks whose
/// signal is not among `existing`, in order.
pub open spec fn pending_positions(
    snapshots: Seq<SnapshotKey>,
    selected: Option<Seq<Seq<char>>>,
    existing: Seq<SnapshotKey>,
) -> Seq<int>
    decreases snapshots.len(),
{
    if snapshots.len() == 0 {
        Seq::empty()
    } else {
        let prev = pending_positions(snapshots.drop_last(), selected, existing);
        let k = snapshots.last();
        if is_selected(k.0, selected) && !existing.contains(k) {
            prev.push(snapshots.len() - 1)
        } else {
            prev
        }
    }
}

pub open spec fn opt_list_view(o: Option<&[String]>) -> Option<Seq<Seq<char>>> {
    match o {
        Some(v) => Some(string_views(v@)),
        None => None,
    }
}

fn contains_key(keys: &[(String, String)], symbol: &[char], time: &[char]) -> (r: bool)
    ensures
        r == key_views(keys@).contains((symbol@, time@)),
{
    let ghost kv = key_views(keys@);
    let mut i: usize = 0;
    while i < keys.len()
        invariant
            i <= keys.len(),
            kv == key_views(keys@),
            forall|j: int| 0 <= j < i ==> kv[j] != (symbol@, time@),
        decreases keys.len() - i,
    {
        if chars_eq(&chars_of(keys[i].0.as_str()), symbol) && chars_eq(&chars_of(keys[i].1.as_str()), time) {
            assert(kv[i as int] == (symbol@, time@));
            return true;
        }
        i += 1;
    }
    false
}

fn contains_symbol(list: &[String], symbol: &[char]) -> (r: bool)
    ensures
        r == string_views(list@).contains(symbol@),
{
    let ghost sv = string_views(list@);
    let mut i: usize = 0;
    while i < list.len()
        invariant
            i <= list.len(),
            sv == string_views(list@),
            forall|j: int| 0 <= j < i ==> sv[j] != symbol@,
        decreases list.len() - i,
    {
        if chars_eq(&chars_of(list[i].as_str()), symbol) {
            assert(sv[i as int] == symbol@);
            return true;
        }
        i += 1;
    }
    false
}

/// Which snapshots of a backtest (by symbol and capture time) still need a
/// signal: those of the selected stocks (all when none are selected; the
/// selection is given normalised) whose signal was not generated before
/// (`existing`, without repeats). Also gives the model calls of the whole
/// run: the earlier ones and the pending ones, as a 32-bit count.
pub fn pending_signal_snapshots(
    snapshots: &[(String, String)],
    selected: Option<&[String]>,
    existing: &[(String, String)],
) -> (r: Result<(Vec<usize>, u32), SignalPlanError>)
    requires
        key_views(existing@).no_duplicates(),
    ensures
        snapshots.len() == 0 ==> r == Err::<(Vec<usize>, u32), SignalPlanError>(SignalPlanError::NoSnapshots),
        snapshots.len() > 0 && !(exists|i: int| 0 <= i < snapshots.len() && is_selected(
            #[trigger] key_views(snapshots@)[i].0,
            opt_list_view(selected),
        )) ==> r == Err::<(Vec<usize>, u32), SignalPlanError>(SignalPlanError::NoneSelected),
        r matches Ok((p, total)) ==> {
            &&& p@.map_values(|k: usize| k as int) == pending_positions(
                key_views(snapshots@),
                opt_list_view(selected),
                key_views(existing@),
            )
            &&& total == (if existing.len() + p.len() > usize::MAX {
                usize::MAX as int
            } else {
                existing.len() + p.len()
            }) as u32
        },
        snapshots.len() > 0 && (exists|i: int| 0 <= i < snapshots.len() && is_selected(
            #[trigger] key_views(snapshots@)[i].0,
            opt_list_view(selected),
        )) ==> r is Ok,
{
    if snapshots.len() == 0 {
        return Err(SignalPlanError::NoSnapshots);
    }
    let ghost kv = key_views(snapshots@);
    let ghost sel = opt_list_view(selected);
    let ghost ev = key_views(existing@);
    let mut any_selected = false;
    let mut pending: Vec<usize> = Vec::new();
    let mut i: usize = 0;
    while i < snapshots.len()
        invariant
            i <= snapshots.len(),
            kv == key_views(snapshots@),
            sel == opt_list_view(selected),
            ev == key_views(existing@),
            any_selected == exists|j: int| 0 <= j < i && is_selected(#[trigger] kv[j].0, sel),
            pending@.map_values(|k: usize| k as int) == pending_positions(kv.take(i as int), sel, ev),
            pending@.len() <= i,
        decreases snapshots.len() - i,
    {
        proof {
            assert(kv.take(i + 1).drop_last() =~= kv.take(i as int));
            assert(kv.take(i + 1).last() == kv[i as int]);
            assert(kv[i as int] == (snapshots@[i as int].0@, snapshots@[i as int].1@));
        }
        let symbol = chars_of(snapshots[i].0.as_str());
        let chosen = match selected {
            Some(list) => contains_symbol(list, &symbol),
            None => true,
        };
        if chosen {
            any_selected = true;
            let time = chars_of(snapshots[i].1.as_str());
            if !contains_key(existing, &symbol, &time) {
                let ghost before = pending@.map_values(|k: usize| k as int);
                pending.push(i);
                assert(pending@.map_values(|k: usize| k as int) =~= before.push(i as int));
            }
        }
        proof {
            assert(kv[i as int].0 == symbol@);
            if chosen {
                assert(is_selected(kv[i as int].0, sel));
            } else {
                assert(!is_selected(kv[i as int].0, sel));
                assert forall|j: int| 0 <= j < i + 1 && is_selected(#[trigger] kv[j].0, sel) implies j < i by {}
            }
        }
        i += 1;
    }
    assert(kv.take(snapshots.len() as int) =~= kv);
    if !any_selected {
        return Err(SignalPlanError::NoneSelected);
    }
    let total = existing.len().saturating_add(pending.len()) as u32;
    Ok((pending, total))
}


// ---------------------------------------------------------------------------
// Trade replay
// ---------------------------------------------------------------------------

/// The capture times a replay steps through: each once, earliest first.
pub fn replay_timepoints(captured_at: Vec<String>) -> (r: Vec<String>)
    ensures
        string_views(r@) == dedup_adjacent(sort_stable(string_views(captured_at@), lex_order())),
{
    sorted_distinct(captured_at)
}

/// A replay steps through every capture time of its snapshots, once each,
/// in increasing order, and through no other time.
pub proof fn law_replay_visits_each_time_once(captured_at: Seq<Seq<char>>)
    ensures
        dedup_adjacent(sort_stable(captured_at, lex_order())).no_duplicates(),
        sorted_by(dedup_adjacent(sort_stable(captured_at, lex_order())), lex_order()),
        forall|t: Seq<char>| #[trigger] dedup_adjacent(sort_stable(captured_at, lex_order())).contains(t)
            <==> captured_at.contains(t),
{
    lemma_sorted_distinct(captured_at);
}

/// Whether a signal may open a position at its capture time: it has a
/// trade, its direction is a buy, no position of its stock is open, and its
/// stock has a snapshot at that time. (Whether the cash covers it is the
/// caller's to check.)
pub open spec fn may_open_spec(
    has_trade: bool,
    direction: Option<Seq<char>>,
    symbol: Seq<char>,
    open_symbols: Seq<Seq<char>>,
    current_symbols: Seq<Seq<char>>,
) -> bool {
    &&& has_trade
    &&& direction == Some("买入"@)
    &&& !open_symbols.contains(symbol)
    &&& current_symbols.contains(symbol)
}

pub fn signal_may_open(
    has_trade: bool,
    direction: Option<&str>,
    symbol: &str,
    open_symbols: &[String],
    current_symbols: &[String],
) -> (r: bool)
    ensures
        r == may_open_spec(
            has_trade,
            match direction {
                Some(d) => Some(d@),
                None => None,
            },
            symbol@,
            string_views(open_symbols@),
            string_views(current_symbols@),
        ),
{
    if !has_trade {
        return false;
    }
    let buys = match direction {
        Some(d) => {
            proof {
                reveal_strlit("买入");
            }
            chars_eq(&chars_of(d), &chars_of("买入"))
        },
        None => false,
    };
    if !buys {
        return false;
    }
    let s = chars_of(symbol);
    !contains_symbol(open_symbols, &s) && contains_symbol(current_symbols, &s)
}

} // verus!
