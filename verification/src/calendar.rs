//! Calendar dates of the proleptic Gregorian calendar, read from
//! `YYYY-MM-DD` text; day-to-day stepping and weekdays come from the `time` crate.
use vstd::prelude::*;

use crate::numbers::{parse_int, parse_u32, zero_padded_exec, NumberError};
use crate::text::{chars_of, string_from_chars, zero_padded};

verus! {

/// A calendar date as plain numbers.
#[derive(Clone, Copy, Debug, PartialEq, Eq)]
pub struct CalendarDate {
    pub year: i32,
    pub month: u8,
    pub day: u8,
}

/// The years `time::Date` represents (its default build).
pub open spec fn min_year() -> int {
    -9999
}

pub open spec fn max_year() -> int {
    9999
}

pub open spec fn is_leap_year(y: int) -> bool {
    (y % 4 == 0 && y % 100 != 0) || y % 400 == 0
}

pub open spec fn days_in_month(y: int, m: int) -> int {
    if m == 2 {
        if is_leap_year(y) {
            29
        } else {
            28
        }
    } else if m == 4 || m == 6 || m == 9 || m == 11 {
        30
    } else {
        31
    }
}

pub open spec fn valid_ymd(y: int, m: int, d: int) -> bool {
    &&& min_year() <= y <= max_year()
    &&& 1 <= m <= 12
    &&& 1 <= d <= days_in_month(y, m)
}

pub open spec fn valid_date(d: CalendarDate) -> bool {
    valid_ymd(d.year as int, d.month as int, d.day as int)
}

/// The day after `d`; none after the last representable day.
pub open spec fn next_day_spec(d: CalendarDate) -> Option<CalendarDate> {
    if (d.day as int) < days_in_month(d.year as int, d.month as int) {
        Some(CalendarDate { year: d.year, month: d.month, day: (d.day + 1) as u8 })
    } else if d.month < 12 {
        Some(CalendarDate { year: d.year, month: (d.month + 1) as u8, day: 1 })
    } else if (d.year as int) < max_year() {
        Some(CalendarDate { year: (d.year + 1) as i32, month: 1, day: 1 })
    } else {
        None
    }
}

/// A number that orders dates as the calendar does.
pub open spec fn date_ordinal(d: CalendarDate) -> int {
    (d.year as int) * 512 + (d.month as int) * 32 + (d.day as int)
}

/// `a <= b` in calendar order.
pub open spec fn date_le(a: CalendarDate, b: CalendarDate) -> bool {
    a.year < b.year || (a.year == b.year && (a.month < b.month || (a.month == b.month && a.day <= b.day)))
}

pub proof fn lemma_date_le_ordinal(a: CalendarDate, b: CalendarDate)
    requires
        valid_date(a),
        valid_date(b),
    ensures
        date_le(a, b) <==> date_ordinal(a) <= date_ordinal(b),
{
}

pub proof fn lemma_next_day_valid(d: CalendarDate)
    requires
        valid_date(d),
    ensures
        (next_day_spec(d) matches Some(n) ==> valid_date(n) && date_ordinal(n) > date_ordinal(d)
            && date_le(d, n)),
        next_day_spec(d) is None ==> (d == CalendarDate { year: 9999, month: 12, day: 31 }),
{
}

/// `YYYY-MM-DD`, with a leading `-` for years before year zero (what
/// `Display` for `time::Date` writes).
pub open spec fn date_text(d: CalendarDate) -> Seq<char> {
    let y = d.year as int;
    let sign: Seq<char> = if y < 0 { seq!['-'] } else { Seq::empty() };
    let ay: nat = if y < 0 { (-y) as nat } else { y as nat };
    sign + zero_padded(ay, 4) + seq!['-'] + zero_padded(d.month as nat, 2) + seq!['-'] + zero_padded(d.day as nat, 2)
}

/// Days from 1970-01-01 to a date of the proleptic Gregorian calendar
/// (negative before it), counting from March so that a leap day ends the year.
pub open spec fn days_from_civil(year: int, month: int, day: int) -> int {
    let y = if month <= 2 {
        year - 1
    } else {
        year
    };
    let mp = if month > 2 {
        month - 3
    } else {
        month + 9
    };
    365 * y + y / 4 - y / 100 + y / 400 + (153 * mp + 2) / 5 + day - 1 - 719468
}

/// The ISO weekday (Monday 1 ... Sunday 7) of a date; 1970-01-01 was a Thursday.
pub open spec fn iso_weekday(year: int, month: int, day: int) -> int {
    (days_from_civil(year, month, day) + 3) % 7 + 1
}

/// Calls `time::Month::try_from(u8)`; it succeeds exactly for 1 to 12.
#[verifier::external_body]
fn month_number_is_valid(n: u8) -> (r: bool)
    ensures
        r == (1 <= n <= 12),
{
    time::Month::try_from(n).is_ok()
}

/// Calls `time::Date::from_calendar_date`; the contract claims what its
/// documentation states: it succeeds exactly when the year is within
/// -9999..=9999 and the day exists in that month, and then holds these parts.
#[verifier::external_body]
fn date_from_calendar(year: i32, month: u8, day: u8) -> (r: Option<CalendarDate>)
    requires
        1 <= month <= 12,
    ensures
        r == (if valid_ymd(year as int, month as int, day as int) {
            Some(CalendarDate { year, month, day })
        } else {
            None
        }),
{
    let m = time::Month::try_from(month).ok()?;
    time::Date::from_calendar_date(year, m, day).ok().map(
        |d| CalendarDate { year: d.year(), month: u8::from(d.month()), day: d.day() },
    )
}

/// Calls `time::Date::next_day`; the contract states the next calendar day,
/// and none after 9999-12-31, as the crate documents.
#[verifier::external_body]
pub(crate) fn next_calendar_day(d: CalendarDate) -> (r: Option<CalendarDate>)
    requires
        valid_date(d),
    ensures
        r == next_day_spec(d),
{
    time::Date::from_calendar_date(d.year, time::Month::try_from(d.month).unwrap(), d.day)
        .unwrap().next_day().map(
        |n| CalendarDate { year: n.year(), month: u8::from(n.month()), day: n.day() },
    )
}

/// Calls `time::Date::weekday` and `Weekday::number_from_monday`: the ISO
/// weekday of the date, `iso_weekday`, in 1..=7.
#[verifier::external_body]
pub(crate) fn weekday_number_from_monday(d: CalendarDate) -> (r: u8)
    requires
        valid_date(d),
    ensures
        r as int == iso_weekday(d.year as int, d.month as int, d.day as int),
        1 <= r <= 7,
{
    time::Date::from_calendar_date(d.year, time::Month::try_from(d.month).unwrap(), d.day)
        .unwrap().weekday().number_from_monday()
}

/// The date as `YYYY-MM-DD` text, as `time::Date` displays it.
pub fn date_to_string(d: CalendarDate) -> (r: String)
    ensures
        r@ == date_text(d),
{
    let y: i64 = d.year as i64;
    let ay: u64 = if y < 0 {
        (-y) as u64
    } else {
        y as u64
    };
    let mut out: Vec<char> = Vec::new();
    if y < 0 {
        out.push('-');
    }
    let mut year = zero_padded_exec(ay, 4);
    out.append(&mut year);
    out.push('-');
    let mut month = zero_padded_exec(d.month as u64, 2);
    out.append(&mut month);
    out.push('-');
    let mut day = zero_padded_exec(d.day as u64, 2);
    out.append(&mut day);
    proof {
        let sign: Seq<char> = if y < 0 {
            seq!['-']
        } else {
            Seq::empty()
        };
        assert(out@ =~= sign + zero_padded(ay as nat, 4) + seq!['-'] + zero_padded(d.month as nat, 2)
            + seq!['-'] + zero_padded(d.day as nat, 2));
    }
    string_from_chars(&out)
}

/// Why a date could not be read.
#[derive(Clone, Copy, Debug, PartialEq, Eq)]
pub enum DateParseError {
    /// A part between dashes is not a `u32`.
    Number(NumberError),
    /// The text does not have exactly three parts.
    WrongShape,
    /// The month part (truncated to a byte) is not 1 to 12.
    Month,
    /// The year or the day is out of range.
    Component,
}

/// `s` split at every `sep` (what `str::split` yields).
pub open spec fn split_on(s: Seq<char>, sep: char) -> Seq<Seq<char>>
    decreases s.len(),
{
    if s.len() == 0 {
        seq![Seq::empty()]
    } else {
        let prev = split_on(s.drop_last(), sep);
        if s.last() == sep {
            prev.push(Seq::empty())
        } else {
            prev.update(prev.len() - 1, prev.last().push(s.last()))
        }
    }
}

pub proof fn lemma_split_on_nonempty(s: Seq<char>, sep: char)
    ensures
        split_on(s, sep).len() >= 1,
    decreases s.len(),
{
    if s.len() > 0 {
        lemma_split_on_nonempty(s.drop_last(), sep);
    }
}

/// The first part of `parts` that is not a `u32`, with its error.
pub open spec fn first_number_error(parts: Seq<Seq<char>>) -> Option<NumberError>
    decreases parts.len(),
{
    if parts.len() == 0 {
        None
    } else {
        match parse_int(parts[0], 0, u32::MAX as int) {
            Err(e) => Some(e),
            Ok(_) => first_number_error(parts.drop_first()),
        }
    }
}

pub open spec fn part_value(parts: Seq<Seq<char>>, i: int) -> int {
    match parse_int(parts[i], 0, u32::MAX as int) {
        Ok(v) => v,
        Err(_) => 0,
    }
}

/// What reading `YYYY-MM-DD` gives: the year is the first number taken as an
/// `i32`, month and day are the other numbers truncated to a byte.
pub open spec fn parse_date_spec(s: Seq<char>) -> Result<CalendarDate, DateParseError> {
    let parts = split_on(s, '-');
    match first_number_error(parts) {
        Some(e) => Err(DateParseError::Number(e)),
        None => if parts.len() != 3 {
            Err(DateParseError::WrongShape)
        } else {
            let y = (part_value(parts, 0) as u32) as i32;
            let m = (part_value(parts, 1) as u32) as u8;
            let d = (part_value(parts, 2) as u32) as u8;
            if !(1 <= m <= 12) {
                Err(DateParseError::Month)
            } else if valid_ymd(y as int, m as int, d as int) {
                Ok(CalendarDate { year: y, month: m, day: d })
            } else {
                Err(DateParseError::Component)
            }
        },
    }
}

fn split_on_exec(s: &[char], sep: char) -> (r: Vec<Vec<char>>)
    ensures
        r@.map_values(|p: Vec<char>| p@) == split_on(s@, sep),
{
    let mut parts: Vec<Vec<char>> = Vec::new();
    parts.push(Vec::new());
    let mut i: usize = 0;
    assert(parts@.map_values(|p: Vec<char>| p@) =~= split_on(s@.take(0), sep));
    while i < s.len()
        invariant
            i <= s.len(),
            parts@.len() >= 1,
            parts@.map_values(|p: Vec<char>| p@) == split_on(s@.take(i as int), sep),
        decreases s.len() - i,
    {
        let ghost prev = parts@.map_values(|p: Vec<char>| p@);
        assert(s@.take(i + 1).drop_last() =~= s@.take(i as int));
        assert(s@.take(i + 1).last() == s@[i as int]);
        if s[i] == sep {
            parts.push(Vec::new());
            assert(parts@.map_values(|p: Vec<char>| p@) =~= prev.push(Seq::empty()));
        } else {
            let mut last = parts.pop().unwrap();
            last.push(s[i]);
            parts.push(last);
            assert(parts@.map_values(|p: Vec<char>| p@) =~= prev.update(prev.len() - 1, prev.last().push(s@[i as int])));
        }
        i += 1;
    }
    assert(s@.take(s.len() as int) =~= s@);
    parts
}

/// Reads a `YYYY-MM-DD` date.
pub fn parse_date(value: &str) -> (r: Result<CalendarDate, DateParseError>)
    ensures
        r == parse_date_spec(value@),
{
    let chars = chars_of(value);
    let parts = split_on_exec(&chars, '-');
    let ghost pv = parts@.map_values(|p: Vec<char>| p@);
    let mut values: Vec<u32> = Vec::new();
    let mut i: usize = 0;
    assert(pv.skip(0) =~= pv);
    while i < parts.len()
        invariant
            i <= parts.len(),
            pv == parts@.map_values(|p: Vec<char>| p@),
            pv == split_on(value@, '-'),
            values.len() == i,
            first_number_error(pv) == first_number_error(pv.skip(i as int)),
            forall|k: int| 0 <= k < i ==> parse_int(#[trigger] pv[k], 0, u32::MAX as int) == Ok::<int, NumberError>(values@[k] as int),
        decreases parts.len() - i,
    {
        assert(pv.skip(i as int)[0] == pv[i as int]);
        assert(pv[i as int] == parts@[i as int]@);
        assert(pv.skip(i as int).drop_first() =~= pv.skip(i + 1));
        match parse_u32(&parts[i]) {
            Ok(v) => {
                values.push(v);
            },
            Err(e) => {
                assert(parse_int(pv[i as int], 0, u32::MAX as int) == Err::<int, NumberError>(e));
                assert(first_number_error(pv.skip(i as int)) == Some(e));
                assert(pv == split_on(value@, '-'));
                return Err(DateParseError::Number(e));
            },
        }
        i += 1;
    }
    assert(pv.skip(parts.len() as int) =~= Seq::<Seq<char>>::empty());
    if values.len() != 3 {
        return Err(DateParseError::WrongShape);
    }
    let year = #[verifier::truncate] (values[0] as i32);
    let month = #[verifier::truncate] (values[1] as u8);
    let day = #[verifier::truncate] (values[2] as u8);
    assert(part_value(pv, 0) == values@[0] as int);
    assert(part_value(pv, 1) == values@[1] as int);
    assert(part_value(pv, 2) == values@[2] as int);
    if !month_number_is_valid(month) {
        return Err(DateParseError::Month);
    }
    match date_from_calendar(year, month, day) {
        Some(d) => Ok(d),
        None => Err(DateParseError::Component),
    }
}

/// Calendar order on dates.
pub fn date_le_exec(a: CalendarDate, b: CalendarDate) -> (r: bool)
    ensures
        r == date_le(a, b),
{
    a.year < b.year || (a.year == b.year && (a.month < b.month || (a.month == b.month && a.day <= b.day)))
}


/// Splitting after one more character.
pub proof fn lemma_split_on_push(s: Seq<char>, c: char, sep: char)
    ensures
        c == sep ==> split_on(s.push(c), sep) == split_on(s, sep).push(Seq::empty()),
        c != sep ==> split_on(s.push(c), sep) == split_on(s, sep).update(
            split_on(s, sep).len() - 1,
            split_on(s, sep).last().push(c),
        ),
{
    assert(s.push(c).drop_last() =~= s);
}

/// A text without `sep` is one piece.
pub proof fn lemma_split_on_without(s: Seq<char>, sep: char)
    requires
        !s.contains(sep),
    ensures
        split_on(s, sep) == seq![s],
    decreases s.len(),
{
    if s.len() > 0 {
        let t = s.drop_last();
        assert forall|k: int| 0 <= k < t.len() implies t[k] != sep by {
            assert(s[k] == t[k]);
        }
        lemma_split_on_without(t, sep);
        assert(s.last() != sep) by {
            assert(s[s.len() - 1] == s.last());
        }
        assert(t.push(s.last()) =~= s);
    } else {
        assert(s =~= Seq::<char>::empty());
    }
}

/// Splitting `a + b` at `sep`: the finished pieces of `a`, then the split
/// of the last piece of `a` followed by `b`.
pub proof fn lemma_split_on_concat(a: Seq<char>, b: Seq<char>, sep: char)
    ensures
        split_on(a + b, sep) == split_on(a, sep).drop_last() + split_on(split_on(a, sep).last() + b, sep),
    decreases b.len(),
{
    lemma_split_on_nonempty(a, sep);
    let sa = split_on(a, sep);
    lemma_split_on_last_piece(a, sep);
    if b.len() == 0 {
        assert(a + b =~= a);
        assert(sa.last() + b =~= sa.last());
        lemma_split_on_without(sa.last(), sep);
        assert(sa.drop_last() + seq![sa.last()] =~= sa);
    } else {
        let b0 = b.drop_last();
        let c = b.last();
        lemma_split_on_concat(a, b0, sep);
        assert(a + b =~= (a + b0).push(c));
        assert(sa.last() + b =~= (sa.last() + b0).push(c));
        lemma_split_on_push(a + b0, c, sep);
        lemma_split_on_push(sa.last() + b0, c, sep);
        lemma_split_on_nonempty(sa.last() + b0, sep);
        let e = split_on(sa.last() + b0, sep);
        if c == sep {
            assert((sa.drop_last() + e).push(Seq::empty()) =~= sa.drop_last() + e.push(Seq::empty()));
        } else {
            assert((sa.drop_last() + e).update((sa.drop_last() + e).len() - 1, (sa.drop_last() + e).last().push(c))
                =~= sa.drop_last() + e.update(e.len() - 1, e.last().push(c)));
        }
    }
}

/// The last piece never holds `sep`.
pub proof fn lemma_split_on_last_piece(a: Seq<char>, sep: char)
    ensures
        !split_on(a, sep).last().contains(sep),
    decreases a.len(),
{
    lemma_split_on_nonempty(a, sep);
    if a.len() > 0 {
        let t = a.drop_last();
        lemma_split_on_last_piece(t, sep);
        lemma_split_on_nonempty(t, sep);
        let st = split_on(t, sep);
        if a.last() != sep {
            let l = st.last().push(a.last());
            assert forall|k: int| 0 <= k < l.len() implies l[k] != sep by {
                if k < st.last().len() {
                    assert(l[k] == st.last()[k]);
                }
            }
        } else {
            assert(!Seq::<char>::empty().contains(sep));
        }
    }
}

proof fn lemma_digit_char_value(d: nat)
    requires
        d < 10,
    ensures
        crate::numbers::digit_value(crate::text::digit_char(d)) == d,
        crate::text::is_ascii_digit(crate::text::digit_char(d)),
{
}

proof fn lemma_decimal_digits_value(n: nat)
    ensures
        crate::numbers::all_digits(crate::text::decimal_digits(n)),
        crate::numbers::digits_value(crate::text::decimal_digits(n)) == n,
    decreases n,
{
    let s = crate::text::decimal_digits(n);
    if n < 10 {
        lemma_digit_char_value(n);
        assert(s.drop_last() =~= Seq::<char>::empty());
        assert(crate::numbers::digits_value(s.drop_last()) == 0);
        assert(s.last() == crate::text::digit_char(n));
        assert(crate::numbers::digits_value(s) == n);
    } else {
        lemma_decimal_digits_value(n / 10);
        lemma_digit_char_value(n % 10);
        let p = crate::text::decimal_digits(n / 10);
        assert(s.drop_last() =~= p);
        assert(s.last() == crate::text::digit_char(n % 10));
        assert((n / 10) * 10 + n % 10 == n) by (nonlinear_arith);
        assert(crate::numbers::digits_value(s) == crate::numbers::digits_value(p) * 10 + (n % 10) as int);
        assert(crate::numbers::digits_value(s) == n);
        assert forall|i: int| 0 <= i < s.len() implies crate::text::is_ascii_digit(#[trigger] s[i]) by {
            if i < p.len() {
                assert(s[i] == p[i]);
            }
        }
    }
}

proof fn lemma_zeros_value(z: nat)
    ensures
        crate::numbers::all_digits(Seq::new(z, |i: int| '0')),
        crate::numbers::digits_value(Seq::new(z, |i: int| '0')) == 0,
    decreases z,
{
    if z > 0 {
        lemma_zeros_value((z - 1) as nat);
        assert(Seq::new(z, |i: int| '0').drop_last() =~= Seq::new((z - 1) as nat, |i: int| '0'));
    }
}

proof fn lemma_leading_zeros(z: Seq<char>, s: Seq<char>)
    requires
        crate::numbers::all_digits(z),
        crate::numbers::digits_value(z) == 0,
        crate::numbers::all_digits(s),
    ensures
        crate::numbers::all_digits(z + s),
        crate::numbers::digits_value(z + s) == crate::numbers::digits_value(s),
    decreases s.len(),
{
    if s.len() == 0 {
        assert(z + s =~= z);
    } else {
        lemma_leading_zeros(z, s.drop_last());
        assert((z + s).drop_last() =~= z + s.drop_last());
        assert((z + s).last() == s.last());
    }
    assert forall|i: int| 0 <= i < (z + s).len() implies crate::text::is_ascii_digit(#[trigger] (z + s)[i]) by {
        if i < z.len() {
            assert((z + s)[i] == z[i]);
        } else {
            assert((z + s)[i] == s[i - z.len()]);
        }
    }
}

/// A zero-padded number reads back as the number.
proof fn lemma_zero_padded_reads_back(n: nat, w: nat)
    requires
        n <= u32::MAX,
    ensures
        parse_int(zero_padded(n, w), 0, u32::MAX as int) == Ok::<int, NumberError>(n as int),
        !zero_padded(n, w).contains('-'),
{
    let d = crate::text::decimal_digits(n);
    lemma_decimal_digits_value(n);
    crate::numbers::lemma_decimal_digits_nonempty(n);
    let s = zero_padded(n, w);
    if d.len() < w {
        let z = Seq::new((w - d.len()) as nat, |i: int| '0');
        lemma_zeros_value((w - d.len()) as nat);
        lemma_leading_zeros(z, d);
    }
    assert(crate::numbers::all_digits(s));
    assert(crate::numbers::digits_value(s) == n);
    assert(s.len() > 0);
    assert(crate::text::is_ascii_digit(s[0]));
    assert(!s.contains('-')) by {
        if s.contains('-') {
            let k = choose|k: int| 0 <= k < s.len() && s[k] == '-';
            assert(crate::text::is_ascii_digit(s[k]));
        }
    }
}

/// Printing a date of year 0 or later and reading the text back gives the
/// same date.
pub proof fn law_date_text_reads_back(d: CalendarDate)
    requires
        valid_date(d),
        d.year >= 0,
    ensures
        parse_date_spec(date_text(d)) == Ok::<CalendarDate, DateParseError>(d),
{
    let y = zero_padded(d.year as nat, 4);
    let m = zero_padded(d.month as nat, 2);
    let dd = zero_padded(d.day as nat, 2);
    lemma_zero_padded_reads_back(d.year as nat, 4);
    lemma_zero_padded_reads_back(d.month as nat, 2);
    lemma_zero_padded_reads_back(d.day as nat, 2);
    let text = date_text(d);
    let sign: Seq<char> = Seq::empty();
    assert(text =~= (y + seq!['-']) + (m + seq!['-'] + dd));
    lemma_split_on_concat(y + seq!['-'], m + seq!['-'] + dd, '-');
    lemma_split_on_push(y, '-', '-');
    lemma_split_on_without(y, '-');
    assert(split_on(y + seq!['-'], '-') =~= seq![y, Seq::<char>::empty()]) by {
        assert(y + seq!['-'] =~= y.push('-'));
    }
    assert(Seq::<char>::empty() + (m + seq!['-'] + dd) =~= (m + seq!['-']) + dd);
    lemma_split_on_concat(m + seq!['-'], dd, '-');
    lemma_split_on_push(m, '-', '-');
    lemma_split_on_without(m, '-');
    assert(split_on(m + seq!['-'], '-') =~= seq![m, Seq::<char>::empty()]) by {
        assert(m + seq!['-'] =~= m.push('-'));
    }
    assert(Seq::<char>::empty() + dd =~= dd);
    lemma_split_on_without(dd, '-');
    let parts = split_on(text, '-');
    assert(parts =~= seq![y, m, dd]);
    assert(first_number_error(parts) is None) by {
        reveal_with_fuel(first_number_error, 4);
        assert(parts.drop_first() =~= seq![m, dd]);
        assert(parts.drop_first().drop_first() =~= seq![dd]);
        assert(parts.drop_first().drop_first().drop_first() =~= Seq::<Seq<char>>::empty());
    }
    assert(part_value(parts, 0) == d.year as int);
    assert(part_value(parts, 1) == d.month as int);
    assert(part_value(parts, 2) == d.day as int);
}

} // verus!
