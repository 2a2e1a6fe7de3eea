//! Arbitrage candidates: the type filter, pagination of a scored list, and
//! the timestamps candidates carry.
use vstd::prelude::*;

use crate::market::{row_key_views, MarketRowKey, RowKeyView};
use crate::numbers::{parse_i128, parse_int, slice_from, NumberError};
use crate::text::{
    ascii_lower, ascii_lower_vec, chars_eq, chars_of, eq_ignore_case, eq_ignore_case_exec, has_prefix, has_prefix_exec,
    string_from_chars, trim_str, trimmed,
};

verus! {

/// Which opportunities a listing shows.
#[derive(Clone, Copy, Debug, PartialEq, Eq)]
pub enum ArbitrageTypeFilter {
    All,
    Spot,
    Perpetual,
    CrossMarket,
}

pub open spec fn filter_from_query_spec(q: Seq<char>) -> ArbitrageTypeFilter {
    let v = ascii_lower(trimmed(q));
    if v == "spot"@ {
        ArbitrageTypeFilter::Spot
    } else if v == "perpetual"@ {
        ArbitrageTypeFilter::Perpetual
    } else if v == "cross_market"@ {
        ArbitrageTypeFilter::CrossMarket
    } else {
        ArbitrageTypeFilter::All
    }
}

pub open spec fn filter_matches_spec(filter: ArbitrageTypeFilter, opportunity_type: Seq<char>, has_secondary_market: bool) -> bool {
    match filter {
        ArbitrageTypeFilter::All => true,
        ArbitrageTypeFilter::Spot => opportunity_type == "spot_cross_exchange"@,
        ArbitrageTypeFilter::Perpetual => opportunity_type == "perpetual_cross_exchange"@,
        ArbitrageTypeFilter::CrossMarket => has_secondary_market,
    }
}

impl ArbitrageTypeFilter {
    /// Reads the filter from a query value (trimmed, ASCII case ignored);
    /// anything unknown shows all.
    pub fn from_query(value: &str) -> (r: ArbitrageTypeFilter)
        ensures
            r == filter_from_query_spec(value@),
    {
        let t = trim_str(value);
        let v = ascii_lower_vec(&chars_of(t.as_str()));
        if chars_eq(&v, &chars_of("spot")) {
            ArbitrageTypeFilter::Spot
        } else if chars_eq(&v, &chars_of("perpetual")) {
            ArbitrageTypeFilter::Perpetual
        } else if chars_eq(&v, &chars_of("cross_market")) {
            ArbitrageTypeFilter::CrossMarket
        } else {
            ArbitrageTypeFilter::All
        }
    }

    /// Whether an opportunity of this type (with or without a second market)
    /// passes the filter.
    pub fn matches(self, opportunity_type: &str, has_secondary_market: bool) -> (r: bool)
        ensures
            r == filter_matches_spec(self, opportunity_type@, has_secondary_market),
    {
        match self {
            ArbitrageTypeFilter::All => true,
            ArbitrageTypeFilter::Spot => chars_eq(&chars_of(opportunity_type), &chars_of("spot_cross_exchange")),
            ArbitrageTypeFilter::Perpetual => chars_eq(&chars_of(opportunity_type), &chars_of("perpetual_cross_exchange")),
            ArbitrageTypeFilter::CrossMarket => has_secondary_market,
        }
    }
}

/// The positions of the candidates (by opportunity type and whether they
/// have a second market) that pass the filter, in order.
pub open spec fn passing_candidates(filter: ArbitrageTypeFilter, kinds: Seq<(Seq<char>, bool)>) -> Seq<int>
    decreases kinds.len(),
{
    if kinds.len() == 0 {
        Seq::empty()
    } else {
        let prev = passing_candidates(filter, kinds.drop_last());
        if filter_matches_spec(filter, kinds.last().0, kinds.last().1) {
            prev.push(kinds.len() - 1)
        } else {
            prev
        }
    }
}

pub open spec fn kind_views(v: Seq<(String, bool)>) -> Seq<(Seq<char>, bool)> {
    v.map_values(|k: (String, bool)| (k.0@, k.1))
}

/// Keeps, in order, the scored candidates that the filter shows.
pub fn filter_candidates(filter: ArbitrageTypeFilter, kinds: &[(String, bool)]) -> (r: Vec<usize>)
    ensures
        r@.map_values(|k: usize| k as int) == passing_candidates(filter, kind_views(kinds@)),
{
    let ghost kv = kind_views(kinds@);
    let mut out: Vec<usize> = Vec::new();
    let mut i: usize = 0;
    while i < kinds.len()
        invariant
            i <= kinds.len(),
            kv == kind_views(kinds@),
            out@.map_values(|k: usize| k as int) == passing_candidates(filter, kv.take(i as int)),
        decreases kinds.len() - i,
    {
        proof {
            assert(kv.take(i + 1).drop_last() =~= kv.take(i as int));
            assert(kv.take(i + 1).last() == (kinds@[i as int].0@, kinds@[i as int].1));
        }
        if filter.matches(kinds[i].0.as_str(), kinds[i].1) {
            let ghost before = out@.map_values(|k: usize| k as int);
            out.push(i);
            assert(out@.map_values(|k: usize| k as int) =~= before.push(i as int));
        }
        i += 1;
    }
    assert(kv.take(kinds.len() as int) =~= kv);
    out
}

/// One page of a listing.
#[derive(Debug, PartialEq)]
pub struct CandidatePage<T> {
    pub items: Vec<T>,
    pub total: usize,
    pub page: usize,
    pub page_size: usize,
    pub total_pages: usize,
}

pub open spec fn at_least_one(n: int) -> int {
    if n < 1 {
        1
    } else {
        n
    }
}

pub open spec fn ceil_div(a: int, b: int) -> int {
    if a % b == 0 {
        a / b
    } else {
        a / b + 1
    }
}

/// The items of page `page` (1-based) of `page_size` items each.
pub open spec fn page_items<T>(items: Seq<T>, page: int, page_size: int) -> Seq<T> {
    let start = (page - 1) * page_size;
    if start >= items.len() {
        Seq::empty()
    } else if start + page_size >= items.len() {
        items.subrange(start, items.len() as int)
    } else {
        items.subrange(start, start + page_size)
    }
}

/// A page number and size outside the listing's reach still make sense:
/// both count as at least one; the start of the page must be addressable.
pub open spec fn page_fits(page: usize, page_size: usize) -> bool {
    (at_least_one(page as int) - 1) * at_least_one(page_size as int) <= usize::MAX
}

/// Page `page` of `items` with `page_size` items per page (both taken as at
/// least one), with the total and the number of pages (at least one).
pub fn paginate_candidates<T>(items: Vec<T>, page: usize, page_size: usize) -> (r: CandidatePage<T>)
    requires
        page_fits(page, page_size),
    ensures
        r.page == at_least_one(page as int),
        r.page_size == at_least_one(page_size as int),
        r.total == items.len(),
        r.total_pages == ceil_div(at_least_one(items.len() as int), r.page_size as int),
        r.items@ == page_items(items@, r.page as int, r.page_size as int),
{
    let page_size: usize = if page_size < 1 { 1 } else { page_size };
    let page: usize = if page < 1 { 1 } else { page };
    let total = items.len();
    let base: usize = if total < 1 { 1 } else { total };
    let total_pages: usize = if base % page_size == 0 {
        base / page_size
    } else {
        assert(page_size >= 2);
        assert(base / page_size < usize::MAX) by (nonlinear_arith)
            requires
                page_size >= 2,
                base <= usize::MAX,
        ;
        base / page_size + 1
    };
    let start: usize = (page - 1) * page_size;
    let mut paged: Vec<T> = Vec::new();
    let mut rest = items;
    let ghost all = rest@;
    if start < total {
        let end: usize = if page_size >= total - start { total } else { start + page_size };
        let mut tail = rest.split_off(start);
        assert(tail@ == all.subrange(start as int, total as int));
        tail.truncate(end - start);
        assert(tail@ =~= all.subrange(start as int, end as int));
        paged = tail;
    }
    CandidatePage { items: paged, total, page, page_size, total_pages }
}

/// Every item is on page `i / page_size + 1`, at position `i % page_size`.
pub proof fn lemma_item_page<T>(items: Seq<T>, page_size: int, i: int)
    requires
        page_size >= 1,
        0 <= i < items.len(),
    ensures
        page_items(items, i / page_size + 1, page_size)[i % page_size] == items[i],
        i % page_size < page_items(items, i / page_size + 1, page_size).len(),
{
    let p = i / page_size;
    let start = p * page_size;
    assert(start + i % page_size == i) by (nonlinear_arith)
        requires
            page_size >= 1,
            p == i / page_size,
            start == p * page_size,
    ;
    assert(0 <= i % page_size < page_size) by (nonlinear_arith)
        requires
            page_size >= 1,
    ;
    assert((p + 1 - 1) * page_size == start);
}

/// The last page reaches the last item.
pub proof fn lemma_pages_reach_end(total: int, page_size: int)
    requires
        page_size >= 1,
        total >= 0,
    ensures
        ceil_div(at_least_one(total), page_size) * page_size >= total,
{
    let a = at_least_one(total);
    assert(ceil_div(a, page_size) * page_size >= a) by (nonlinear_arith)
        requires
            page_size >= 1,
            a >= 1,
    {
        assert(a == (a / page_size) * page_size + a % page_size);
    }
}

// ---------------------------------------------------------------------------
// Timestamps
// ---------------------------------------------------------------------------

pub open spec fn i128_parse(s: Seq<char>) -> Option<int> {
    match parse_int(s, i128::MIN as int, i128::MAX as int) {
        Ok(v) => Some(v),
        Err(_) => None,
    }
}

/// Numbers below 10^12 are seconds, others milliseconds.
pub open spec fn numeric_millis(s: Seq<char>) -> Option<int> {
    match i128_parse(s) {
        Some(raw) => Some(if raw < 1_000_000_000_000 { raw * 1000 } else { raw }),
        None => None,
    }
}

/// A number of seconds that fits in milliseconds (otherwise the conversion overflows).
pub open spec fn numeric_fits(s: Seq<char>) -> bool {
    i128_parse(s) matches Some(raw) ==> raw * 1000 >= i128::MIN
}

/// Milliseconds since the epoch of a numeric timestamp, seconds below 10^12.
pub fn parse_numeric_timestamp(value: &str) -> (r: Option<i128>)
    requires
        numeric_fits(value@),
    ensures
        match r {
            Some(x) => numeric_millis(value@) == Some(x as int),
            None => numeric_millis(value@) is None,
        },
{
    let chars = chars_of(value);
    match parse_i128(&chars) {
        Ok(raw) => Some(if raw < 1_000_000_000_000 { raw * 1000 } else { raw }),
        Err(_) => None,
    }
}

/// What `time::OffsetDateTime::parse(s, &Rfc3339)` gives as Unix
/// nanoseconds (`unix_timestamp_nanos`), if `s` parses.
pub uninterp spec fn rfc3339_nanos(s: Seq<char>) -> Option<int>;

/// Calls `time::OffsetDateTime::parse` with the RFC 3339 format and reads the
/// instant's `unix_timestamp_nanos`; the result is named `rfc3339_nanos`.
#[verifier::external_body]
fn parse_rfc3339_nanos(s: &str) -> (r: Option<i128>)
    ensures
        match r {
            Some(x) => rfc3339_nanos(s@) == Some(x as int),
            None => rfc3339_nanos(s@) is None,
        },
{
    time::OffsetDateTime::parse(s, &time::format_description::well_known::Rfc3339)
        .ok()
        .map(|item| item.unix_timestamp_nanos())
}

/// Nanoseconds to whole milliseconds, rounded toward zero (as integer
/// division does, so an instant before 1970 rounds up).
pub open spec fn millis_from_nanos(n: int) -> int {
    if n >= 0 {
        n / 1_000_000
    } else {
        -((-n) / 1_000_000)
    }
}

/// The Unix milliseconds of an RFC 3339 timestamp, if it parses.
pub open spec fn rfc3339_millis(s: Seq<char>) -> Option<int> {
    match rfc3339_nanos(s) {
        Some(n) => Some(millis_from_nanos(n)),
        None => None,
    }
}

/// Whole milliseconds of a count of nanoseconds, rounded toward zero.
pub fn unix_millis_from_nanos(n: i128) -> (r: i128)
    ensures
        r as int == millis_from_nanos(n as int),
{
    if n >= 0 {
        n / 1_000_000
    } else {
        // -n may not fit, so work from -(n + 1), which does.
        let m: i128 = -(n + 1);
        let q: i128 = m / 1_000_000;
        let carry: i128 = if m % 1_000_000 == 999_999 {
            1
        } else {
            0
        };
        proof {
            let k = m as int;
            assert((k + 1) / 1_000_000 == k / 1_000_000 + (if k % 1_000_000 == 999_999 {
                1int
            } else {
                0int
            })) by (nonlinear_arith)
                requires
                    k >= 0,
            ;
        }
        -(q + carry)
    }
}

/// The Unix milliseconds of an RFC 3339 timestamp (nanoseconds rounded toward
/// zero), if it parses.
pub fn parse_rfc3339_millis(s: &str) -> (r: Option<i128>)
    ensures
        match r {
            Some(x) => rfc3339_millis(s@) == Some(x as int),
            None => rfc3339_millis(s@) is None,
        },
{
    match parse_rfc3339_nanos(s) {
        Some(n) => Some(unix_millis_from_nanos(n)),
        None => None,
    }
}

/// Milliseconds since the epoch of a candidate timestamp: blank gives none;
/// `epoch:<n>` and bare numbers are numeric (seconds below 10^12); anything
/// else is read as RFC 3339.
pub open spec fn timestamp_millis(v: Seq<char>) -> Option<int> {
    let t = trimmed(v);
    if t.len() == 0 {
        None
    } else if has_prefix(t, "epoch:"@) {
        numeric_millis(t.skip(6))
    } else {
        match numeric_millis(t) {
            Some(x) => Some(x),
            None => rfc3339_millis(t),
        }
    }
}

pub open spec fn timestamp_fits(v: Seq<char>) -> bool {
    let t = trimmed(v);
    numeric_fits(t) && (has_prefix(t, "epoch:"@) ==> numeric_fits(t.skip(6)))
}

pub fn parse_timestamp_millis(value: &str) -> (r: Option<i128>)
    requires
        timestamp_fits(value@),
    ensures
        match r {
            Some(x) => timestamp_millis(value@) == Some(x as int),
            None => timestamp_millis(value@) is None,
        },
{
    let t = trim_str(value);
    let chars = chars_of(t.as_str());
    if chars.len() == 0 {
        return None;
    }
    let prefix = chars_of("epoch:");
    if has_prefix_exec(&chars, &prefix) {
        proof {
            reveal_strlit("epoch:");
        }
        let rest = slice_from(&chars, 6);
        let rest_str = string_from_chars(&rest);
        return parse_numeric_timestamp(rest_str.as_str());
    }
    match parse_numeric_timestamp(t.as_str()) {
        Some(x) => Some(x),
        None => parse_rfc3339_millis(t.as_str()),
    }
}

fn numeric_fits_exec(chars: &[char]) -> (r: bool)
    ensures
        r == numeric_fits(chars@),
{
    match parse_i128(chars) {
        Ok(raw) => raw >= -170141183460469231731687303715884105i128,
        Err(_) => true,
    }
}

/// Whether a timestamp can be read without overflow (`timestamp_fits`):
/// a count of seconds must still fit once turned into milliseconds.
pub fn timestamp_in_range(value: &str) -> (r: bool)
    ensures
        r == timestamp_fits(value@),
{
    let t = trim_str(value);
    let chars = chars_of(t.as_str());
    if !numeric_fits_exec(&chars) {
        return false;
    }
    if has_prefix_exec(&chars, &chars_of("epoch:")) {
        proof {
            reveal_strlit("epoch:");
        }
        let rest = slice_from(&chars, 6);
        numeric_fits_exec(&rest)
    } else {
        true
    }
}

/// Of two timestamps, the older one; the left one when either does not parse.
pub open spec fn oldest_spec(left: Seq<char>, right: Seq<char>) -> Seq<char> {
    match (timestamp_millis(left), timestamp_millis(right)) {
        (Some(l), Some(r)) => if l <= r {
            left
        } else {
            right
        },
        _ => left,
    }
}

/// A candidate's update time is that of its older leg: the result is one of
/// the two timestamps, and when both read, its time is at most both of theirs
/// (the earlier one, the left one on a tie); when either does not read, it
/// is the left one.
pub proof fn law_oldest_is_earliest(left: Seq<char>, right: Seq<char>)
    ensures
        oldest_spec(left, right) == left || oldest_spec(left, right) == right,
        match (timestamp_millis(left), timestamp_millis(right)) {
            (Some(l), Some(r)) => timestamp_millis(oldest_spec(left, right)) matches Some(o) && o <= l && o <= r
                && (l == r ==> oldest_spec(left, right) == left),
            _ => oldest_spec(left, right) == left,
        },
{
}

pub fn oldest_updated_at(left: &str, right: &str) -> (r: String)
    requires
        timestamp_fits(left@),
        timestamp_fits(right@),
    ensures
        r@ == oldest_spec(left@, right@),
{
    match (parse_timestamp_millis(left), parse_timestamp_millis(right)) {
        (Some(l), Some(r)) => if l <= r {
            left.to_string()
        } else {
            right.to_string()
        },
        _ => left.to_string(),
    }
}


// ---------------------------------------------------------------------------
// The two legs of each symbol
// ---------------------------------------------------------------------------

/// The market rows a symbol's candidates are built from: the positions of
/// its spot row and of its perpetual row, where there is one.
#[derive(Debug, PartialEq, Eq)]
pub struct SymbolLegs {
    pub symbol: String,
    pub spot: Option<usize>,
    pub perpetual: Option<usize>,
}

/// The distinct symbols, in the order they first appear.
pub open spec fn first_symbols(symbols: Seq<Seq<char>>) -> Seq<Seq<char>>
    decreases symbols.len(),
{
    if symbols.len() == 0 {
        Seq::empty()
    } else {
        let prev = first_symbols(symbols.drop_last());
        if prev.contains(symbols.last()) {
            prev
        } else {
            prev.push(symbols.last())
        }
    }
}

pub open spec fn row_symbols(rows: Seq<RowKeyView>) -> Seq<Seq<char>> {
    rows.map_values(|r: RowKeyView| r.0)
}

/// The last row of `symbol` whose market type is `market` (ASCII case
/// ignored): a later row replaces an earlier one.
pub open spec fn last_leg(rows: Seq<RowKeyView>, symbol: Seq<char>, market: Seq<char>) -> Option<int>
    decreases rows.len(),
{
    if rows.len() == 0 {
        None
    } else if rows.last().0 == symbol && eq_ignore_case(rows.last().1, market) {
        Some(rows.len() - 1)
    } else {
        last_leg(rows.drop_last(), symbol, market)
    }
}

pub open spec fn opt_pos(o: Option<usize>) -> Option<int> {
    match o {
        Some(k) => Some(k as int),
        None => None,
    }
}

/// What the legs of the symbols of `rows` are.
pub open spec fn legs_match(legs: Seq<SymbolLegs>, rows: Seq<RowKeyView>) -> bool {
    &&& legs.len() == first_symbols(row_symbols(rows)).len()
    &&& forall|k: int| 0 <= k < legs.len() ==> {
        &&& (#[trigger] legs[k]).symbol@ == first_symbols(row_symbols(rows))[k]
        &&& opt_pos(legs[k].spot) == last_leg(rows, legs[k].symbol@, "spot"@)
        &&& opt_pos(legs[k].perpetual) == last_leg(rows, legs[k].symbol@, "perpetual"@)
    }
}

proof fn lemma_first_symbols_contains(symbols: Seq<Seq<char>>, s: Seq<char>)
    ensures
        first_symbols(symbols).contains(s) <==> symbols.contains(s),
        forall|a: int, b: int| 0 <= a < b < first_symbols(symbols).len() ==> first_symbols(symbols)[a] != first_symbols(symbols)[b],
    decreases symbols.len(),
{
    if symbols.len() > 0 {
        let d = symbols.drop_last();
        let last = symbols.last();
        lemma_first_symbols_contains(d, s);
        lemma_first_symbols_contains(d, last);
        assert(symbols.contains(s) <==> (d.contains(s) || s == last)) by {
            if symbols.contains(s) {
                let j = choose|j: int| 0 <= j < symbols.len() && symbols[j] == s;
                if j < d.len() {
                    assert(d[j] == s);
                }
            }
            if d.contains(s) {
                let j = choose|j: int| 0 <= j < d.len() && d[j] == s;
                assert(symbols[j] == s);
            }
            if s == last {
                assert(symbols[symbols.len() - 1] == s);
            }
        }
        let prev = first_symbols(d);
        if !prev.contains(last) {
            let np = prev.push(last);
            assert(first_symbols(symbols) == np);
            assert forall|a: int, b: int| 0 <= a < b < np.len() implies np[a] != np[b] by {
                if b == prev.len() {
                    assert(np[a] == prev[a]);
                    assert(prev.contains(prev[a]));
                } else {
                    assert(np[a] == prev[a] && np[b] == prev[b]);
                }
            }
            assert(np.contains(s) <==> (prev.contains(s) || s == last)) by {
                if np.contains(s) {
                    let j = choose|j: int| 0 <= j < np.len() && np[j] == s;
                    if j < prev.len() {
                        assert(prev[j] == s);
                    }
                }
                if prev.contains(s) {
                    let j = choose|j: int| 0 <= j < prev.len() && prev[j] == s;
                    assert(np[j] == s);
                }
                if s == last {
                    assert(np[prev.len() as int] == s);
                }
            }
        }
    }
}

/// Each symbol of the market rows gets exactly one entry of legs, and no
/// entry is for a symbol without rows.
pub proof fn law_each_symbol_grouped_once(rows: Seq<RowKeyView>)
    ensures
        first_symbols(row_symbols(rows)).no_duplicates(),
        forall|s: Seq<char>| #[trigger] first_symbols(row_symbols(rows)).contains(s) <==> row_symbols(rows).contains(s),
{
    let syms = row_symbols(rows);
    let fs = first_symbols(syms);
    assert forall|s: Seq<char>| #[trigger] fs.contains(s) <==> syms.contains(s) by {
        lemma_first_symbols_contains(syms, s);
    }
    lemma_first_symbols_contains(syms, Seq::empty());
    assert forall|a: int, b: int| 0 <= a < fs.len() && 0 <= b < fs.len() && a != b implies fs[a] != fs[b] by {
        if a < b {
            assert(fs[a] != fs[b]);
        } else {
            assert(fs[b] != fs[a]);
        }
    }
}

proof fn lemma_last_leg_absent(rows: Seq<RowKeyView>, symbol: Seq<char>, market: Seq<char>)
    requires
        !row_symbols(rows).contains(symbol),
    ensures
        last_leg(rows, symbol, market) is None,
    decreases rows.len(),
{
    if rows.len() > 0 {
        let d = rows.drop_last();
        assert(row_symbols(rows)[rows.len() - 1] == rows.last().0);
        if row_symbols(d).contains(symbol) {
            let j = choose|j: int| 0 <= j < d.len() && row_symbols(d)[j] == symbol;
            assert(row_symbols(rows)[j] == symbol);
        }
        lemma_last_leg_absent(d, symbol, market);
    }
}

/// Finds the entry for `symbol`.
fn find_legs(legs: &Vec<SymbolLegs>, symbol: &[char]) -> (r: Option<usize>)
    ensures
        match r {
            Some(k) => k < legs.len() && legs@[k as int].symbol@ == symbol@,
            None => forall|k: int| 0 <= k < legs.len() ==> (#[trigger] legs@[k]).symbol@ != symbol@,
        },
{
    let mut k: usize = 0;
    while k < legs.len()
        invariant
            k <= legs.len(),
            forall|j: int| 0 <= j < k ==> (#[trigger] legs@[j]).symbol@ != symbol@,
        decreases legs.len() - k,
    {
        if chars_eq(&chars_of(legs[k].symbol.as_str()), symbol) {
            return Some(k);
        }
        k += 1;
    }
    None
}

/// Pairs each symbol of the market rows with its spot row and its perpetual
/// row (for a market type met twice, the later row), symbols in the order
/// they first appear.
pub fn group_rows_by_symbol(rows: &[MarketRowKey]) -> (r: Vec<SymbolLegs>)
    ensures
        legs_match(r@, row_key_views(rows@)),
{
    let ghost rv = row_key_views(rows@);
    let mut legs: Vec<SymbolLegs> = Vec::new();
    let mut i: usize = 0;
    while i < rows.len()
        invariant
            i <= rows.len(),
            rv == row_key_views(rows@),
            legs_match(legs@, rv.take(i as int)),
        decreases rows.len() - i,
    {
        let ghost before = rv.take(i as int);
        let ghost after = rv.take(i + 1);
        let ghost sym = rows@[i as int].symbol@;
        let ghost fs = first_symbols(row_symbols(before));
        proof {
            assert(after.drop_last() =~= before);
            assert(after.last() == rv[i as int]);
            assert(rv[i as int].0 == sym);
            assert(row_symbols(after) =~= row_symbols(before).push(sym));
            assert(row_symbols(after).drop_last() =~= row_symbols(before));
            lemma_first_symbols_contains(row_symbols(before), sym);
        }
        let symbol = chars_of(rows[i].symbol.as_str());
        let market = chars_of(rows[i].market_type.as_str());
        let is_spot = eq_ignore_case_exec(&market, &chars_of("spot"));
        let is_perpetual = eq_ignore_case_exec(&market, &chars_of("perpetual"));
        proof {
            reveal_strlit("spot");
            reveal_strlit("perpetual");
        }
        let k = match find_legs(&legs, &symbol) {
            Some(k) => k,
            None => {
                proof {
                    if fs.contains(sym) {
                        let j = choose|j: int| 0 <= j < fs.len() && fs[j] == sym;
                        assert(legs@[j].symbol@ == fs[j]);
                    }
                    lemma_last_leg_absent(before, sym, "spot"@);
                    lemma_last_leg_absent(before, sym, "perpetual"@);
                }
                legs.push(SymbolLegs { symbol: rows[i].symbol.clone(), spot: None, perpetual: None });
                legs.len() - 1
            },
        };
        let ghost mid = legs@;
        proof {
            assert(mid[k as int].symbol@ == sym);
            assert(first_symbols(row_symbols(after)).len() == mid.len());
            assert forall|j: int| 0 <= j < mid.len() implies {
                &&& (#[trigger] mid[j]).symbol@ == first_symbols(row_symbols(after))[j]
                &&& (j != k ==> opt_pos(mid[j].spot) == last_leg(after, mid[j].symbol@, "spot"@))
                &&& (j != k ==> opt_pos(mid[j].perpetual) == last_leg(after, mid[j].symbol@, "perpetual"@))
                &&& (j == k ==> opt_pos(mid[j].spot) == last_leg(before, sym, "spot"@))
                &&& (j == k ==> opt_pos(mid[j].perpetual) == last_leg(before, sym, "perpetual"@))
            } by {
                lemma_first_symbols_contains(row_symbols(before), sym);
                if j != k {
                    assert(mid[j].symbol@ != sym);
                }
            }
        }
        let entry = SymbolLegs {
            symbol: rows[i].symbol.clone(),
            spot: if is_spot { Some(i) } else { legs[k].spot },
            perpetual: if !is_spot && is_perpetual { Some(i) } else { legs[k].perpetual },
        };
        legs.set(k, entry);
        proof {
            reveal_strlit("spot");
            reveal_strlit("perpetual");
            assert(ascii_lower("spot"@).len() == 4);
            assert(ascii_lower("perpetual"@).len() == 9);
            assert(!(eq_ignore_case(rv[i as int].1, "spot"@) && eq_ignore_case(rv[i as int].1, "perpetual"@)));
            assert forall|j: int| 0 <= j < legs@.len() implies {
                &&& (#[trigger] legs@[j]).symbol@ == first_symbols(row_symbols(after))[j]
                &&& opt_pos(legs@[j].spot) == last_leg(after, legs@[j].symbol@, "spot"@)
                &&& opt_pos(legs@[j].perpetual) == last_leg(after, legs@[j].symbol@, "perpetual"@)
            } by {
                if j == k {
                    assert(mid[j].symbol@ == first_symbols(row_symbols(after))[j]);
                } else {
                    assert(legs@[j] == mid[j]);
                    assert(mid[j].symbol@ == first_symbols(row_symbols(after))[j]);
                }
            }
        }
        i += 1;
    }
    assert(rv.take(rows.len() as int) =~= rv);
    legs
}

} // verus!
