//! Market universe: supported exchanges, scan targets and their order,
//! watchlist normalisation, asset names and size tiers, cache keys.
use vstd::prelude::*;

use crate::order::{lemma_lex_antisym, lemma_lex_total, lemma_lex_trans, lex_le, lex_le_exec, lex_lt, lex_order, sort_lex};
use crate::seqs::{
    first_occurrences, lemma_first_occurrences, lemma_first_occurrences_idempotent, lemma_insert_at,
    lemma_sort_of_sorted, lemma_sort_keeps_elements,
    lemma_sort_sorted, sort_stable, sorted_by, total_preorder,
};
use crate::text::{
    string_views,
    ascii_upper, ascii_upper_vec, before_char, chars_eq, chars_of, eq_ignore_case,
    eq_ignore_case_exec, has_infix, has_infix_exec, has_prefix, has_prefix_exec, string_from_chars,
    to_lowercase_str, to_uppercase_str, trim_str, trimmed, unicode_lower, unicode_upper,
};

verus! {

// ---------------------------------------------------------------------------
// Exchanges
// ---------------------------------------------------------------------------

/// The exchanges the market data layer can talk to.
pub open spec fn supported_exchange_names() -> Seq<Seq<char>> {
    seq!["akshare"@]
}

/// `list` restricted to the names that some entry of `enabled` names, ignoring ASCII case.
pub open spec fn keep_enabled(list: Seq<Seq<char>>, enabled: Seq<Seq<char>>) -> Seq<Seq<char>>
    decreases list.len(),
{
    if list.len() == 0 {
        list
    } else {
        let prev = keep_enabled(list.drop_last(), enabled);
        if exists|i: int| 0 <= i < enabled.len() && eq_ignore_case(#[trigger] enabled[i], list.last()) {
            prev.push(list.last())
        } else {
            prev
        }
    }
}

pub open spec fn str_views(v: Seq<&str>) -> Seq<Seq<char>> {
    v.map_values(|s: &str| s@)
}

/// The exchanges the market data layer can talk to.
pub fn supported_exchanges() -> (r: Vec<&'static str>)
    ensures
        str_views(r@) == supported_exchange_names(),
{
    let r = vec!["akshare"];
    assert(str_views(r@) =~= supported_exchange_names());
    r
}

/// Whether `enabled` names `name` ignoring ASCII case.
fn names_any_ignore_case(enabled: &[String], name: &[char]) -> (r: bool)
    ensures
        r == exists|i: int| 0 <= i < enabled@.len() && eq_ignore_case(#[trigger] string_views(enabled@)[i], name@),
{
    let mut i: usize = 0;
    while i < enabled.len()
        invariant
            i <= enabled.len(),
            forall|j: int| 0 <= j < i ==> !eq_ignore_case(#[trigger] string_views(enabled@)[j], name@),
        decreases enabled.len() - i,
    {
        let candidate = chars_of(enabled[i].as_str());
        if eq_ignore_case_exec(&candidate, name) {
            assert(string_views(enabled@)[i as int] == enabled@[i as int]@);
            return true;
        }
        i += 1;
    }
    false
}

/// The supported exchanges that `enabled_exchanges` switches on (ASCII case ignored),
/// in the order of the supported list.
pub fn enabled_exchange_universe(enabled_exchanges: &[String]) -> (r: Vec<&'static str>)
    ensures
        str_views(r@) == keep_enabled(supported_exchange_names(), string_views(enabled_exchanges@)),
{
    let supported = supported_exchanges();
    let mut out: Vec<&'static str> = Vec::new();
    let mut i: usize = 0;
    while i < supported.len()
        invariant
            i <= supported.len(),
            str_views(supported@) == supported_exchange_names(),
            str_views(out@) == keep_enabled(str_views(supported@).take(i as int), string_views(enabled_exchanges@)),
        decreases supported.len() - i,
    {
        let name = supported[i];
        let name_chars = chars_of(name);
        let on = names_any_ignore_case(enabled_exchanges, &name_chars);
        let ghost before = str_views(supported@).take(i as int);
        let ghost after = str_views(supported@).take(i + 1);
        assert(after.drop_last() =~= before);
        assert(after.last() == name@);
        if on {
            out.push(name);
            assert(str_views(out@) =~= keep_enabled(before, string_views(enabled_exchanges@)).push(name@));
        }
        i += 1;
    }
    assert(str_views(supported@).take(supported.len() as int) =~= str_views(supported@));
    out
}

/// An exchange counts as enabled when nothing is configured, or when the
/// configuration names it (ASCII case ignored).
pub open spec fn exchange_enabled(exchange: Seq<char>, enabled: Seq<Seq<char>>) -> bool {
    enabled.len() == 0 || exists|i: int| 0 <= i < enabled.len() && eq_ignore_case(#[trigger] enabled[i], exchange)
}

pub fn exchange_is_enabled(exchange: &str, enabled_exchanges: &[String]) -> (r: bool)
    ensures
        r == exchange_enabled(exchange@, string_views(enabled_exchanges@)),
{
    if enabled_exchanges.len() == 0 {
        return true;
    }
    let name = chars_of(exchange);
    let found = names_any_ignore_case(enabled_exchanges, &name);
    proof {
        let ev = string_views(enabled_exchanges@);
        if found {
            let i = choose|i: int| 0 <= i < enabled_exchanges@.len() && eq_ignore_case(#[trigger] ev[i], name@);
            assert(eq_ignore_case(ev[i], exchange@));
        } else {
            assert forall|i: int| 0 <= i < ev.len() implies !eq_ignore_case(#[trigger] ev[i], exchange@) by {
                assert(!eq_ignore_case(ev[i], name@));
            }
        }
    }
    found
}

// ---------------------------------------------------------------------------
// Scan targets
// ---------------------------------------------------------------------------

/// A symbol in one market (spot, perpetual, ...).
#[derive(Debug, PartialEq, Eq, Hash)]
pub struct MarketTarget {
    pub symbol: String,
    pub market_type: String,
}

pub type TargetView = (Seq<char>, Seq<char>);

impl View for MarketTarget {
    type V = TargetView;

    open spec fn view(&self) -> TargetView {
        (self.symbol@, self.market_type@)
    }
}

pub open spec fn target_views(v: Seq<MarketTarget>) -> Seq<TargetView> {
    v.map_values(|t: MarketTarget| t@)
}

impl MarketTarget {
    pub fn new(symbol: &str, market_type: &str) -> (t: MarketTarget)
        ensures
            t@ == (symbol@, market_type@),
    {
        MarketTarget { symbol: symbol.to_string(), market_type: market_type.to_string() }
    }

    pub fn duplicate(&self) -> (t: MarketTarget)
        ensures
            t@ == self@,
    {
        MarketTarget { symbol: self.symbol.clone(), market_type: self.market_type.clone() }
    }
}

/// Symbols that sort before all others, in this order.
pub open spec fn priority_rank(symbol: Seq<char>) -> int {
    if eq_ignore_case("SHSE.600000"@, symbol) {
        0
    } else if eq_ignore_case("SZSE.000001"@, symbol) {
        1
    } else if eq_ignore_case("SHSE.600519"@, symbol) {
        2
    } else {
        (usize::MAX / 2) as int
    }
}

/// Position of `symbol` among the priority symbols (ASCII case ignored);
/// `usize::MAX / 2` for every other symbol.
pub fn symbol_priority(symbol: &str) -> (r: usize)
    ensures
        r == priority_rank(symbol@),
{
    let s = chars_of(symbol);
    if eq_ignore_case_exec(&chars_of("SHSE.600000"), &s) {
        0
    } else if eq_ignore_case_exec(&chars_of("SZSE.000001"), &s) {
        1
    } else if eq_ignore_case_exec(&chars_of("SHSE.600519"), &s) {
        2
    } else {
        usize::MAX / 2
    }
}

pub open spec fn market_rank(market_type: Seq<char>) -> int {
    if market_type == "spot"@ {
        0
    } else {
        1
    }
}

/// Sort key of a symbol: its priority, then the symbol itself.
pub fn symbol_sort_key(symbol: &str) -> (r: (usize, String))
    ensures
        r.0 == priority_rank(symbol@),
        r.1@ == symbol@,
{
    (symbol_priority(symbol), symbol.to_string())
}

/// Sort key of a target: symbol priority, spot before other markets, then the symbol.
pub fn market_target_sort_key(target: &MarketTarget) -> (r: (usize, usize, String))
    ensures
        r.0 == priority_rank(target.symbol@),
        r.1 == market_rank(target.market_type@),
        r.2@ == target.symbol@,
{
    let mt = chars_of(target.market_type.as_str());
    let spot = chars_of("spot");
    let market_rank: usize = if chars_eq(&mt, &spot) { 0 } else { 1 };
    (symbol_priority(target.symbol.as_str()), market_rank, target.symbol.clone())
}

/// The order targets are listed in.
pub open spec fn target_le(a: TargetView, b: TargetView) -> bool {
    let (pa, pb) = (priority_rank(a.0), priority_rank(b.0));
    let (ra, rb) = (market_rank(a.1), market_rank(b.1));
    pa < pb || (pa == pb && (ra < rb || (ra == rb && lex_le(a.0, b.0))))
}

pub open spec fn target_order() -> spec_fn(TargetView, TargetView) -> bool {
    |a: TargetView, b: TargetView| target_le(a, b)
}

/// The order symbols are listed in.
pub open spec fn symbol_le(a: Seq<char>, b: Seq<char>) -> bool {
    let (pa, pb) = (priority_rank(a), priority_rank(b));
    pa < pb || (pa == pb && lex_le(a, b))
}

pub open spec fn symbol_order() -> spec_fn(Seq<char>, Seq<char>) -> bool {
    |a: Seq<char>, b: Seq<char>| symbol_le(a, b)
}

fn target_le_exec(a: &MarketTarget, b: &MarketTarget) -> (r: bool)
    ensures
        r == target_le(a@, b@),
{
    let ka = market_target_sort_key(a);
    let kb = market_target_sort_key(b);
    if ka.0 != kb.0 {
        return ka.0 < kb.0;
    }
    if ka.1 != kb.1 {
        return ka.1 < kb.1;
    }
    lex_le_exec(&chars_of(ka.2.as_str()), &chars_of(kb.2.as_str()))
}

fn symbol_le_exec(a: &String, b: &String) -> (r: bool)
    ensures
        r == symbol_le(a@, b@),
{
    let ka = symbol_sort_key(a.as_str());
    let kb = symbol_sort_key(b.as_str());
    if ka.0 != kb.0 {
        return ka.0 < kb.0;
    }
    lex_le_exec(&chars_of(ka.1.as_str()), &chars_of(kb.1.as_str()))
}

/// Stable insertion sort of targets by `target_le`.
fn sort_targets(v: Vec<MarketTarget>) -> (r: Vec<MarketTarget>)
    ensures
        target_views(r@) == sort_stable(target_views(v@), target_order()),
{
    let mut out: Vec<MarketTarget> = Vec::new();
    let mut i: usize = 0;
    let ghost vv = target_views(v@);
    while i < v.len()
        invariant
            i <= v.len(),
            vv == target_views(v@),
            target_views(out@) == sort_stable(vv.take(i as int), target_order()),
        decreases v.len() - i,
    {
        let x = v[i].duplicate();
        let mut k: usize = out.len();
        while k > 0 && !target_le_exec(&out[k - 1], &x)
            invariant
                k <= out.len(),
                forall|j: int| k <= j < out.len() ==> !target_le(#[trigger] target_views(out@)[j], x@),
            decreases k,
        {
            k -= 1;
        }
        let ghost before = target_views(out@);
        proof {
            assert(k == 0 || target_le(before[k - 1], x@));
            assert forall|j: int| k <= j < before.len() implies !(target_order())(#[trigger] before[j], x@) by {}
            lemma_insert_at(before, x@, target_order(), k as int);
            assert(vv.take(i + 1).drop_last() =~= vv.take(i as int));
            assert(vv.take(i + 1).last() == x@);
        }
        out.insert(k, x);
        assert(target_views(out@) =~= before.take(k as int).push(x@) + before.skip(k as int));
        i += 1;
    }
    assert(vv.take(v.len() as int) =~= vv);
    out
}

/// Whether `out` already holds a target equal to `t`.
fn contains_target(out: &Vec<MarketTarget>, t: &MarketTarget) -> (r: bool)
    ensures
        r == target_views(out@).contains(t@),
{
    let sym = chars_of(t.symbol.as_str());
    let mt = chars_of(t.market_type.as_str());
    let mut j: usize = 0;
    while j < out.len()
        invariant
            j <= out.len(),
            sym@ == t.symbol@,
            mt@ == t.market_type@,
            forall|m: int| 0 <= m < j ==> target_views(out@)[m] != t@,
        decreases out.len() - j,
    {
        let osym = chars_of(out[j].symbol.as_str());
        let omt = chars_of(out[j].market_type.as_str());
        let same_symbol = chars_eq(&osym, &sym);
        let same_market = chars_eq(&omt, &mt);
        assert(target_views(out@)[j as int] == (osym@, omt@));
        if same_symbol && same_market {
            return true;
        }
        j += 1;
    }
    false
}

/// Keeps the first occurrence of every (symbol, market type) pair and lists
/// the result in target order.
pub fn dedupe_market_targets(targets: Vec<MarketTarget>) -> (r: Vec<MarketTarget>)
    ensures
        target_views(r@) == sort_stable(first_occurrences(target_views(targets@)), target_order()),
{
    let ghost tv = target_views(targets@);
    let mut out: Vec<MarketTarget> = Vec::new();
    let mut i: usize = 0;
    while i < targets.len()
        invariant
            i <= targets.len(),
            tv == target_views(targets@),
            target_views(out@) == first_occurrences(tv.take(i as int)),
        decreases targets.len() - i,
    {
        let t = &targets[i];
        let seen = contains_target(&out, t);
        proof {
            let pre = tv.take(i as int);
            lemma_first_occurrences(pre);
            assert(tv.take(i + 1).drop_last() =~= pre);
            assert(tv.take(i + 1).last() == t@);
        }
        if !seen {
            out.push(t.duplicate());
            assert(target_views(out@) =~= first_occurrences(tv.take(i as int)).push(t@));
        }
        i += 1;
    }
    assert(tv.take(targets.len() as int) =~= tv);
    sort_targets(out)
}

/// The targets a scan covers: all of them.
pub fn limited_market_targets(targets: &[MarketTarget]) -> (r: Vec<MarketTarget>)
    ensures
        target_views(r@) == target_views(targets@),
{
    let mut out: Vec<MarketTarget> = Vec::new();
    let mut i: usize = 0;
    while i < targets.len()
        invariant
            i <= targets.len(),
            target_views(out@) == target_views(targets@).take(i as int),
        decreases targets.len() - i,
    {
        let t = targets[i].duplicate();
        let ghost old_out = target_views(out@);
        assert(target_views(targets@)[i as int] == t@);
        out.push(t);
        assert(target_views(out@) =~= old_out.push(t@));
        assert(target_views(targets@).take(i + 1) =~= target_views(targets@).take(i as int).push(t@));
        i += 1;
    }
    assert(target_views(targets@).take(targets.len() as int) =~= target_views(targets@));
    out
}

/// Stable insertion sort of symbols by `symbol_le`.
fn sort_symbols(v: Vec<String>) -> (r: Vec<String>)
    ensures
        string_views(r@) == sort_stable(string_views(v@), symbol_order()),
{
    let mut out: Vec<String> = Vec::new();
    let mut i: usize = 0;
    let ghost vv = string_views(v@);
    while i < v.len()
        invariant
            i <= v.len(),
            vv == string_views(v@),
            string_views(out@) == sort_stable(vv.take(i as int), symbol_order()),
        decreases v.len() - i,
    {
        let x = v[i].clone();
        let mut k: usize = out.len();
        while k > 0 && !symbol_le_exec(&out[k - 1], &x)
            invariant
                k <= out.len(),
                forall|j: int| k <= j < out.len() ==> !symbol_le(#[trigger] string_views(out@)[j], x@),
            decreases k,
        {
            k -= 1;
        }
        let ghost before = string_views(out@);
        proof {
            assert(k == 0 || symbol_le(before[k - 1], x@));
            assert forall|j: int| k <= j < before.len() implies !(symbol_order())(#[trigger] before[j], x@) by {}
            lemma_insert_at(before, x@, symbol_order(), k as int);
            assert(vv.take(i + 1).drop_last() =~= vv.take(i as int));
            assert(vv.take(i + 1).last() == x@);
        }
        out.insert(k, x);
        assert(string_views(out@) =~= before.take(k as int).push(x@) + before.skip(k as int));
        i += 1;
    }
    assert(vv.take(v.len() as int) =~= vv);
    out
}

/// Whether `out` already holds the string `s`.
fn contains_string(out: &Vec<String>, s: &String) -> (r: bool)
    ensures
        r == string_views(out@).contains(s@),
{
    let sc = chars_of(s.as_str());
    let mut j: usize = 0;
    while j < out.len()
        invariant
            j <= out.len(),
            sc@ == s@,
            forall|m: int| 0 <= m < j ==> string_views(out@)[m] != s@,
        decreases out.len() - j,
    {
        if chars_eq(&chars_of(out[j].as_str()), &sc) {
            assert(string_views(out@)[j as int] == s@);
            return true;
        }
        j += 1;
    }
    false
}

pub open spec fn target_symbols(v: Seq<MarketTarget>) -> Seq<Seq<char>> {
    v.map_values(|t: MarketTarget| t.symbol@)
}

/// The distinct symbols of `targets`, in symbol order.
pub fn market_symbols_from_targets(targets: &[MarketTarget]) -> (r: Vec<String>)
    ensures
        string_views(r@) == sort_stable(first_occurrences(target_symbols(targets@)), symbol_order()),
{
    let ghost sv = target_symbols(targets@);
    let mut out: Vec<String> = Vec::new();
    let mut i: usize = 0;
    while i < targets.len()
        invariant
            i <= targets.len(),
            sv == target_symbols(targets@),
            string_views(out@) == first_occurrences(sv.take(i as int)),
        decreases targets.len() - i,
    {
        let s = targets[i].symbol.clone();
        let seen = contains_string(&out, &s);
        proof {
            let pre = sv.take(i as int);
            lemma_first_occurrences(pre);
            assert(sv.take(i + 1).drop_last() =~= pre);
            assert(sv.take(i + 1).last() == s@);
        }
        if !seen {
            out.push(s);
            assert(string_views(out@) =~= first_occurrences(sv.take(i as int)).push(s@));
        }
        i += 1;
    }
    assert(sv.take(targets.len() as int) =~= sv);
    sort_symbols(out)
}

/// Targets are ordered by a total preorder.
pub proof fn lemma_target_order_total()
    ensures
        total_preorder(target_order()),
{
    let le = target_order();
    assert forall|a: TargetView, b: TargetView| #[trigger] le(a, b) || le(b, a) by {
        lemma_lex_total(a.0, b.0);
    }
    assert forall|a: TargetView, b: TargetView, c: TargetView| #[trigger] le(a, b) && #[trigger] le(b, c) implies le(a, c) by {
        if lex_le(a.0, b.0) && lex_le(b.0, c.0) {
            lemma_lex_trans(a.0, b.0, c.0);
        }
    }
}

/// Symbols are ordered by a total preorder.
pub proof fn lemma_symbol_order_total()
    ensures
        total_preorder(symbol_order()),
{
    let le = symbol_order();
    assert forall|a: Seq<char>, b: Seq<char>| #[trigger] le(a, b) || le(b, a) by {
        lemma_lex_total(a, b);
    }
    assert forall|a: Seq<char>, b: Seq<char>, c: Seq<char>| #[trigger] le(a, b) && #[trigger] le(b, c) implies le(a, c) by {
        if lex_le(a, b) && lex_le(b, c) {
            lemma_lex_trans(a, b, c);
        }
    }
}

/// Deduplicated targets hold every discovered (symbol, market) pair exactly
/// once, nothing else, and are listed in target order; deduplicating them
/// again changes nothing.
pub proof fn law_dedupe_targets(targets: Seq<TargetView>)
    ensures
        sort_stable(first_occurrences(targets), target_order()).no_duplicates(),
        forall|t: TargetView| sort_stable(first_occurrences(targets), target_order()).contains(t)
            <==> targets.contains(t),
        sorted_by(sort_stable(first_occurrences(targets), target_order()), target_order()),
        sort_stable(first_occurrences(sort_stable(first_occurrences(targets), target_order())), target_order())
            == sort_stable(first_occurrences(targets), target_order()),
{
    let r = sort_stable(first_occurrences(targets), target_order());
    lemma_first_occurrences(targets);
    lemma_sort_keeps_elements(first_occurrences(targets), target_order());
    lemma_target_order_total();
    lemma_sort_sorted(first_occurrences(targets), target_order());
    lemma_first_occurrences_idempotent(r);
    lemma_sort_of_sorted(r, target_order());
}

/// The symbol options of a target list name each symbol of the list exactly
/// once, nothing else, in symbol order.
pub proof fn law_symbol_options(symbols: Seq<Seq<char>>)
    ensures
        sort_stable(first_occurrences(symbols), symbol_order()).no_duplicates(),
        forall|s: Seq<char>| sort_stable(first_occurrences(symbols), symbol_order()).contains(s)
            <==> symbols.contains(s),
        sorted_by(sort_stable(first_occurrences(symbols), symbol_order()), symbol_order()),
{
    lemma_first_occurrences(symbols);
    lemma_sort_keeps_elements(first_occurrences(symbols), symbol_order());
    lemma_symbol_order_total();
    lemma_sort_sorted(first_occurrences(symbols), symbol_order());
}

// ---------------------------------------------------------------------------
// Fallback targets
// ---------------------------------------------------------------------------

/// The symbols scanned when discovery yields nothing.
pub open spec fn default_market_symbols() -> Seq<Seq<char>> {
    seq!["SHSE.600000"@, "SZSE.000001"@, "SHSE.600519"@]
}

/// Each default symbol as a spot and as a perpetual target.
pub open spec fn fallback_targets_spec() -> Seq<TargetView> {
    let d = default_market_symbols();
    seq![
        (d[0], "spot"@), (d[0], "perpetual"@),
        (d[1], "spot"@), (d[1], "perpetual"@),
        (d[2], "spot"@), (d[2], "perpetual"@),
    ]
}

pub fn fallback_market_targets() -> (r: Vec<MarketTarget>)
    ensures
        target_views(r@) == fallback_targets_spec(),
{
    let r = vec![
        MarketTarget::new("SHSE.600000", "spot"),
        MarketTarget::new("SHSE.600000", "perpetual"),
        MarketTarget::new("SZSE.000001", "spot"),
        MarketTarget::new("SZSE.000001", "perpetual"),
        MarketTarget::new("SHSE.600519", "spot"),
        MarketTarget::new("SHSE.600519", "perpetual"),
    ];
    assert(target_views(r@) =~= fallback_targets_spec());
    r
}

// ---------------------------------------------------------------------------
// Assets
// ---------------------------------------------------------------------------

pub const MARKET_SIZE_TIER_LARGE: &'static str = "large";
pub const MARKET_SIZE_TIER_MID: &'static str = "mid";
pub const MARKET_SIZE_TIER_SMALL: &'static str = "small";

/// The base asset of a pair such as `BTC/USDT`: the text before the first `/`,
/// trimmed and upper-cased (ASCII).
pub open spec fn base_asset_spec(symbol: Seq<char>) -> Seq<char> {
    ascii_upper(trimmed(before_char(symbol, '/')))
}

pub fn before_char_exec(s: &[char], sep: char) -> (r: Vec<char>)
    ensures
        r@ == before_char(s@, sep),
{
    let mut out: Vec<char> = Vec::new();
    let mut i: usize = 0;
    assert(s@.skip(0) =~= s@);
    assert(out@ + before_char(s@, sep) =~= before_char(s@, sep));
    while i < s.len()
        invariant
            i <= s.len(),
            before_char(s@, sep) == out@ + before_char(s@.skip(i as int), sep),
        decreases s.len() - i,
    {
        assert(s@.skip(i as int)[0] == s@[i as int]);
        assert(s@.skip(i as int).drop_first() =~= s@.skip(i + 1));
        if s[i] == sep {
            assert(before_char(s@.skip(i as int), sep) == Seq::<char>::empty());
            assert(out@ + Seq::<char>::empty() =~= out@);
            return out;
        }
        out.push(s[i]);
        assert(before_char(s@, sep) =~= out@ + before_char(s@.skip(i + 1), sep));
        i += 1;
    }
    assert(s@.skip(i as int) =~= Seq::<char>::empty());
    assert(out@ + Seq::<char>::empty() =~= out@);
    out
}

pub fn base_asset_from_symbol(symbol: &str) -> (r: String)
    ensures
        r@ == base_asset_spec(symbol@),
{
    let chars = chars_of(symbol);
    assert(chars@.skip(0) =~= chars@);
    let head = before_char_exec(&chars, '/');
    let head_str = string_from_chars(&head);
    let trimmed_head = trim_str(head_str.as_str());
    let upper = ascii_upper_vec(&chars_of(trimmed_head.as_str()));
    string_from_chars(&upper)
}

pub open spec fn size_tier_spec(rank: Option<i64>) -> Seq<char> {
    match rank {
        Some(r) if 1 <= r <= 20 => "large"@,
        Some(r) if 21 <= r <= 100 => "mid"@,
        _ => "small"@,
    }
}

/// Size tier from a market-cap rank: 1-20 large, 21-100 mid, otherwise small.
pub fn classify_market_size_tier(rank: Option<i64>) -> (r: &'static str)
    ensures
        r@ == size_tier_spec(rank),
{
    match rank {
        Some(r) if 1 <= r && r <= 20 => MARKET_SIZE_TIER_LARGE,
        Some(r) if 21 <= r && r <= 100 => MARKET_SIZE_TIER_MID,
        _ => MARKET_SIZE_TIER_SMALL,
    }
}

/// Asset metadata is never refreshed from a live provider in the A-share build.
pub fn metadata_refresh_is_due(last_fetched_at: Option<&str>, now: &str) -> (r: bool)
    ensures
        !r,
{
    false
}

/// Outcome of an asset metadata refresh.
#[derive(Debug, Clone, Copy, PartialEq, Eq)]
pub struct AssetMetadataRefreshResult {
    pub row_count: usize,
    pub partial: bool,
}

// ---------------------------------------------------------------------------
// Market rows
// ---------------------------------------------------------------------------

/// What one venue's snapshot contributes to a market row besides its prices.
#[derive(Debug, Clone, PartialEq, Eq)]
pub struct VenueSnapshotFacts {
    pub exchange: String,
    pub updated_at: String,
    pub stale: bool,
}

/// The parts of a market row built from several venues that do not involve
/// prices: names, the venues in order, the latest update, staleness.
#[derive(Debug)]
pub struct MarketRowFrame {
    pub symbol: String,
    pub base_asset: String,
    pub market_type: String,
    pub market_size_tier: &'static str,
    pub exchanges: Vec<String>,
    pub updated_at: String,
    pub stale: bool,
    pub responded_exchange_count: u32,
}

/// The greatest sequence of `s` in lexicographic order (empty for none).
pub open spec fn lex_max(s: Seq<Seq<char>>) -> Seq<char>
    decreases s.len(),
{
    if s.len() == 0 {
        Seq::empty()
    } else {
        let m = lex_max(s.drop_last());
        if lex_le(m, s.last()) {
            s.last()
        } else {
            m
        }
    }
}

pub open spec fn venue_exchanges(v: Seq<VenueSnapshotFacts>) -> Seq<Seq<char>> {
    v.map_values(|f: VenueSnapshotFacts| f.exchange@)
}

pub open spec fn venue_updates(v: Seq<VenueSnapshotFacts>) -> Seq<Seq<char>> {
    v.map_values(|f: VenueSnapshotFacts| f.updated_at@)
}

pub const NO_SNAPSHOTS_MESSAGE: &'static str = "cannot build market row without snapshots";

/// The price-free part of the market row of `symbol` aggregated over
/// `venues`; refused when there is no venue.
pub fn market_row_frame(symbol: &str, market_type: &str, venues: &[VenueSnapshotFacts]) -> (r: Result<MarketRowFrame, String>)
    ensures
        venues@.len() == 0 ==> (r matches Err(m) && m@ == NO_SNAPSHOTS_MESSAGE@),
        venues@.len() > 0 ==> (r matches Ok(f) && {
            &&& f.symbol@ == symbol@
            &&& f.base_asset@ == base_asset_spec(symbol@)
            &&& f.market_type@ == market_type@
            &&& f.market_size_tier@ == size_tier_spec(None)
            &&& string_views(f.exchanges@) == sort_stable(venue_exchanges(venues@), lex_order())
            &&& f.updated_at@ == lex_max(venue_updates(venues@))
            &&& f.stale == exists|i: int| 0 <= i < venues@.len() && (#[trigger] venues@[i]).stale
            &&& f.responded_exchange_count == venues@.len() as u32
        }),
{
    if venues.len() == 0 {
        return Err(NO_SNAPSHOTS_MESSAGE.to_string());
    }
    let mut exchanges: Vec<String> = Vec::new();
    let mut latest: Vec<char> = Vec::new();
    let mut stale = false;
    let mut i: usize = 0;
    let ghost ev = venue_exchanges(venues@);
    let ghost uv = venue_updates(venues@);
    while i < venues.len()
        invariant
            i <= venues.len(),
            ev == venue_exchanges(venues@),
            uv == venue_updates(venues@),
            string_views(exchanges@) == ev.take(i as int),
            latest@ == lex_max(uv.take(i as int)),
            stale == exists|j: int| 0 <= j < i && (#[trigger] venues@[j]).stale,
        decreases venues.len() - i,
    {
        let v = &venues[i];
        let ghost before = string_views(exchanges@);
        exchanges.push(v.exchange.clone());
        assert(string_views(exchanges@) =~= before.push(v.exchange@));
        assert(ev.take(i + 1) =~= ev.take(i as int).push(v.exchange@));
        let u = chars_of(v.updated_at.as_str());
        proof {
            assert(uv.take(i + 1).drop_last() =~= uv.take(i as int));
            assert(uv.take(i + 1).last() == v.updated_at@);
        }
        if lex_le_exec(&latest, &u) {
            latest = u;
        }
        stale = stale || v.stale;
        i += 1;
    }
    assert(ev.take(venues.len() as int) =~= ev);
    assert(uv.take(venues.len() as int) =~= uv);
    let sorted = sort_lex(exchanges);
    Ok(MarketRowFrame {
        symbol: symbol.to_string(),
        base_asset: base_asset_from_symbol(symbol),
        market_type: market_type.to_string(),
        market_size_tier: classify_market_size_tier(None),
        exchanges: sorted,
        updated_at: string_from_chars(&latest),
        stale,
        responded_exchange_count: venues.len() as u32,
    })
}

/// What the market list reads of a row to filter and order it.
#[derive(Debug)]
pub struct MarketRowKey {
    pub symbol: String,
    pub market_type: String,
    pub exchanges: Vec<String>,
}

pub type RowKeyView = (Seq<char>, Seq<char>, Seq<Seq<char>>);

pub open spec fn row_key_views(v: Seq<MarketRowKey>) -> Seq<RowKeyView> {
    v.map_values(|k: MarketRowKey| (k.symbol@, k.market_type@, string_views(k.exchanges@)))
}

/// A row is listed when no exchange is switched on, or when one of its
/// exchanges is one of those switched on.
pub open spec fn row_listed(exchanges: Seq<Seq<char>>, universe: Seq<Seq<char>>) -> bool {
    universe.len() == 0 || exists|i: int, j: int|
        0 <= i < exchanges.len() && 0 <= j < universe.len() && #[trigger] exchanges[i] == #[trigger] universe[j]
}

/// The positions of the listed rows, in order.
pub open spec fn listed_rows(rows: Seq<RowKeyView>, universe: Seq<Seq<char>>) -> Seq<int>
    decreases rows.len(),
{
    if rows.len() == 0 {
        Seq::empty()
    } else {
        let prev = listed_rows(rows.drop_last(), universe);
        if row_listed(rows.last().2, universe) {
            prev.push(rows.len() - 1)
        } else {
            prev
        }
    }
}

/// Rows by symbol, then by market type.
pub open spec fn row_le(a: RowKeyView, b: RowKeyView) -> bool {
    lex_lt(a.0, b.0) || (a.0 == b.0 && lex_le(a.1, b.1))
}

pub open spec fn row_position_order(rows: Seq<RowKeyView>) -> spec_fn(int, int) -> bool {
    |a: int, b: int| row_le(rows[a], rows[b])
}

fn row_le_exec(a: &MarketRowKey, b: &MarketRowKey) -> (r: bool)
    ensures
        r == row_le((a.symbol@, a.market_type@, string_views(a.exchanges@)), (b.symbol@, b.market_type@, string_views(b.exchanges@))),
{
    let sa = chars_of(a.symbol.as_str());
    let sb = chars_of(b.symbol.as_str());
    if chars_eq(&sa, &sb) {
        lex_le_exec(&chars_of(a.market_type.as_str()), &chars_of(b.market_type.as_str()))
    } else {
        lex_le_exec(&sa, &sb)
    }
}

fn row_is_listed(exchanges: &Vec<String>, universe: &Vec<&'static str>) -> (r: bool)
    ensures
        r == row_listed(string_views(exchanges@), str_views(universe@)),
{
    if universe.len() == 0 {
        return true;
    }
    let mut i: usize = 0;
    while i < exchanges.len()
        invariant
            i <= exchanges.len(),
            universe.len() > 0,
            forall|a: int, b: int| 0 <= a < i && 0 <= b < universe.len() ==> string_views(exchanges@)[a] != str_views(universe@)[b],
        decreases exchanges.len() - i,
    {
        let e = chars_of(exchanges[i].as_str());
        let mut j: usize = 0;
        while j < universe.len()
            invariant
                j <= universe.len(),
                i < exchanges.len(),
                universe.len() > 0,
                e@ == string_views(exchanges@)[i as int],
                forall|b: int| 0 <= b < j ==> string_views(exchanges@)[i as int] != str_views(universe@)[b],
            decreases universe.len() - j,
        {
            if chars_eq(&e, &chars_of(universe[j])) {
                assert(string_views(exchanges@)[i as int] == str_views(universe@)[j as int]);
                return true;
            }
            j += 1;
        }
        i += 1;
    }
    false
}

/// The rows of the market list that the enabled exchanges show, ordered by
/// symbol and market type, as positions in `rows`.
pub fn filter_market_rows_for_exchanges(rows: &[MarketRowKey], enabled_exchanges: &[String]) -> (r: Vec<usize>)
    ensures
        r@.map_values(|i: usize| i as int) == sort_stable(
            listed_rows(row_key_views(rows@), keep_enabled(supported_exchange_names(), string_views(enabled_exchanges@))),
            row_position_order(row_key_views(rows@)),
        ),
        forall|i: int| 0 <= i < r@.len() ==> r@[i] < rows.len(),
{
    let universe = enabled_exchange_universe(enabled_exchanges);
    let ghost uv = str_views(universe@);
    let ghost rv = row_key_views(rows@);
    let mut listed: Vec<usize> = Vec::new();
    let mut i: usize = 0;
    while i < rows.len()
        invariant
            i <= rows.len(),
            uv == str_views(universe@),
            rv == row_key_views(rows@),
            listed@.map_values(|k: usize| k as int) == listed_rows(rv.take(i as int), uv),
            forall|k: int| 0 <= k < listed@.len() ==> listed@[k] < i,
        decreases rows.len() - i,
    {
        proof {
            assert(rv.take(i + 1).drop_last() =~= rv.take(i as int));
            assert(rv.take(i + 1).last() == rv[i as int]);
        }
        if row_is_listed(&rows[i].exchanges, &universe) {
            let ghost before = listed@.map_values(|k: usize| k as int);
            listed.push(i);
            assert(listed@.map_values(|k: usize| k as int) =~= before.push(i as int));
        }
        i += 1;
    }
    assert(rv.take(rows.len() as int) =~= rv);
    let ghost order = row_position_order(rv);
    let ghost lv = listed@.map_values(|k: usize| k as int);
    let mut out: Vec<usize> = Vec::new();
    let mut n: usize = 0;
    while n < listed.len()
        invariant
            n <= listed.len(),
            rv == row_key_views(rows@),
            order == row_position_order(rv),
            lv == listed@.map_values(|k: usize| k as int),
            forall|k: int| 0 <= k < listed@.len() ==> listed@[k] < rows.len(),
            forall|k: int| 0 <= k < out@.len() ==> out@[k] < rows.len(),
            out@.map_values(|k: usize| k as int) == sort_stable(lv.take(n as int), order),
        decreases listed.len() - n,
    {
        let x = listed[n];
        let ghost before = out@.map_values(|q: usize| q as int);
        let mut k: usize = out.len();
        while k > 0 && !row_le_exec(&rows[out[k - 1]], &rows[x])
            invariant
                k <= out.len(),
                x < rows.len(),
                rv == row_key_views(rows@),
                order == row_position_order(rv),
                before == out@.map_values(|q: usize| q as int),
                forall|m: int| 0 <= m < out@.len() ==> out@[m] < rows.len(),
                forall|j: int| k <= j < out.len() ==> !order(#[trigger] before[j], x as int),
            decreases k,
        {
            assert(rv[out@[k - 1] as int] == (rows@[out@[k - 1] as int].symbol@, rows@[out@[k - 1] as int].market_type@, string_views(rows@[out@[k - 1] as int].exchanges@)));
            assert(rv[x as int] == (rows@[x as int].symbol@, rows@[x as int].market_type@, string_views(rows@[x as int].exchanges@)));
            assert(before[k - 1] == out@[k - 1] as int);
            k -= 1;
        }
        proof {
            if k > 0 {
                assert(rv[out@[k - 1] as int] == (rows@[out@[k - 1] as int].symbol@, rows@[out@[k - 1] as int].market_type@, string_views(rows@[out@[k - 1] as int].exchanges@)));
                assert(rv[x as int] == (rows@[x as int].symbol@, rows@[x as int].market_type@, string_views(rows@[x as int].exchanges@)));
            }
            lemma_insert_at(before, x as int, order, k as int);
            assert(lv.take(n + 1).drop_last() =~= lv.take(n as int));
            assert(lv.take(n + 1).last() == x as int);
        }
        out.insert(k, x);
        assert(out@.map_values(|q: usize| q as int) =~= before.take(k as int).push(x as int) + before.skip(k as int));
        assert forall|m: int| 0 <= m < out@.len() implies out@[m] < rows.len() by {
            if m < k {
                assert(out@[m] == before[m]);
            } else if m > k {
                assert(out@[m] as int == before[m - 1]);
            }
        }
        n += 1;
    }
    assert(lv.take(listed.len() as int) =~= lv);
    out
}

/// Rows by symbol and then market type form a total preorder.
pub proof fn lemma_row_order_total(rows: Seq<RowKeyView>)
    ensures
        total_preorder(row_position_order(rows)),
{
    let le = row_position_order(rows);
    assert forall|a: int, b: int| #[trigger] le(a, b) || le(b, a) by {
        let (x, y) = (rows[a], rows[b]);
        lemma_lex_total(x.0, y.0);
        lemma_lex_total(x.1, y.1);
    }
    assert forall|a: int, b: int, c: int| #[trigger] le(a, b) && #[trigger] le(b, c) implies le(a, c) by {
        let (x, y, z) = (rows[a], rows[b], rows[c]);
        if lex_lt(x.0, y.0) && lex_lt(y.0, z.0) {
            lemma_lex_trans(x.0, y.0, z.0);
            if x.0 == z.0 {
                lemma_lex_antisym(x.0, y.0);
            }
        } else if x.0 == y.0 && y.0 == z.0 {
            lemma_lex_trans(x.1, y.1, z.1);
        }
    }
}

proof fn lemma_listed_rows(rows: Seq<RowKeyView>, universe: Seq<Seq<char>>)
    ensures
        forall|k: int| #[trigger] listed_rows(rows, universe).contains(k) <==> 0 <= k < rows.len() && row_listed(
            rows[k].2,
            universe,
        ),
    decreases rows.len(),
{
    if rows.len() > 0 {
        let d = rows.drop_last();
        lemma_listed_rows(d, universe);
        let prev = listed_rows(d, universe);
        assert forall|k: int| #[trigger] listed_rows(rows, universe).contains(k) <==> 0 <= k < rows.len()
            && row_listed(rows[k].2, universe) by {
            if 0 <= k < d.len() {
                assert(d[k] == rows[k]);
            }
            if row_listed(rows.last().2, universe) {
                let l = prev.push(rows.len() - 1);
                if l.contains(k) {
                    let j = choose|j: int| 0 <= j < l.len() && l[j] == k;
                    if j < prev.len() {
                        assert(prev[j] == k);
                    }
                }
                if prev.contains(k) {
                    let j = choose|j: int| 0 <= j < prev.len() && prev[j] == k;
                    assert(l[j] == k);
                }
                if k == rows.len() - 1 {
                    assert(l[prev.len() as int] == k);
                }
            }
        }
    }
}

/// The market list holds exactly the rows whose exchanges are switched on
/// (all rows when none is), ordered by symbol and then by market type.
pub proof fn law_market_rows_listed_in_order(rows: Seq<RowKeyView>, universe: Seq<Seq<char>>)
    ensures
        sorted_by(sort_stable(listed_rows(rows, universe), row_position_order(rows)), row_position_order(rows)),
        forall|k: int| #[trigger] sort_stable(listed_rows(rows, universe), row_position_order(rows)).contains(k)
            <==> 0 <= k < rows.len() && row_listed(rows[k].2, universe),
{
    lemma_row_order_total(rows);
    lemma_sort_sorted(listed_rows(rows, universe), row_position_order(rows));
    lemma_sort_keeps_elements(listed_rows(rows, universe), row_position_order(rows));
    lemma_listed_rows(rows, universe);
    let listed = listed_rows(rows, universe);
    let out = sort_stable(listed, row_position_order(rows));
    assert forall|k: int| #[trigger] out.contains(k) <==> 0 <= k < rows.len() && row_listed(rows[k].2, universe) by {
        assert(out.contains(k) <==> listed.contains(k));
    }
}

// ---------------------------------------------------------------------------
// Discovery, venues and the watchlist's rows
// ---------------------------------------------------------------------------

/// The targets a scan covers after discovery: none when no supported
/// exchange is switched on; otherwise the discovered targets deduplicated
/// and ordered, or the built-in targets when discovery found none.
pub open spec fn discovered_targets_spec(universe_empty: bool, discovered: Seq<TargetView>) -> Seq<TargetView> {
    if universe_empty {
        Seq::empty()
    } else if sort_stable(first_occurrences(discovered), target_order()).len() == 0 {
        fallback_targets_spec()
    } else {
        sort_stable(first_occurrences(discovered), target_order())
    }
}

pub fn targets_from_discovery(enabled_exchanges: &[String], discovered: Vec<MarketTarget>) -> (r: Vec<MarketTarget>)
    ensures
        target_views(r@) == discovered_targets_spec(
            keep_enabled(supported_exchange_names(), string_views(enabled_exchanges@)).len() == 0,
            target_views(discovered@),
        ),
{
    let universe = enabled_exchange_universe(enabled_exchanges);
    if universe.len() == 0 {
        let r: Vec<MarketTarget> = Vec::new();
        assert(target_views(r@) =~= Seq::<TargetView>::empty());
        return r;
    }
    let targets = dedupe_market_targets(discovered);
    if targets.len() == 0 {
        fallback_market_targets()
    } else {
        targets
    }
}

fn contains_ignore_case(list: &Vec<String>, name: &[char]) -> (r: bool)
    ensures
        r == exists|i: int| 0 <= i < list@.len() && eq_ignore_case(#[trigger] string_views(list@)[i], name@),
{
    let mut i: usize = 0;
    while i < list.len()
        invariant
            i <= list.len(),
            forall|j: int| 0 <= j < i ==> !eq_ignore_case(#[trigger] string_views(list@)[j], name@),
        decreases list.len() - i,
    {
        if eq_ignore_case_exec(&chars_of(list[i].as_str()), name) {
            assert(string_views(list@)[i as int] == list@[i as int]@);
            return true;
        }
        i += 1;
    }
    false
}

/// `order` followed by the row's exchanges that are switched on and not yet
/// in it (ASCII case ignored), in the row's order.
pub open spec fn completed_order(order: Seq<Seq<char>>, row_exchanges: Seq<Seq<char>>, enabled: Seq<Seq<char>>) -> Seq<Seq<char>>
    decreases row_exchanges.len(),
{
    if row_exchanges.len() == 0 {
        order
    } else {
        let prev = completed_order(order, row_exchanges.drop_last(), enabled);
        let e = row_exchanges.last();
        if exchange_enabled(e, enabled) && !(exists|i: int| 0 <= i < prev.len() && eq_ignore_case(#[trigger] prev[i], e)) {
            prev.push(e)
        } else {
            prev
        }
    }
}

/// Completes the preferred order of a row's venues (the venues with
/// snapshots, best first) with its other enabled exchanges.
pub fn complete_venue_order(venue_order: Vec<String>, row_exchanges: &[String], enabled_exchanges: &[String]) -> (r: Vec<String>)
    ensures
        string_views(r@) == completed_order(
            string_views(venue_order@),
            string_views(row_exchanges@),
            string_views(enabled_exchanges@),
        ),
{
    let ghost ov = string_views(venue_order@);
    let ghost rv = string_views(row_exchanges@);
    let mut order = venue_order;
    let mut i: usize = 0;
    while i < row_exchanges.len()
        invariant
            i <= row_exchanges.len(),
            rv == string_views(row_exchanges@),
            string_views(order@) == completed_order(ov, rv.take(i as int), string_views(enabled_exchanges@)),
        decreases row_exchanges.len() - i,
    {
        proof {
            assert(rv.take(i + 1).drop_last() =~= rv.take(i as int));
            assert(rv.take(i + 1).last() == row_exchanges@[i as int]@);
        }
        let name = chars_of(row_exchanges[i].as_str());
        if exchange_is_enabled(row_exchanges[i].as_str(), enabled_exchanges) && !contains_ignore_case(&order, &name) {
            let ghost before = string_views(order@);
            order.push(row_exchanges[i].clone());
            assert(string_views(order@) =~= before.push(name@));
        }
        i += 1;
    }
    assert(rv.take(row_exchanges.len() as int) =~= rv);
    order
}

// ---------------------------------------------------------------------------
// Watchlist
// ---------------------------------------------------------------------------

/// A watchlist entry after trimming and Unicode upper-casing.
pub open spec fn watchlist_entry(value: Seq<char>) -> Seq<char> {
    unicode_upper(trimmed(value))
}

pub open spec fn is_a_share_code(value: Seq<char>) -> bool {
    value.len() > 0 && (has_prefix(value, "SHSE."@) || has_prefix(value, "SZSE."@))
}

/// The normalised entries that name an A-share code, in order.
pub open spec fn a_share_entries(values: Seq<Seq<char>>) -> Seq<Seq<char>>
    decreases values.len(),
{
    if values.len() == 0 {
        Seq::empty()
    } else {
        let prev = a_share_entries(values.drop_last());
        let e = watchlist_entry(values.last());
        if is_a_share_code(e) {
            prev.push(e)
        } else {
            prev
        }
    }
}

fn is_a_share_code_exec(value: &[char]) -> (r: bool)
    ensures
        r == is_a_share_code(value@),
{
    value.len() > 0 && (has_prefix_exec(value, &chars_of("SHSE.")) || has_prefix_exec(value, &chars_of("SZSE.")))
}

/// The positions of the rows whose symbol is in `watchlist`, in order.
pub open spec fn watched_rows(row_symbols: Seq<Seq<char>>, watchlist: Seq<Seq<char>>) -> Seq<int>
    decreases row_symbols.len(),
{
    if row_symbols.len() == 0 {
        Seq::empty()
    } else {
        let prev = watched_rows(row_symbols.drop_last(), watchlist);
        if watchlist.contains(row_symbols.last()) {
            prev.push(row_symbols.len() - 1)
        } else {
            prev
        }
    }
}

pub open spec fn symbol_position_order(row_symbols: Seq<Seq<char>>) -> spec_fn(int, int) -> bool {
    |a: int, b: int| lex_le(row_symbols[a], row_symbols[b])
}

/// The cached rows shown for a watchlist, as positions: none when the
/// watchlist names no A-share code; otherwise the rows of its codes (after
/// normalisation), ordered by symbol.
pub fn rows_for_watchlist(row_symbols: &[String], watchlist_symbols: &[String]) -> (r: Vec<usize>)
    ensures
        ({
            let wl = first_occurrences(a_share_entries(string_views(watchlist_symbols@)));
            r@.map_values(|k: usize| k as int) == if wl.len() == 0 {
                Seq::<int>::empty()
            } else {
                sort_stable(watched_rows(string_views(row_symbols@), wl), symbol_position_order(string_views(row_symbols@)))
            }
        }),
{
    let watchlist = normalize_a_share_watchlist(watchlist_symbols);
    if watchlist.len() == 0 {
        let r: Vec<usize> = Vec::new();
        assert(r@.map_values(|k: usize| k as int) =~= Seq::<int>::empty());
        return r;
    }
    let ghost wl = string_views(watchlist@);
    let ghost rv = string_views(row_symbols@);
    let mut kept: Vec<usize> = Vec::new();
    let mut i: usize = 0;
    while i < row_symbols.len()
        invariant
            i <= row_symbols.len(),
            wl == string_views(watchlist@),
            rv == string_views(row_symbols@),
            kept@.map_values(|k: usize| k as int) == watched_rows(rv.take(i as int), wl),
            forall|k: int| 0 <= k < kept@.len() ==> kept@[k] < i,
        decreases row_symbols.len() - i,
    {
        proof {
            assert(rv.take(i + 1).drop_last() =~= rv.take(i as int));
            assert(rv.take(i + 1).last() == row_symbols@[i as int]@);
        }
        let symbol = chars_of(row_symbols[i].as_str());
        let mut found = false;
        let mut j: usize = 0;
        while j < watchlist.len()
            invariant
                j <= watchlist.len(),
                i < row_symbols.len(),
                wl == string_views(watchlist@),
                symbol@ == rv[i as int],
                rv == string_views(row_symbols@),
                found ==> wl.contains(rv[i as int]),
                !found ==> forall|m: int| 0 <= m < j ==> wl[m] != rv[i as int],
            decreases watchlist.len() - j,
        {
            if chars_eq(&chars_of(watchlist[j].as_str()), &symbol) {
                assert(wl[j as int] == rv[i as int]);
                found = true;
            }
            j += 1;
        }
        if found {
            let ghost before = kept@.map_values(|k: usize| k as int);
            kept.push(i);
            assert(kept@.map_values(|k: usize| k as int) =~= before.push(i as int));
        }
        i += 1;
    }
    assert(rv.take(row_symbols.len() as int) =~= rv);
    let ghost order = symbol_position_order(rv);
    let ghost lv = kept@.map_values(|k: usize| k as int);
    let mut out: Vec<usize> = Vec::new();
    let mut n: usize = 0;
    while n < kept.len()
        invariant
            n <= kept.len(),
            rv == string_views(row_symbols@),
            order == symbol_position_order(rv),
            lv == kept@.map_values(|k: usize| k as int),
            forall|k: int| 0 <= k < kept@.len() ==> kept@[k] < row_symbols.len(),
            forall|k: int| 0 <= k < out@.len() ==> out@[k] < row_symbols.len(),
            out@.map_values(|k: usize| k as int) == sort_stable(lv.take(n as int), order),
        decreases kept.len() - n,
    {
        let x = kept[n];
        let ghost before = out@.map_values(|q: usize| q as int);
        let mut k: usize = out.len();
        while k > 0 && !lex_le_exec(&chars_of(row_symbols[out[k - 1]].as_str()), &chars_of(row_symbols[x].as_str()))
            invariant
                k <= out.len(),
                x < row_symbols.len(),
                rv == string_views(row_symbols@),
                order == symbol_position_order(rv),
                before == out@.map_values(|q: usize| q as int),
                forall|m: int| 0 <= m < out@.len() ==> out@[m] < row_symbols.len(),
                forall|j: int| k <= j < out.len() ==> !order(#[trigger] before[j], x as int),
            decreases k,
        {
            assert(rv[out@[k - 1] as int] == row_symbols@[out@[k - 1] as int]@);
            assert(rv[x as int] == row_symbols@[x as int]@);
            assert(before[k - 1] == out@[k - 1] as int);
            k -= 1;
        }
        proof {
            if k > 0 {
                assert(rv[out@[k - 1] as int] == row_symbols@[out@[k - 1] as int]@);
                assert(rv[x as int] == row_symbols@[x as int]@);
            }
            lemma_insert_at(before, x as int, order, k as int);
            assert(lv.take(n + 1).drop_last() =~= lv.take(n as int));
            assert(lv.take(n + 1).last() == x as int);
        }
        out.insert(k, x);
        assert(out@.map_values(|q: usize| q as int) =~= before.take(k as int).push(x as int) + before.skip(k as int));
        assert forall|m: int| 0 <= m < out@.len() implies out@[m] < row_symbols.len() by {
            if m < k {
                assert(out@[m] == before[m]);
            } else if m > k {
                assert(out@[m] as int == before[m - 1]);
            }
        }
        n += 1;
    }
    assert(lv.take(kept.len() as int) =~= lv);
    out
}

/// Trims and upper-cases the entries, keeps those that name a Shanghai or
/// Shenzhen code, and drops repeats (first occurrence kept, order preserved).
pub fn normalize_a_share_watchlist(values: &[String]) -> (r: Vec<String>)
    ensures
        string_views(r@) == first_occurrences(a_share_entries(string_views(values@))),
{
    let ghost vs = string_views(values@);
    let mut kept: Vec<String> = Vec::new();
    let mut i: usize = 0;
    while i < values.len()
        invariant
            i <= values.len(),
            vs == string_views(values@),
            string_views(kept@) == a_share_entries(vs.take(i as int)),
        decreases values.len() - i,
    {
        let t = trim_str(values[i].as_str());
        let e = to_uppercase_str(t.as_str());
        let ec = chars_of(e.as_str());
        proof {
            assert(vs.take(i + 1).drop_last() =~= vs.take(i as int));
            assert(vs.take(i + 1).last() == values@[i as int]@);
        }
        if is_a_share_code_exec(&ec) {
            kept.push(e);
            assert(string_views(kept@) =~= a_share_entries(vs.take(i as int)).push(ec@));
        }
        i += 1;
    }
    assert(vs.take(values.len() as int) =~= vs);
    let ghost kv = string_views(kept@);
    let mut out: Vec<String> = Vec::new();
    let mut j: usize = 0;
    while j < kept.len()
        invariant
            j <= kept.len(),
            kv == string_views(kept@),
            string_views(out@) == first_occurrences(kv.take(j as int)),
        decreases kept.len() - j,
    {
        let s = kept[j].clone();
        let seen = contains_string(&out, &s);
        proof {
            lemma_first_occurrences(kv.take(j as int));
            assert(kv.take(j + 1).drop_last() =~= kv.take(j as int));
            assert(kv.take(j + 1).last() == s@);
        }
        if !seen {
            out.push(s);
            assert(string_views(out@) =~= first_occurrences(kv.take(j as int)).push(s@));
        }
        j += 1;
    }
    assert(kv.take(kept.len() as int) =~= kv);
    out
}

// ---------------------------------------------------------------------------
// Cache keys and trade sides
// ---------------------------------------------------------------------------

/// `"{symbol}::{lowercase market type}"`.
pub fn row_cache_key(symbol: &str, market_type: &str) -> (r: String)
    ensures
        r@ == symbol@ + "::"@ + unicode_lower(market_type@),
{
    let mut out = chars_of(symbol);
    let mut sep = chars_of("::");
    out.append(&mut sep);
    let lower = to_lowercase_str(market_type);
    let mut lc = chars_of(lower.as_str());
    out.append(&mut lc);
    string_from_chars(&out)
}

/// `"{exchange}::{symbol}::{lowercase market type}"`.
pub fn snapshot_cache_key(exchange: &str, symbol: &str, market_type: &str) -> (r: String)
    ensures
        r@ == exchange@ + "::"@ + symbol@ + "::"@ + unicode_lower(market_type@),
{
    let mut out = chars_of(exchange);
    let mut sep = chars_of("::");
    out.append(&mut sep);
    let mut sc = chars_of(symbol);
    out.append(&mut sc);
    let mut sep2 = chars_of("::");
    out.append(&mut sep2);
    let lower = to_lowercase_str(market_type);
    let mut lc = chars_of(lower.as_str());
    out.append(&mut lc);
    string_from_chars(&out)
}

pub open spec fn trade_side_rank_spec(side: Seq<char>) -> u8 {
    if side == "sell"@ {
        0
    } else if side == "buy"@ {
        1
    } else {
        2
    }
}

/// Sells are listed before buys, and both before anything else.
pub fn trade_side_rank(side: &str) -> (r: u8)
    ensures
        r == trade_side_rank_spec(side@),
{
    let s = chars_of(side);
    if chars_eq(&s, &chars_of("sell")) {
        0
    } else if chars_eq(&s, &chars_of("buy")) {
        1
    } else {
        2
    }
}

// ---------------------------------------------------------------------------
// A-share symbol search
// ---------------------------------------------------------------------------

/// One entry of the A-share symbol universe.
#[derive(Debug, PartialEq, Eq)]
pub struct AShareSymbolSearchResultDto {
    pub symbol: String,
    pub name: String,
    pub market: String,
}

pub type SymbolEntryView = (Seq<char>, Seq<char>, Seq<char>);

impl View for AShareSymbolSearchResultDto {
    type V = SymbolEntryView;

    open spec fn view(&self) -> SymbolEntryView {
        (self.symbol@, self.name@, self.market@)
    }
}

pub open spec fn entry_views(v: Seq<AShareSymbolSearchResultDto>) -> Seq<SymbolEntryView> {
    v.map_values(|e: AShareSymbolSearchResultDto| e@)
}

/// `s` with every `c` removed (`str::replace(c, "")`).
pub open spec fn without_char(s: Seq<char>, c: char) -> Seq<char>
    decreases s.len(),
{
    if s.len() == 0 {
        s
    } else if s.last() == c {
        without_char(s.drop_last(), c)
    } else {
        without_char(s.drop_last(), c).push(s.last())
    }
}

/// Whether a symbol entry matches an upper-cased query.
pub open spec fn entry_matches(e: SymbolEntryView, cleaned: Seq<char>) -> bool {
    has_infix(unicode_upper(e.0), cleaned)
        || has_infix(unicode_upper(without_char(e.0, '.')), cleaned)
        || has_infix(unicode_upper(e.1), cleaned)
}

pub open spec fn matching_entries(v: Seq<SymbolEntryView>, cleaned: Seq<char>) -> Seq<SymbolEntryView>
    decreases v.len(),
{
    if v.len() == 0 {
        Seq::empty()
    } else {
        let prev = matching_entries(v.drop_last(), cleaned);
        if entry_matches(v.last(), cleaned) {
            prev.push(v.last())
        } else {
            prev
        }
    }
}

fn without_char_exec(s: &[char], c: char) -> (r: Vec<char>)
    ensures
        r@ == without_char(s@, c),
{
    let mut out: Vec<char> = Vec::new();
    let mut i: usize = 0;
    while i < s.len()
        invariant
            i <= s.len(),
            out@ == without_char(s@.take(i as int), c),
        decreases s.len() - i,
    {
        assert(s@.take(i + 1).drop_last() =~= s@.take(i as int));
        if s[i] != c {
            out.push(s[i]);
        }
        i += 1;
    }
    assert(s@.take(s.len() as int) =~= s@);
    out
}

fn entry_matches_exec(e: &AShareSymbolSearchResultDto, cleaned: &[char]) -> (r: bool)
    ensures
        r == entry_matches(e@, cleaned@),
{
    let sym_upper = chars_of(to_uppercase_str(e.symbol.as_str()).as_str());
    if has_infix_exec(&sym_upper, cleaned) {
        return true;
    }
    let bare = string_from_chars(&without_char_exec(&chars_of(e.symbol.as_str()), '.'));
    let bare_upper = chars_of(to_uppercase_str(bare.as_str()).as_str());
    if has_infix_exec(&bare_upper, cleaned) {
        return true;
    }
    let name_upper = chars_of(to_uppercase_str(e.name.as_str()).as_str());
    has_infix_exec(&name_upper, cleaned)
}

/// The first `limit` symbols whose code (with or without the dot) or name
/// contains the trimmed, upper-cased query.
pub fn search_a_share_symbols_in_memory(
    symbols: &[AShareSymbolSearchResultDto],
    query: &str,
    limit: usize,
) -> (r: Vec<AShareSymbolSearchResultDto>)
    ensures
        ({
            let m = matching_entries(entry_views(symbols@), unicode_upper(trimmed(query@)));
            entry_views(r@) == m.take(if m.len() < limit { m.len() as int } else { limit as int })
        }),
{
    let t = trim_str(query);
    let cleaned = chars_of(to_uppercase_str(t.as_str()).as_str());
    let ghost ev = entry_views(symbols@);
    let mut out: Vec<AShareSymbolSearchResultDto> = Vec::new();
    let mut i: usize = 0;
    while i < symbols.len() && out.len() < limit
        invariant
            i <= symbols.len(),
            ev == entry_views(symbols@),
            entry_views(out@) == matching_entries(ev.take(i as int), cleaned@),
            out.len() <= limit,
        decreases symbols.len() - i,
    {
        let e = &symbols[i];
        proof {
            assert(ev.take(i + 1).drop_last() =~= ev.take(i as int));
            assert(ev.take(i + 1).last() == e@);
        }
        if entry_matches_exec(e, &cleaned) {
            let copy = AShareSymbolSearchResultDto {
                symbol: e.symbol.clone(),
                name: e.name.clone(),
                market: e.market.clone(),
            };
            out.push(copy);
            assert(entry_views(out@) =~= matching_entries(ev.take(i as int), cleaned@).push(e@));
        }
        i += 1;
    }
    proof {
        lemma_matching_prefix(ev, cleaned@, i as int);
        let m = matching_entries(ev, cleaned@);
        if i == symbols.len() {
            assert(ev.take(i as int) =~= ev);
            assert(m.take(m.len() as int) =~= m);
        } else {
            assert(m.take(limit as int) =~= entry_views(out@));
        }
    }
    out
}

/// The matches among a prefix are a prefix of all matches.
proof fn lemma_matching_prefix(v: Seq<SymbolEntryView>, cleaned: Seq<char>, i: int)
    requires
        0 <= i <= v.len(),
    ensures
        matching_entries(v.take(i), cleaned).len() <= matching_entries(v, cleaned).len(),
        matching_entries(v, cleaned).take(matching_entries(v.take(i), cleaned).len() as int)
            == matching_entries(v.take(i), cleaned),
    decreases v.len() - i,
{
    if i == v.len() {
        assert(v.take(i) =~= v);
        let m = matching_entries(v, cleaned);
        assert(m.take(m.len() as int) =~= m);
    } else {
        lemma_matching_prefix(v, cleaned, i + 1);
        let a = matching_entries(v.take(i), cleaned);
        let b = matching_entries(v.take(i + 1), cleaned);
        let m = matching_entries(v, cleaned);
        assert(v.take(i + 1).drop_last() =~= v.take(i));
        if entry_matches(v[i], cleaned) {
            assert(b == a.push(v[i]));
            assert(m.take(a.len() as int) =~= b.take(a.len() as int));
            assert(b.take(a.len() as int) =~= a);
        } else {
            assert(b == a);
        }
    }
}

/// A search finds every entry whose code, upper-cased, contains the cleaned
/// (trimmed, upper-cased) query, and likewise every entry whose code without
/// its dot, or whose name, contains it. Such an entry is among the results
/// whenever fewer than `limit` matching entries come before it.
pub proof fn law_search_finds_containing_entries(v: Seq<SymbolEntryView>, cleaned: Seq<char>, i: int, limit: nat)
    requires
        0 <= i < v.len(),
        has_infix(unicode_upper(v[i].0), cleaned) || has_infix(unicode_upper(without_char(v[i].0, '.')), cleaned)
            || has_infix(unicode_upper(v[i].1), cleaned),
    ensures
        matching_entries(v, cleaned).contains(v[i]),
        matching_entries(v.take(i), cleaned).len() < limit ==> matching_entries(v, cleaned).take(
            if matching_entries(v, cleaned).len() < limit {
                matching_entries(v, cleaned).len() as int
            } else {
                limit as int
            },
        ).contains(v[i]),
{
    let a = matching_entries(v.take(i), cleaned);
    let b = matching_entries(v.take(i + 1), cleaned);
    let m = matching_entries(v, cleaned);
    assert(v.take(i + 1).drop_last() =~= v.take(i));
    assert(v.take(i + 1).last() == v[i]);
    assert(b == a.push(v[i]));
    lemma_matching_prefix(v, cleaned, i + 1);
    assert(m[a.len() as int] == b[a.len() as int]);
    assert(m[a.len() as int] == v[i]);
    let n = if m.len() < limit {
        m.len() as int
    } else {
        limit as int
    };
    if a.len() < limit {
        assert(m.take(n)[a.len() as int] == v[i]);
    }
}

/// An entry is always found by its own code: a search whose cleaned query is
/// the entry's upper-cased code finds it.
pub proof fn law_search_finds_own_code(v: Seq<SymbolEntryView>, i: int)
    requires
        0 <= i < v.len(),
    ensures
        matching_entries(v, unicode_upper(v[i].0)).contains(v[i]),
{
    let u = unicode_upper(v[i].0);
    assert(u.subrange(0, u.len() as int) =~= u);
    assert(crate::text::occurs_at(u, u, 0));
    law_search_finds_containing_entries(v, u, i, 0);
}

} // verus!
