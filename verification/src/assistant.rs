//! The assistant's tool catalogue and its text handling: symbol recognition
//! in a message, removal of reasoning blocks, previews of tool output.
use vstd::prelude::*;

use crate::backtest::{boundary_index, boundary_index_exec, byte_len, byte_len_at_most};
use crate::numbers::{slice_from, slice_range};
use crate::text::{
    string_views,
    after_last_char, before_char, chars_eq, chars_of, eq_ignore_case, eq_ignore_case_exec,
    first_occurrence, find_exec, has_infix, has_infix_exec, has_prefix, has_prefix_exec,
    is_ascii_alphanumeric, is_ascii_alphanumeric_exec, string_from_chars, to_lowercase_str, trim_str,
    trimmed, unicode_lower,
};

verus! {

// ---------------------------------------------------------------------------
// Tools
// ---------------------------------------------------------------------------

/// One argument of a tool: its name, its JSON type (`string`, `integer` or
/// `boolean`), an optional description, optional integer bounds, and whether
/// the tool requires it.
#[derive(Debug, PartialEq, Eq)]
pub struct ToolParam {
    pub name: &'static str,
    pub kind: &'static str,
    pub description: Option<&'static str>,
    pub minimum: Option<u64>,
    pub maximum: Option<u64>,
    pub required: bool,
}

/// A tool the assistant may call: its name, what it does, and the schema of
/// its arguments: a JSON value of type `schema_type` whose properties are
/// `parameters`, in order, and which admits other properties only where
/// `additional_properties` holds.
#[derive(Debug, PartialEq, Eq)]
pub struct ToolSpec {
    pub name: &'static str,
    pub description: &'static str,
    pub schema_type: &'static str,
    pub parameters: Vec<ToolParam>,
    pub additional_properties: bool,
}

/// An argument as plain values: name, JSON type, description, minimum,
/// maximum, required.
pub type ParamModel = (Seq<char>, Seq<char>, Option<Seq<char>>, Option<u64>, Option<u64>, bool);

pub open spec fn param_view(p: ToolParam) -> ParamModel {
    (
        p.name@,
        p.kind@,
        match p.description {
            Some(d) => Some(d@),
            None => None,
        },
        p.minimum,
        p.maximum,
        p.required,
    )
}

pub open spec fn params_view(v: Seq<ToolParam>) -> Seq<ParamModel> {
    v.map_values(|p: ToolParam| param_view(p))
}

/// The text that describes a stock-code argument.
pub open spec fn stock_code_text() -> Seq<char> {
    "A 股代码，例如 600000、SHSE.600000 或 SZSE.000001"@
}

/// The `stockCode` argument, required or not.
pub open spec fn stock_code_model(required: bool) -> ParamModel {
    ("stockCode"@, "string"@, Some(stock_code_text()), None, None, required)
}

/// An optional argument of the given JSON type with no description or bounds.
pub open spec fn plain_model(name: Seq<char>, kind: Seq<char>) -> ParamModel {
    (name, kind, None, None, None, false)
}

/// An optional integer argument between `lo` and `hi`.
pub open spec fn bounded_model(name: Seq<char>, lo: u64, hi: u64) -> ParamModel {
    (name, "integer"@, None, Some(lo), Some(hi), false)
}

/// The arguments of each tool, in catalogue order.
pub open spec fn tool_parameters_spec(include_financial_report: bool) -> Seq<Seq<ParamModel>> {
    let base = seq![
        seq![stock_code_model(false), bounded_model("limit"@, 1, 10)],
        Seq::<ParamModel>::empty(),
        seq![stock_code_model(false), plain_model("account"@, "string"@), plain_model("paperOnly"@, "boolean"@)],
        seq![stock_code_model(false), plain_model("latestOnly"@, "boolean"@)],
        seq![stock_code_model(true)],
        seq![stock_code_model(false)],
        seq![plain_model("account"@, "string"@)],
        seq![stock_code_model(false)],
        seq![stock_code_model(true)],
        seq![stock_code_model(true), bounded_model("count"@, 1, 120)],
    ];
    if include_financial_report {
        base.push(seq![stock_code_model(true)])
    } else {
        base
    }
}

/// The names of the read-only tools, in catalogue order; the financial
/// report tool comes last and only when financial report data is in use.
pub open spec fn tool_names_spec(include_financial_report: bool) -> Seq<Seq<char>> {
    let base = seq![
        "market_data"@,
        "portfolio"@,
        "positions"@,
        "recommendation_history"@,
        "stock_info"@,
        "risk_calculator"@,
        "paper_order_draft"@,
        "signal_scan"@,
        "bid_ask"@,
        "kline_data"@,
    ];
    if include_financial_report {
        base.push("financial_report_info"@)
    } else {
        base
    }
}

/// The catalogue: each tool's name and description, in order; the financial
/// report tool comes last and only when financial report data is in use.
pub open spec fn tool_catalogue(include_financial_report: bool) -> Seq<(Seq<char>, Seq<char>)> {
    let base = seq![
        ("market_data"@, "读取沪深 A 股自选股缓存行情，包括股票代码、名称、最新价、涨跌幅、成交量、成交额和缓存时间；不主动刷新 AKShare。"@),
        ("portfolio"@, "读取本地模拟投资组合模式、模拟资金账户、模拟持仓和模拟委托快照。"@),
        ("positions"@, "读取当前 A 股模拟持仓和近期模拟委托，可按股票代码或模拟资金账户过滤。"@),
        ("recommendation_history"@, "读取最新投资建议和近期 A 股建议记录，不刷新行情或重新生成建议。"@),
        ("stock_info"@, "通过 AKShare stock_individual_basic_info_xq 读取 A 股上市公司基础资料。"@),
        ("risk_calculator"@, "汇总最新或指定 A 股投资建议的风险状态、止损、最大亏损估计和失效条件；不会创建委托。"@),
        ("paper_order_draft"@, "基于最新可执行 A 股投资建议创建本地模拟委托草稿。"@),
        ("signal_scan"@, "使用 AKShare K 线对自选 A 股执行信号扫描。可指定单只股票，返回原始策略信号和统一信号结果。"@),
        ("bid_ask"@, "通过 AKShare stock_bid_ask_em 读取 A 股实时五档买卖盘、最新价、涨跌幅、成交量和涨跌停价。"@),
        ("kline_data"@, "通过 AKShare 为 Assistant 返回 5m、1h、1d、1w 四个周期的 A 股 K 线数据。"@),
    ];
    if include_financial_report {
        base.push(("financial_report_info"@, "读取本地缓存的 A 股财报 AI 分析结论和雷达评分，不触发 AKShare 拉取或 AI 分析。"@))
    } else {
        base
    }
}

pub open spec fn spec_entries(v: Seq<ToolSpec>) -> Seq<(Seq<char>, Seq<char>)> {
    v.map_values(|t: ToolSpec| (t.name@, t.description@))
}

pub open spec fn spec_names(v: Seq<ToolSpec>) -> Seq<Seq<char>> {
    v.map_values(|t: ToolSpec| t.name@)
}

fn stock_code_param(required: bool) -> (r: ToolParam)
    ensures
        param_view(r) == stock_code_model(required),
{
    ToolParam {
        name: "stockCode",
        kind: "string",
        description: Some("A 股代码，例如 600000、SHSE.600000 或 SZSE.000001"),
        minimum: None,
        maximum: None,
        required,
    }
}

fn plain_param(name: &'static str, kind: &'static str) -> (r: ToolParam)
    ensures
        param_view(r) == plain_model(name@, kind@),
{
    ToolParam { name, kind, description: None, minimum: None, maximum: None, required: false }
}

fn bounded_param(name: &'static str, lo: u64, hi: u64) -> (r: ToolParam)
    ensures
        param_view(r) == bounded_model(name@, lo, hi),
{
    ToolParam { name, kind: "integer", description: None, minimum: Some(lo), maximum: Some(hi), required: false }
}

/// A tool whose arguments form an object that admits no other properties.
fn object_tool(name: &'static str, description: &'static str, parameters: Vec<ToolParam>) -> (r: ToolSpec)
    ensures
        r.name@ == name@,
        r.description@ == description@,
        r.schema_type@ == "object"@,
        params_view(r.parameters@) == params_view(parameters@),
        !r.additional_properties,
{
    ToolSpec { name, description, schema_type: "object", parameters, additional_properties: false }
}

/// The tool catalogue: each tool's name, description and argument schema,
/// in order. Every schema is an object that admits no other properties.
pub fn tool_specs(include_financial_report: bool) -> (r: Vec<ToolSpec>)
    ensures
        spec_entries(r@) == tool_catalogue(include_financial_report),
        spec_names(r@) == tool_names_spec(include_financial_report),
        r@.len() == tool_parameters_spec(include_financial_report).len(),
        forall|i: int|
            0 <= i < r@.len() ==> params_view(#[trigger] r@[i].parameters@) == tool_parameters_spec(
                include_financial_report,
            )[i],
        forall|i: int| 0 <= i < r@.len() ==> (#[trigger] r@[i].schema_type)@ == "object"@,
        forall|i: int| 0 <= i < r@.len() ==> !(#[trigger] r@[i].additional_properties),
{
    let t0 = object_tool(
        "market_data",
        "读取沪深 A 股自选股缓存行情，包括股票代码、名称、最新价、涨跌幅、成交量、成交额和缓存时间；不主动刷新 AKShare。",
        vec![stock_code_param(false), bounded_param("limit", 1, 10)],
    );
    let t1 = object_tool(
        "portfolio",
        "读取本地模拟投资组合模式、模拟资金账户、模拟持仓和模拟委托快照。",
        Vec::new(),
    );
    let t2 = object_tool(
        "positions",
        "读取当前 A 股模拟持仓和近期模拟委托，可按股票代码或模拟资金账户过滤。",
        vec![stock_code_param(false), plain_param("account", "string"), plain_param("paperOnly", "boolean")],
    );
    let t3 = object_tool(
        "recommendation_history",
        "读取最新投资建议和近期 A 股建议记录，不刷新行情或重新生成建议。",
        vec![stock_code_param(false), plain_param("latestOnly", "boolean")],
    );
    let t4 = object_tool(
        "stock_info",
        "通过 AKShare stock_individual_basic_info_xq 读取 A 股上市公司基础资料。",
        vec![stock_code_param(true)],
    );
    let t5 = object_tool(
        "risk_calculator",
        "汇总最新或指定 A 股投资建议的风险状态、止损、最大亏损估计和失效条件；不会创建委托。",
        vec![stock_code_param(false)],
    );
    let t6 = object_tool(
        "paper_order_draft",
        "基于最新可执行 A 股投资建议创建本地模拟委托草稿。",
        vec![plain_param("account", "string")],
    );
    let t7 = object_tool(
        "signal_scan",
        "使用 AKShare K 线对自选 A 股执行信号扫描。可指定单只股票，返回原始策略信号和统一信号结果。",
        vec![stock_code_param(false)],
    );
    let t8 = object_tool(
        "bid_ask",
        "通过 AKShare stock_bid_ask_em 读取 A 股实时五档买卖盘、最新价、涨跌幅、成交量和涨跌停价。",
        vec![stock_code_param(true)],
    );
    let t9 = object_tool(
        "kline_data",
        "通过 AKShare 为 Assistant 返回 5m、1h、1d、1w 四个周期的 A 股 K 线数据。",
        vec![stock_code_param(true), bounded_param("count", 1, 120)],
    );
    let mut specs = vec![t0, t1, t2, t3, t4, t5, t6, t7, t8, t9];
    assert(spec_names(specs@) =~= tool_names_spec(false));
    assert(spec_entries(specs@) =~= tool_catalogue(false));
    proof {
        let ps = tool_parameters_spec(false);
        assert(params_view(specs@[0].parameters@) =~= ps[0]);
        assert(params_view(specs@[1].parameters@) =~= ps[1]);
        assert(params_view(specs@[2].parameters@) =~= ps[2]);
        assert(params_view(specs@[3].parameters@) =~= ps[3]);
        assert(params_view(specs@[4].parameters@) =~= ps[4]);
        assert(params_view(specs@[5].parameters@) =~= ps[5]);
        assert(params_view(specs@[6].parameters@) =~= ps[6]);
        assert(params_view(specs@[7].parameters@) =~= ps[7]);
        assert(params_view(specs@[8].parameters@) =~= ps[8]);
        assert(params_view(specs@[9].parameters@) =~= ps[9]);
    }
    if include_financial_report {
        let t10 = object_tool(
            "financial_report_info",
            "读取本地缓存的 A 股财报 AI 分析结论和雷达评分，不触发 AKShare 拉取或 AI 分析。",
            vec![stock_code_param(true)],
        );
        specs.push(t10);
        assert(spec_names(specs@) =~= tool_names_spec(true));
        assert(spec_entries(specs@) =~= tool_catalogue(true));
        assert(params_view(specs@[10].parameters@) =~= tool_parameters_spec(true)[10]);
    }
    specs
}

/// The tools the assistant may call (the full catalogue): all of them only read.
pub fn allowed_tools() -> (r: Vec<String>)
    ensures
        string_views(r@) == tool_names_spec(true),
{
    let specs = tool_specs(true);
    let mut out: Vec<String> = Vec::new();
    let mut i: usize = 0;
    while i < specs.len()
        invariant
            i <= specs.len(),
            spec_names(specs@) == tool_names_spec(true),
            string_views(out@) == spec_names(specs@).take(i as int),
        decreases specs.len() - i,
    {
        let name = specs[i].name.to_string();
        let ghost before = string_views(out@);
        out.push(name);
        assert(string_views(out@) =~= before.push(specs@[i as int].name@));
        assert(spec_names(specs@).take(i + 1) =~= spec_names(specs@).take(i as int).push(specs@[i as int].name@));
        i += 1;
    }
    assert(spec_names(specs@).take(specs.len() as int) =~= spec_names(specs@));
    out
}

// ---------------------------------------------------------------------------
// Symbols in a message
// ---------------------------------------------------------------------------

/// `s` split at every character that is not an ASCII letter or digit.
pub open spec fn split_non_alnum(s: Seq<char>) -> Seq<Seq<char>>
    decreases s.len(),
{
    if s.len() == 0 {
        seq![Seq::empty()]
    } else {
        let prev = split_non_alnum(s.drop_last());
        if !is_ascii_alphanumeric(s.last()) {
            prev.push(Seq::empty())
        } else {
            prev.update(prev.len() - 1, prev.last().push(s.last()))
        }
    }
}

/// The maximal runs of ASCII letters and digits in `s`.
pub open spec fn alnum_tokens(s: Seq<char>) -> Seq<Seq<char>> {
    split_non_alnum(s).filter(|t: Seq<char>| t.len() > 0)
}

/// Whether `symbol` is mentioned in a message whose lower-cased text is
/// `lower`: the whole symbol occurs in it, or a token of it equals the
/// symbol's base (before `/`) or its code (after the last `.`).
pub open spec fn mentions(lower: Seq<char>, symbol: Seq<char>) -> bool {
    mentions_lowered(lower, unicode_lower(symbol))
}

/// Whether a message whose lower-cased text is `lower` mentions a symbol
/// whose lower-cased text is `sl` (see `mentions`).
pub open spec fn mentions_lowered(lower: Seq<char>, sl: Seq<char>) -> bool {
    let tokens = alnum_tokens(lower);
    has_infix(lower, sl) || tokens.contains(before_char(sl, '/')) || tokens.contains(after_last_char(sl, '.'))
}

/// The first of `symbols` that the message mentions, each symbol paired
/// with its lower-cased text in `lowered`, as far as both go.
pub open spec fn first_mentioned_lowered(
    lower: Seq<char>,
    symbols: Seq<Seq<char>>,
    lowered: Seq<Seq<char>>,
) -> Option<Seq<char>>
    decreases symbols.len(),
{
    if symbols.len() == 0 || lowered.len() == 0 {
        None
    } else if mentions_lowered(lower, lowered[0]) {
        Some(symbols[0])
    } else {
        first_mentioned_lowered(lower, symbols.drop_first(), lowered.drop_first())
    }
}

/// Each symbol lower-cased.
pub open spec fn lowered_all(symbols: Seq<Seq<char>>) -> Seq<Seq<char>> {
    symbols.map_values(|t: Seq<char>| unicode_lower(t))
}

/// The first of `symbols` that the message mentions.
pub open spec fn first_mentioned(lower: Seq<char>, symbols: Seq<Seq<char>>) -> Option<Seq<char>>
    decreases symbols.len(),
{
    if symbols.len() == 0 {
        None
    } else if mentions(lower, symbols[0]) {
        Some(symbols[0])
    } else {
        first_mentioned(lower, symbols.drop_first())
    }
}

proof fn lemma_first_mentioned_lowered(lower: Seq<char>, symbols: Seq<Seq<char>>)
    ensures
        first_mentioned(lower, symbols) == first_mentioned_lowered(lower, symbols, lowered_all(symbols)),
    decreases symbols.len(),
{
    if symbols.len() > 0 {
        assert(lowered_all(symbols).drop_first() =~= lowered_all(symbols.drop_first()));
        lemma_first_mentioned_lowered(lower, symbols.drop_first());
    }
}

proof fn lemma_split_non_alnum_nonempty(s: Seq<char>)
    ensures
        split_non_alnum(s).len() >= 1,
    decreases s.len(),
{
    if s.len() > 0 {
        lemma_split_non_alnum_nonempty(s.drop_last());
    }
}

fn split_non_alnum_exec(s: &[char]) -> (r: Vec<Vec<char>>)
    ensures
        r@.map_values(|p: Vec<char>| p@) == split_non_alnum(s@),
{
    let mut parts: Vec<Vec<char>> = Vec::new();
    parts.push(Vec::new());
    let mut i: usize = 0;
    assert(parts@.map_values(|p: Vec<char>| p@) =~= split_non_alnum(s@.take(0)));
    while i < s.len()
        invariant
            i <= s.len(),
            parts@.len() >= 1,
            parts@.map_values(|p: Vec<char>| p@) == split_non_alnum(s@.take(i as int)),
        decreases s.len() - i,
    {
        let ghost prev = parts@.map_values(|p: Vec<char>| p@);
        assert(s@.take(i + 1).drop_last() =~= s@.take(i as int));
        assert(s@.take(i + 1).last() == s@[i as int]);
        if !is_ascii_alphanumeric_exec(s[i]) {
            parts.push(Vec::new());
            assert(parts@.map_values(|p: Vec<char>| p@) =~= prev.push(Seq::empty()));
        } else {
            let mut last = parts.pop().unwrap();
            last.push(s[i]);
            parts.push(last);
            assert(parts@.map_values(|p: Vec<char>| p@) =~= prev.update(prev.len() - 1, prev.last().push(s@[i as int])));
        }
        i += 1;
    }
    assert(s@.take(s.len() as int) =~= s@);
    parts
}

/// Whether `x` is one of the non-empty `parts`.
fn among_tokens(parts: &Vec<Vec<char>>, x: &[char]) -> (r: bool)
    ensures
        r == parts@.map_values(|p: Vec<char>| p@).filter(|t: Seq<char>| t.len() > 0).contains(x@),
{
    let ghost pv = parts@.map_values(|p: Vec<char>| p@);
    let ghost f = |t: Seq<char>| t.len() > 0;
    let mut i: usize = 0;
    let mut found = false;
    proof {
        reveal(Seq::filter);
        assert(pv.take(0).filter(f) =~= Seq::<Seq<char>>::empty());
    }
    while i < parts.len()
        invariant
            i <= parts.len(),
            pv == parts@.map_values(|p: Vec<char>| p@),
            f == (|t: Seq<char>| t.len() > 0),
            found == pv.take(i as int).filter(f).contains(x@),
        decreases parts.len() - i,
    {
        proof {
            reveal(Seq::filter);
            assert(pv.take(i + 1).drop_last() =~= pv.take(i as int));
            assert(pv.take(i + 1).last() == pv[i as int]);
            assert(pv[i as int] == parts@[i as int]@);
        }
        let same = parts[i].len() > 0 && chars_eq(&parts[i], x);
        proof {
            let old_f = pv.take(i as int).filter(f);
            let new_f = pv.take(i + 1).filter(f);
            if f(pv[i as int]) {
                assert(new_f == old_f.push(pv[i as int]));
                if old_f.contains(x@) {
                    let k = choose|k: int| 0 <= k < old_f.len() && old_f[k] == x@;
                    assert(new_f[k] == x@);
                }
                if same {
                    assert(new_f[old_f.len() as int] == x@);
                }
                if new_f.contains(x@) && !same {
                    let k = choose|k: int| 0 <= k < new_f.len() && new_f[k] == x@;
                    assert(k < old_f.len());
                    assert(old_f[k] == x@);
                }
            } else {
                assert(new_f == old_f);
            }
        }
        found = found || same;
        i += 1;
    }
    assert(pv.take(parts.len() as int) =~= pv);
    found
}

fn mentions_exec(lower: &[char], tokens: &Vec<Vec<char>>, lowered_symbol: &str) -> (r: bool)
    requires
        tokens@.map_values(|p: Vec<char>| p@) == split_non_alnum(lower@),
    ensures
        r == mentions_lowered(lower@, lowered_symbol@),
{
    let sl = chars_of(lowered_symbol);
    if has_infix_exec(lower, &sl) {
        return true;
    }
    let base = crate::market::before_char_exec(&sl, '/');
    if among_tokens(tokens, &base) {
        return true;
    }
    let code = after_last_char_exec(&sl, '.');
    among_tokens(tokens, &code)
}

fn after_last_char_exec(s: &[char], sep: char) -> (r: Vec<char>)
    ensures
        r@ == after_last_char(s@, sep),
{
    let mut out: Vec<char> = Vec::new();
    let mut i: usize = 0;
    while i < s.len()
        invariant
            i <= s.len(),
            out@ == after_last_char(s@.take(i as int), sep),
        decreases s.len() - i,
    {
        assert(s@.take(i + 1).drop_last() =~= s@.take(i as int));
        assert(s@.take(i + 1).last() == s@[i as int]);
        if s[i] == sep {
            out = Vec::new();
        } else {
            out.push(s[i]);
        }
        i += 1;
    }
    assert(s@.take(s.len() as int) =~= s@);
    out
}

/// The first of `available_symbols` that a message mentions, given the
/// message lower-cased and each symbol lower-cased (`lowered_symbols`, paired
/// by position, as far as both go).
pub fn extract_symbol_lowered(
    lower_message: &str,
    available_symbols: &[String],
    lowered_symbols: &[String],
) -> (r: Option<String>)
    ensures
        match r {
            Some(s) => first_mentioned_lowered(
                lower_message@,
                string_views(available_symbols@),
                string_views(lowered_symbols@),
            ) == Some(s@),
            None => first_mentioned_lowered(
                lower_message@,
                string_views(available_symbols@),
                string_views(lowered_symbols@),
            ) is None,
        },
{
    let lower = chars_of(lower_message);
    let tokens = split_non_alnum_exec(&lower);
    let ghost sv = string_views(available_symbols@);
    let ghost lv = string_views(lowered_symbols@);
    let mut i: usize = 0;
    assert(sv.skip(0) =~= sv);
    assert(lv.skip(0) =~= lv);
    while i < available_symbols.len() && i < lowered_symbols.len()
        invariant
            i <= available_symbols.len(),
            i <= lowered_symbols.len(),
            sv == string_views(available_symbols@),
            lv == string_views(lowered_symbols@),
            lower@ == lower_message@,
            tokens@.map_values(|p: Vec<char>| p@) == split_non_alnum(lower@),
            first_mentioned_lowered(lower@, sv, lv) == first_mentioned_lowered(
                lower@,
                sv.skip(i as int),
                lv.skip(i as int),
            ),
        decreases available_symbols.len() - i,
    {
        assert(sv.skip(i as int)[0] == available_symbols@[i as int]@);
        assert(lv.skip(i as int)[0] == lowered_symbols@[i as int]@);
        assert(sv.skip(i as int).drop_first() =~= sv.skip(i + 1));
        assert(lv.skip(i as int).drop_first() =~= lv.skip(i + 1));
        if mentions_exec(&lower, &tokens, lowered_symbols[i].as_str()) {
            return Some(available_symbols[i].clone());
        }
        i += 1;
    }
    None
}

/// The first of `available_symbols` that `message` mentions (see `mentions`),
/// comparing lower-cased text.
pub fn extract_symbol(message: &str, available_symbols: &[String]) -> (r: Option<String>)
    ensures
        match r {
            Some(s) => first_mentioned(unicode_lower(message@), string_views(available_symbols@)) == Some(s@),
            None => first_mentioned(unicode_lower(message@), string_views(available_symbols@)) is None,
        },
{
    let lower = to_lowercase_str(message);
    let ghost sv = string_views(available_symbols@);
    let mut lowered: Vec<String> = Vec::new();
    let mut i: usize = 0;
    while i < available_symbols.len()
        invariant
            i <= available_symbols.len(),
            sv == string_views(available_symbols@),
            string_views(lowered@) == lowered_all(sv.take(i as int)),
        decreases available_symbols.len() - i,
    {
        let l = to_lowercase_str(available_symbols[i].as_str());
        let ghost before = string_views(lowered@);
        lowered.push(l);
        assert(string_views(lowered@) =~= before.push(unicode_lower(sv[i as int])));
        assert(lowered_all(sv.take(i + 1)) =~= lowered_all(sv.take(i as int)).push(unicode_lower(sv[i as int])));
        i += 1;
    }
    assert(sv.take(available_symbols.len() as int) =~= sv);
    proof {
        lemma_first_mentioned_lowered(unicode_lower(message@), sv);
    }
    extract_symbol_lowered(lower.as_str(), available_symbols, &lowered)
}

// ---------------------------------------------------------------------------
// Reply text
// ---------------------------------------------------------------------------

/// `s` without `<think>...</think>` blocks; an unterminated block runs to the end.
#[verifier::opaque]
pub open spec fn strip_think_spec(s: Seq<char>) -> Seq<char>
    decreases s.len(),
{
    match first_occurrence(s, "<think>"@) {
        None => s,
        Some(i) => {
            let after = s.skip(i + 7);
            match first_occurrence(after, "</think>"@) {
                None => s.take(i),
                Some(j) => if 0 <= i && 0 <= j && i + 7 + j + 8 <= s.len() {
                    s.take(i) + strip_think_spec(after.skip(j + 8))
                } else {
                    s.take(i)
                },
            }
        },
    }
}

proof fn lemma_strip_step(s: Seq<char>, i: int, j: int)
    requires
        "<think>"@.len() == 7,
        "</think>"@.len() == 8,
        first_occurrence(s, "<think>"@) == Some(i),
        crate::text::occurs_at(s, "<think>"@, i),
        first_occurrence(s.skip(i + 7), "</think>"@) == Some(j),
        crate::text::occurs_at(s.skip(i + 7), "</think>"@, j),
    ensures
        strip_think_spec(s) == s.take(i) + strip_think_spec(s.skip(i + 7).skip(j + 8)),
{
    let after = s.skip(i + 7);
    assert(0 <= i && i + 7 <= s.len());
    assert(after.len() == s.len() - i - 7);
    assert(0 <= j && j + 8 <= after.len());
    assert(strip_think_spec(s) == s.take(i) + strip_think_spec(after.skip(j + 8))) by {
        reveal(strip_think_spec);
    }
}

proof fn lemma_strip_unclosed(s: Seq<char>, i: int)
    requires
        first_occurrence(s, "<think>"@) == Some(i),
        first_occurrence(s.skip(i + 7), "</think>"@) is None,
    ensures
        strip_think_spec(s) == s.take(i),
{
    reveal(strip_think_spec);
}

proof fn lemma_strip_none(s: Seq<char>)
    requires
        first_occurrence(s, "<think>"@) is None,
    ensures
        strip_think_spec(s) == s,
{
    reveal(strip_think_spec);
}

proof fn lemma_strip_shorter(s: Seq<char>)
    ensures
        strip_think_spec(s).len() <= s.len(),
    decreases s.len(),
{
    reveal(strip_think_spec);
    reveal_strlit("<think>");
    crate::text::lemma_first_occurrence(s, "<think>"@);
    match first_occurrence(s, "<think>"@) {
        None => {},
        Some(i) => {
            let after = s.skip(i + 7);
            match first_occurrence(after, "</think>"@) {
                None => {},
                Some(j) => {
                    if 0 <= i && 0 <= j && i + 7 + j + 8 <= s.len() {
                        lemma_strip_shorter(after.skip(j + 8));
                    }
                },
            }
        },
    }
}

/// Removing reasoning blocks leaves a text without `<think>` as it is, and
/// never makes a text longer.
pub proof fn law_strip_think(s: Seq<char>)
    ensures
        !has_infix(s, "<think>"@) ==> strip_think_spec(s) == s,
        strip_think_spec(s).len() <= s.len(),
{
    lemma_strip_shorter(s);
    if !has_infix(s, "<think>"@) {
        crate::text::lemma_first_occurrence(s, "<think>"@);
        lemma_strip_none(s);
    }
}

pub fn strip_think_blocks(source: &str) -> (r: String)
    ensures
        r@ == strip_think_spec(source@),
{
    proof {
        reveal_strlit("<think>");
        reveal_strlit("</think>");
    }
    let open_tag = chars_of("<think>");
    let close_tag = chars_of("</think>");
    let mut result: Vec<char> = Vec::new();
    let mut rest = chars_of(source);
    assert(result@ + strip_think_spec(rest@) =~= strip_think_spec(source@));
    loop
        invariant
            open_tag@ == "<think>"@,
            close_tag@ == "</think>"@,
            "<think>"@.len() == 7,
            "</think>"@.len() == 8,
            result@ + strip_think_spec(rest@) == strip_think_spec(source@),
        decreases rest@.len(),
    {
        match find_exec(&rest, &open_tag) {
            None => {
                proof {
                    lemma_strip_none(rest@);
                }
                let mut r = rest;
                result.append(&mut r);
                return string_from_chars(&result);
            },
            Some(start) => {
                assert(start + 7 <= rest.len());
                let mut head = slice_range(&rest, 0, start);
                let after = slice_from(&rest, start + 7);
                match find_exec(&after, &close_tag) {
                    None => {
                        proof {
                            lemma_strip_unclosed(rest@, start as int);
                        }
                        let ghost before = result@;
                        result.append(&mut head);
                        assert(result@ =~= before + rest@.take(start as int));
                        assert(before + rest@.take(start as int) =~= before + strip_think_spec(rest@));
                        return string_from_chars(&result);
                    },
                    Some(end) => {
                        proof {
                            lemma_strip_step(rest@, start as int, end as int);
                        }
                        let ghost before = result@;
                        let ghost old_rest = rest@;
                        result.append(&mut head);
                        let next = slice_from(&after, end + 8);
                        assert(result@ + strip_think_spec(next@) =~= before + strip_think_spec(old_rest));
                        rest = next;
                    },
                }
            },
        }
    }
}

/// The first 220 bytes of the trimmed result followed by `...`, or the
/// trimmed result itself when it is no longer.
pub open spec fn preview_spec(result: Seq<char>) -> Seq<char> {
    let t = trimmed(result);
    if byte_len(t) <= 220 {
        t
    } else {
        t.take(boundary_index(t, 220)->0) + "..."@
    }
}

/// Cutting at byte 220 is only possible on a character boundary.
pub open spec fn preview_cut_ok(result: Seq<char>) -> bool {
    let t = trimmed(result);
    byte_len(t) <= 220 || boundary_index(t, 220) is Some
}

pub fn preview_tool_result(result: &str) -> (r: String)
    requires
        preview_cut_ok(result@),
    ensures
        r@ == preview_spec(result@),
{
    let t = trim_str(result);
    let tc = chars_of(t.as_str());
    if byte_len_at_most(&tc, 220) {
        return t;
    }
    proof {
        crate::backtest::lemma_boundary_index_range(tc@, 220);
    }
    let k = boundary_index_exec(&tc, 220).unwrap();
    let mut out = slice_range(&tc, 0, k);
    let mut dots = chars_of("...");
    out.append(&mut dots);
    string_from_chars(&out)
}

// ---------------------------------------------------------------------------
// Accounts
// ---------------------------------------------------------------------------

/// An account name without its `Paper: ` prefix.
pub open spec fn normalized_exchange_spec(exchange: Seq<char>) -> Seq<char> {
    if has_prefix(exchange, "Paper: "@) {
        exchange.skip("Paper: "@.len() as int)
    } else {
        exchange
    }
}

pub fn normalized_exchange_name(exchange: &str) -> (r: String)
    ensures
        r@ == normalized_exchange_spec(exchange@),
{
    let e = chars_of(exchange);
    let prefix = chars_of("Paper: ");
    if has_prefix_exec(&e, &prefix) {
        string_from_chars(&slice_from(&e, prefix.len()))
    } else {
        exchange.to_string()
    }
}

/// Whether an account is the requested one, ignoring its `Paper: ` prefix
/// and ASCII case.
pub fn matches_exchange_name(exchange: &str, requested_exchange: &str) -> (r: bool)
    ensures
        r == eq_ignore_case(normalized_exchange_spec(exchange@), requested_exchange@),
{
    let n = normalized_exchange_name(exchange);
    eq_ignore_case_exec(&chars_of(n.as_str()), &chars_of(requested_exchange))
}


// ---------------------------------------------------------------------------
// Prompts and tool call summaries
// ---------------------------------------------------------------------------

/// `parts` joined with `sep` between neighbours.
pub open spec fn joined(parts: Seq<Seq<char>>, sep: Seq<char>) -> Seq<char>
    decreases parts.len(),
{
    if parts.len() == 0 {
        Seq::empty()
    } else if parts.len() == 1 {
        parts[0]
    } else {
        joined(parts.drop_last(), sep) + sep + parts.last()
    }
}

pub(crate) fn append_chars(out: &mut Vec<char>, s: &[char])
    ensures
        final(out)@ == old(out)@ + s@,
{
    let mut i: usize = 0;
    let ghost start = out@;
    while i < s.len()
        invariant
            i <= s.len(),
            out@ == start + s@.take(i as int),
        decreases s.len() - i,
    {
        out.push(s[i]);
        assert(s@.take(i + 1) =~= s@.take(i as int).push(s@[i as int]));
        i += 1;
    }
    assert(s@.take(s.len() as int) =~= s@);
}

pub(crate) fn append_str(out: &mut Vec<char>, s: &str)
    ensures
        final(out)@ == old(out)@ + s@,
{
    append_chars(out, &chars_of(s));
}

pub(crate) fn join_strings(parts: &Vec<String>, sep: &str) -> (r: Vec<char>)
    ensures
        r@ == joined(string_views(parts@), sep@),
{
    let mut out: Vec<char> = Vec::new();
    let ghost pv = string_views(parts@);
    let mut i: usize = 0;
    while i < parts.len()
        invariant
            i <= parts.len(),
            pv == string_views(parts@),
            out@ == joined(pv.take(i as int), sep@),
        decreases parts.len() - i,
    {
        proof {
            assert(pv.take(i + 1).drop_last() =~= pv.take(i as int));
            assert(pv.take(i + 1).last() == parts@[i as int]@);
        }
        if i > 0 {
            append_str(&mut out, sep);
        }
        append_str(&mut out, parts[i].as_str());
        proof {
            if i == 0 {
                assert(out@ =~= pv.take(1)[0]);
            }
        }
        i += 1;
    }
    assert(pv.take(parts.len() as int) =~= pv);
    out
}

/// The fixed part of the built-in assistant instructions, before the tool list.
pub const DEFAULT_ASSISTANT_PROMPT: &'static str = "你是 KittyRed Assistant，只服务沪深 A 股和本地模拟投资。需要行情、个股资料、盘口、K 线、组合、持仓、建议或风险事实时必须调用工具，不要猜测。用简洁中文 Markdown 回答。如果缓存行情不可用，要明确说明并建议用户刷新自选股行情，不要编造实时行情。只有用户明确要求创建模拟委托草稿时，才调用 paper_order_draft。可用工具: ";

/// The assistant's instructions: the user's own prompt when it is not blank
/// (trimmed, with the tool list), else the built-in one with the tool list
/// and, when given, the user's extra preferences.
pub open spec fn system_prompt_spec(custom_prompt: Seq<char>, extension: Seq<char>) -> Seq<char> {
    let tools = joined(tool_names_spec(true), ", "@);
    if trimmed(custom_prompt).len() != 0 {
        trimmed(custom_prompt) + " 可用工具: "@ + tools + "."@
    } else if trimmed(extension).len() != 0 {
        DEFAULT_ASSISTANT_PROMPT@ + tools + "."@ + " 用户补充偏好: "@ + trimmed(extension)
    } else {
        DEFAULT_ASSISTANT_PROMPT@ + tools + "."@
    }
}

pub fn assistant_system_prompt(custom_prompt: &str, extension: &str) -> (r: String)
    ensures
        r@ == system_prompt_spec(custom_prompt@, extension@),
{
    let tools = join_strings(&allowed_tools(), ", ");
    let custom = chars_of(trim_str(custom_prompt).as_str());
    let mut out: Vec<char> = Vec::new();
    if custom.len() != 0 {
        append_chars(&mut out, &custom);
        append_str(&mut out, " 可用工具: ");
        append_chars(&mut out, &tools);
        append_str(&mut out, ".");
        return string_from_chars(&out);
    }
    append_str(&mut out, DEFAULT_ASSISTANT_PROMPT);
    append_chars(&mut out, &tools);
    append_str(&mut out, ".");
    let ext = chars_of(trim_str(extension).as_str());
    if ext.len() != 0 {
        append_str(&mut out, " 用户补充偏好: ");
        append_chars(&mut out, &ext);
    }
    string_from_chars(&out)
}

/// A text argument of a tool call: trimmed, and absent when blank.
pub open spec fn argument_text(raw: Option<Seq<char>>) -> Option<Seq<char>> {
    match raw {
        Some(v) if trimmed(v).len() != 0 => Some(trimmed(v)),
        _ => None,
    }
}

pub open spec fn opt_str_view(o: Option<&str>) -> Option<Seq<char>> {
    match o {
        Some(v) => Some(v@),
        None => None,
    }
}

/// Reads a text argument given as the raw string the call carried.
pub fn tool_argument_text(raw: Option<&str>) -> (r: Option<String>)
    ensures
        match r {
            Some(v) => argument_text(opt_str_view(raw)) == Some(v@),
            None => argument_text(opt_str_view(raw)) is None,
        },
{
    match raw {
        Some(v) => {
            let t = trim_str(v);
            if chars_of(t.as_str()).len() != 0 {
                Some(t)
            } else {
                None
            }
        },
        None => None,
    }
}

pub open spec fn or_default_text(o: Option<Seq<char>>, d: Seq<char>) -> Seq<char> {
    match o {
        Some(v) => v,
        None => d,
    }
}

/// The one-line description of a tool call shown while it runs; `stock_code`
/// and `account` are the raw text arguments of the call.
pub open spec fn tool_call_summary(name: Seq<char>, stock_code: Option<Seq<char>>, account: Option<Seq<char>>) -> Seq<char> {
    let code = argument_text(stock_code);
    if name == "market_data"@ {
        "读取 "@ + or_default_text(code, "自选股缓存"@) + " 的缓存行情"@
    } else if name == "stock_info"@ {
        "读取 "@ + or_default_text(code, "指定股票"@) + " 的个股资料"@
    } else if name == "bid_ask"@ {
        "读取 "@ + or_default_text(code, "指定股票"@) + " 的五档盘口"@
    } else if name == "kline_data"@ {
        "读取 "@ + or_default_text(code, "指定股票"@) + " 的多周期 K 线"@
    } else if name == "recommendation_history"@ {
        "读取投资建议历史"@
    } else if name == "risk_calculator"@ {
        "汇总投资建议风险"@
    } else if name == "portfolio"@ {
        "读取本地模拟组合"@
    } else if name == "positions"@ {
        "读取模拟持仓和委托"@
    } else if name == "paper_order_draft"@ {
        "创建 "@ + or_default_text(argument_text(account), "默认模拟账户"@) + " 的模拟委托草稿"@
    } else {
        "Run "@ + name
    }
}

fn text_or(o: Option<String>, d: &str) -> (r: Vec<char>)
    ensures
        r@ == or_default_text(
            match o {
                Some(v) => Some(v@),
                None => None,
            },
            d@,
        ),
{
    match o {
        Some(v) => chars_of(v.as_str()),
        None => chars_of(d),
    }
}

fn phrase(before: &str, middle: &[char], after: &str) -> (r: String)
    ensures
        r@ == before@ + middle@ + after@,
{
    let mut out: Vec<char> = Vec::new();
    append_str(&mut out, before);
    append_chars(&mut out, middle);
    append_str(&mut out, after);
    string_from_chars(&out)
}

pub fn summarize_tool_call(name: &str, stock_code: Option<&str>, account: Option<&str>) -> (r: String)
    ensures
        r@ == tool_call_summary(name@, opt_str_view(stock_code), opt_str_view(account)),
{
    let n = chars_of(name);
    if chars_eq(&n, &chars_of("market_data")) {
        phrase("读取 ", &text_or(tool_argument_text(stock_code), "自选股缓存"), " 的缓存行情")
    } else if chars_eq(&n, &chars_of("stock_info")) {
        phrase("读取 ", &text_or(tool_argument_text(stock_code), "指定股票"), " 的个股资料")
    } else if chars_eq(&n, &chars_of("bid_ask")) {
        phrase("读取 ", &text_or(tool_argument_text(stock_code), "指定股票"), " 的五档盘口")
    } else if chars_eq(&n, &chars_of("kline_data")) {
        phrase("读取 ", &text_or(tool_argument_text(stock_code), "指定股票"), " 的多周期 K 线")
    } else if chars_eq(&n, &chars_of("recommendation_history")) {
        "读取投资建议历史".to_string()
    } else if chars_eq(&n, &chars_of("risk_calculator")) {
        "汇总投资建议风险".to_string()
    } else if chars_eq(&n, &chars_of("portfolio")) {
        "读取本地模拟组合".to_string()
    } else if chars_eq(&n, &chars_of("positions")) {
        "读取模拟持仓和委托".to_string()
    } else if chars_eq(&n, &chars_of("paper_order_draft")) {
        phrase("创建 ", &text_or(tool_argument_text(account), "默认模拟账户"), " 的模拟委托草稿")
    } else {
        proof {
            reveal_strlit("");
        }
        assert("Run "@ + n@ + ""@ =~= "Run "@ + name@);
        phrase("Run ", &n, "")
    }
}


// ---------------------------------------------------------------------------
// Which symbol and which recommendation a tool call is about
// ---------------------------------------------------------------------------

pub open spec fn opt_string_view(o: Option<String>) -> Option<Seq<char>> {
    match o {
        Some(v) => Some(v@),
        None => None,
    }
}

/// The symbol a tool call asks about: the first cached symbol that the
/// requested text mentions, else the requested text itself; none when no
/// symbol was requested.
pub open spec fn resolved_symbol_spec(requested: Option<Seq<char>>, available: Seq<Seq<char>>) -> Option<Seq<char>> {
    match requested {
        None => None,
        Some(q) => match first_mentioned(unicode_lower(q), available) {
            Some(s) => Some(s),
            None => Some(q),
        },
    }
}

pub fn resolved_symbol(requested: Option<String>, available_symbols: &[String]) -> (r: Option<String>)
    ensures
        opt_string_view(r) == resolved_symbol_spec(opt_string_view(requested), string_views(available_symbols@)),
{
    match requested {
        None => None,
        Some(q) => match extract_symbol(q.as_str(), available_symbols) {
            Some(s) => Some(s),
            None => Some(q),
        },
    }
}

/// The positions of the history rows kept for a symbol: those whose symbol
/// equals it ignoring ASCII case, or every row when no symbol is given.
pub open spec fn history_rows_for(row_symbols: Seq<Seq<char>>, symbol: Option<Seq<char>>) -> Seq<int>
    decreases row_symbols.len(),
{
    if row_symbols.len() == 0 {
        Seq::empty()
    } else {
        let prev = history_rows_for(row_symbols.drop_last(), symbol);
        let keep = match symbol {
            Some(s) => eq_ignore_case(row_symbols.last(), s),
            None => true,
        };
        if keep {
            prev.push(row_symbols.len() - 1)
        } else {
            prev
        }
    }
}

/// Which rows of the recommendation history (given by their symbols) a tool
/// call reads, as positions in order.
pub fn filter_recommendation_history(row_symbols: &[String], symbol: Option<&str>) -> (r: Vec<usize>)
    ensures
        r@.map_values(|k: usize| k as int) == history_rows_for(string_views(row_symbols@), opt_str_view(symbol)),
{
    let ghost sv = string_views(row_symbols@);
    let wanted: Option<Vec<char>> = match symbol {
        Some(s) => Some(chars_of(s)),
        None => None,
    };
    let mut out: Vec<usize> = Vec::new();
    let mut i: usize = 0;
    while i < row_symbols.len()
        invariant
            i <= row_symbols.len(),
            sv == string_views(row_symbols@),
            match wanted {
                Some(w) => opt_str_view(symbol) == Some(w@),
                None => opt_str_view(symbol) is None,
            },
            out@.map_values(|k: usize| k as int) == history_rows_for(sv.take(i as int), opt_str_view(symbol)),
        decreases row_symbols.len() - i,
    {
        proof {
            assert(sv.take(i + 1).drop_last() =~= sv.take(i as int));
            assert(sv.take(i + 1).last() == row_symbols@[i as int]@);
        }
        let keep = match &wanted {
            Some(w) => eq_ignore_case_exec(&chars_of(row_symbols[i].as_str()), w),
            None => true,
        };
        if keep {
            let ghost before = out@.map_values(|k: usize| k as int);
            out.push(i);
            assert(out@.map_values(|k: usize| k as int) =~= before.push(i as int));
        }
        i += 1;
    }
    assert(sv.take(row_symbols.len() as int) =~= sv);
    out
}

/// Where the recommendation for a tool call comes from.
#[derive(Debug, PartialEq, Eq)]
pub enum RecommendationSource {
    /// This run of the latest recommendations.
    Latest(usize),
    /// The run that the history row read for the call names.
    HistoryHint,
    /// No recommendation.
    Nothing,
}

pub open spec fn opt_views(v: Seq<Option<String>>) -> Seq<Option<Seq<char>>> {
    v.map_values(|o: Option<String>| opt_string_view(o))
}

/// The first run whose symbol equals `symbol` ignoring ASCII case.
pub open spec fn first_run_for(runs: Seq<Option<Seq<char>>>, symbol: Seq<char>) -> Option<int>
    decreases runs.len(),
{
    if runs.len() == 0 {
        None
    } else if runs[0] matches Some(s) && eq_ignore_case(s, symbol) {
        Some(0)
    } else {
        match first_run_for(runs.drop_first(), symbol) {
            Some(k) => Some(k + 1),
            None => None,
        }
    }
}

/// With no symbol, the first of the latest runs; with one, the first latest
/// run for it, else the run named by the history row when there is one.
pub open spec fn recommendation_source_spec(
    latest_run_symbols: Seq<Option<Seq<char>>>,
    symbol: Option<Seq<char>>,
    has_history_hint: bool,
) -> RecommendationSource {
    match symbol {
        None => if latest_run_symbols.len() > 0 {
            RecommendationSource::Latest(0)
        } else {
            RecommendationSource::Nothing
        },
        Some(s) => match first_run_for(latest_run_symbols, s) {
            Some(k) => RecommendationSource::Latest(k as usize),
            None => if has_history_hint {
                RecommendationSource::HistoryHint
            } else {
                RecommendationSource::Nothing
            },
        },
    }
}

/// Picks the recommendation a tool call reports, from the symbols of the
/// latest runs (in order) and whether a history row for the symbol was read.
pub fn recommendation_source(
    latest_run_symbols: &[Option<String>],
    symbol: Option<&str>,
    has_history_hint: bool,
) -> (r: RecommendationSource)
    ensures
        r == recommendation_source_spec(opt_views(latest_run_symbols@), opt_str_view(symbol), has_history_hint),
{
    let ghost runs = opt_views(latest_run_symbols@);
    match symbol {
        None => if latest_run_symbols.len() > 0 {
            RecommendationSource::Latest(0)
        } else {
            RecommendationSource::Nothing
        },
        Some(s) => {
            let wanted = chars_of(s);
            let mut i: usize = 0;
            assert(runs.skip(0) =~= runs);
            assert(opt_str_view(symbol) == Some(s@));
            while i < latest_run_symbols.len()
                invariant
                    i <= latest_run_symbols.len(),
                    runs == opt_views(latest_run_symbols@),
                    wanted@ == s@,
                    opt_str_view(symbol) == Some(s@),
                    first_run_for(runs, s@) == (match first_run_for(runs.skip(i as int), s@) {
                        Some(k) => Some(k + i),
                        None => None::<int>,
                    }),
                decreases latest_run_symbols.len() - i,
            {
                let hit = match &latest_run_symbols[i] {
                    Some(v) => eq_ignore_case_exec(&chars_of(v.as_str()), &wanted),
                    None => false,
                };
                proof {
                    let rest = runs.skip(i as int);
                    assert(rest[0] == opt_string_view(latest_run_symbols@[i as int]));
                    assert(rest.drop_first() =~= runs.skip(i + 1));
                }
                if hit {
                    proof {
                        let rest = runs.skip(i as int);
                        assert(first_run_for(rest, s@) == Some(0int));
                        assert(first_run_for(runs, s@) == Some(i as int));
                    }
                    return RecommendationSource::Latest(i);
                }
                i += 1;
            }
            assert(runs.skip(i as int).len() == 0);
            if has_history_hint {
                RecommendationSource::HistoryHint
            } else {
                RecommendationSource::Nothing
            }
        },
    }
}


// ---------------------------------------------------------------------------
// Tool arguments and what the tools keep
// ---------------------------------------------------------------------------

/// A count argument: the requested one, else `default`, held to `[lo, hi]`.
pub open spec fn clamped_count_spec(requested: Option<usize>, default: usize, lo: usize, hi: usize) -> usize {
    let v = match requested {
        Some(n) => n,
        None => default,
    };
    if v < lo {
        lo
    } else if v > hi {
        hi
    } else {
        v
    }
}

pub fn clamped_count(requested: Option<usize>, default: usize, lo: usize, hi: usize) -> (r: usize)
    requires
        lo <= hi,
    ensures
        r == clamped_count_spec(requested, default, lo, hi),
        lo <= r <= hi,
{
    let v = match requested {
        Some(n) => n,
        None => default,
    };
    if v < lo {
        lo
    } else if v > hi {
        hi
    } else {
        v
    }
}

/// Rows the market data tool returns: five unless asked, one to ten.
pub fn market_data_limit(requested: Option<usize>) -> (r: usize)
    ensures
        r == clamped_count_spec(requested, 5, 1, 10),
{
    clamped_count(requested, 5, 1, 10)
}

/// The cached market rows (given by their symbols) that the market data
/// tool returns, as positions in order: those of the resolved symbol
/// (ignoring ASCII case), or all of them, cut to `limit`.
pub open spec fn market_tool_rows_spec(row_symbols: Seq<Seq<char>>, symbol: Option<Seq<char>>, limit: nat) -> Seq<int> {
    let kept = history_rows_for(row_symbols, symbol);
    if limit < kept.len() {
        kept.take(limit as int)
    } else {
        kept
    }
}

/// Which cached market rows the market data tool returns.
pub fn market_tool_rows(row_symbols: &[String], symbol: Option<&str>, limit: usize) -> (r: Vec<usize>)
    ensures
        r@.map_values(|k: usize| k as int) == market_tool_rows_spec(
            string_views(row_symbols@),
            opt_str_view(symbol),
            limit as nat,
        ),
{
    let mut rows = filter_recommendation_history(row_symbols, symbol);
    let ghost kept = rows@;
    rows.truncate(limit);
    proof {
        if (limit as int) < kept.len() {
            assert(rows@.map_values(|k: usize| k as int) =~= kept.map_values(|k: usize| k as int).take(
                limit as int,
            ));
        }
    }
    rows
}

/// Bars per frequency the K-line tool asks for: sixty unless asked, one to
/// one hundred and twenty.
pub fn kline_bar_count(requested: Option<usize>) -> (r: usize)
    ensures
        r == clamped_count_spec(requested, 60, 1, 120),
{
    clamped_count(requested, 60, 1, 120)
}

/// The account a paper order draft goes to: the requested one, else the
/// first exchange of the recommendation, else AKShare.
pub open spec fn draft_account_spec(requested: Option<Seq<char>>, exchanges: Seq<Seq<char>>) -> Seq<char> {
    match requested {
        Some(a) => a,
        None => if exchanges.len() > 0 {
            exchanges[0]
        } else {
            "akshare"@
        },
    }
}

pub fn draft_account(requested: Option<String>, recommendation_exchanges: &[String]) -> (r: String)
    ensures
        r@ == draft_account_spec(opt_string_view(requested), string_views(recommendation_exchanges@)),
{
    match requested {
        Some(a) => a,
        None => if recommendation_exchanges.len() > 0 {
            recommendation_exchanges[0].clone()
        } else {
            "akshare".to_string()
        },
    }
}

/// Whether the positions tool keeps a position or order: of the asked
/// symbol (ASCII case ignored) and of the asked account, where asked.
pub open spec fn keeps_holding(
    symbol: Seq<char>,
    exchange: Seq<char>,
    wanted_symbol: Option<Seq<char>>,
    wanted_account: Option<Seq<char>>,
) -> bool {
    &&& (wanted_symbol matches Some(s) ==> eq_ignore_case(symbol, s))
    &&& (wanted_account matches Some(a) ==> eq_ignore_case(normalized_exchange_spec(exchange), a))
}

/// The positions of the holdings (given by symbol and account) that the
/// positions tool keeps, in order.
pub open spec fn kept_holdings(
    holdings: Seq<(Seq<char>, Seq<char>)>,
    wanted_symbol: Option<Seq<char>>,
    wanted_account: Option<Seq<char>>,
) -> Seq<int>
    decreases holdings.len(),
{
    if holdings.len() == 0 {
        Seq::empty()
    } else {
        let prev = kept_holdings(holdings.drop_last(), wanted_symbol, wanted_account);
        if keeps_holding(holdings.last().0, holdings.last().1, wanted_symbol, wanted_account) {
            prev.push(holdings.len() - 1)
        } else {
            prev
        }
    }
}

pub open spec fn holding_views(v: Seq<(String, String)>) -> Seq<(Seq<char>, Seq<char>)> {
    v.map_values(|h: (String, String)| (h.0@, h.1@))
}

pub fn filter_holdings(
    holdings: &[(String, String)],
    symbol: Option<&str>,
    account: Option<&str>,
) -> (r: Vec<usize>)
    ensures
        r@.map_values(|k: usize| k as int) == kept_holdings(holding_views(holdings@), opt_str_view(symbol), opt_str_view(account)),
{
    let ghost hv = holding_views(holdings@);
    let mut out: Vec<usize> = Vec::new();
    let mut i: usize = 0;
    while i < holdings.len()
        invariant
            i <= holdings.len(),
            hv == holding_views(holdings@),
            out@.map_values(|k: usize| k as int) == kept_holdings(hv.take(i as int), opt_str_view(symbol), opt_str_view(account)),
        decreases holdings.len() - i,
    {
        proof {
            assert(hv.take(i + 1).drop_last() =~= hv.take(i as int));
            assert(hv.take(i + 1).last() == (holdings@[i as int].0@, holdings@[i as int].1@));
        }
        let symbol_ok = match symbol {
            Some(s) => eq_ignore_case_exec(&chars_of(holdings[i].0.as_str()), &chars_of(s)),
            None => true,
        };
        let account_ok = match account {
            Some(a) => matches_exchange_name(holdings[i].1.as_str(), a),
            None => true,
        };
        if symbol_ok && account_ok {
            let ghost before = out@.map_values(|k: usize| k as int);
            out.push(i);
            assert(out@.map_values(|k: usize| k as int) =~= before.push(i as int));
        }
        i += 1;
    }
    assert(hv.take(holdings.len() as int) =~= hv);
    out
}

/// The error of a risk review that found no recommendation.
pub fn no_recommendation_for_review(symbol: Option<&str>) -> (r: String)
    ensures
        r@ == match symbol {
            Some(s) => "No recommendation is available for risk review for "@ + s@ + "."@,
            None => "No recommendation is available for risk review."@,
        },
{
    match symbol {
        Some(s) => {
            let mut text: Vec<char> = Vec::new();
            append_str(&mut text, "No recommendation is available for risk review for ");
            append_str(&mut text, s);
            append_str(&mut text, ".");
            string_from_chars(&text)
        },
        None => "No recommendation is available for risk review.".to_string(),
    }
}

} // verus!
