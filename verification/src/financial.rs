//! Financial report analysis: stock code normalisation, reading the AI
//! analysis reply, the overall score and the radar scores derived from the
//! category scores, and the revision stamps of cached report payloads.
use sha2::{Digest, Sha256};
use vstd::prelude::*;

pub mod progress;

use crate::text::{
    chars_of, has_prefix, has_prefix_exec, is_ascii_digit, string_from_chars, to_uppercase_str, trim_str,
    trimmed, unicode_upper,
};

verus! {

// ---------------------------------------------------------------------------
// Stock codes
// ---------------------------------------------------------------------------

/// The ASCII digits of `s`, in order.
pub open spec fn digits_only(s: Seq<char>) -> Seq<char>
    decreases s.len(),
{
    if s.len() == 0 {
        s
    } else if is_ascii_digit(s.last()) {
        digits_only(s.drop_last()).push(s.last())
    } else {
        digits_only(s.drop_last())
    }
}

/// `format!("{:0>6}", code)`: left-padded with zeros to six characters.
pub open spec fn pad6(code: Seq<char>) -> Seq<char> {
    if code.len() >= 6 {
        code
    } else {
        Seq::new((6 - code.len()) as nat, |i: int| '0') + code
    }
}

/// Why a stock code was refused.
#[derive(Clone, Copy, Debug, PartialEq, Eq)]
pub enum StockCodeError {
    /// The value holds no digits.
    Empty,
}

/// A stock code in `SHSE.xxxxxx` / `SZSE.xxxxxx` form: values already in that
/// form are kept (trimmed, upper-cased); otherwise the digits, padded to six,
/// go to Shanghai when they start with 5, 6 or 9 and to Shenzhen otherwise.
pub open spec fn normalized_stock_code(value: Seq<char>) -> Result<Seq<char>, StockCodeError> {
    code_from_upper(unicode_upper(trimmed(value)))
}

/// The stock code of a value already trimmed and upper-cased (`raw`).
pub open spec fn code_from_upper(raw: Seq<char>) -> Result<Seq<char>, StockCodeError> {
    if has_prefix(raw, "SHSE."@) || has_prefix(raw, "SZSE."@) {
        Ok(raw)
    } else {
        let code = digits_only(raw);
        if code.len() == 0 {
            Err(StockCodeError::Empty)
        } else {
            let padded = pad6(code);
            if padded[0] == '5' || padded[0] == '6' || padded[0] == '9' {
                Ok("SHSE."@ + padded)
            } else {
                Ok("SZSE."@ + padded)
            }
        }
    }
}

proof fn lemma_digits_only_keeps_digits(s: Seq<char>)
    requires
        forall|i: int| 0 <= i < s.len() ==> '0' <= #[trigger] s[i] <= '9',
    ensures
        digits_only(s) == s,
    decreases s.len(),
{
    if s.len() > 0 {
        lemma_digits_only_keeps_digits(s.drop_last());
        assert(s.drop_last().push(s.last()) =~= s);
    }
}

/// A bare six-digit code goes to the Shanghai exchange when it starts with
/// 5, 6 or 9, and to the Shenzhen exchange otherwise; the digits are kept.
pub proof fn law_six_digit_code_exchange(code: Seq<char>)
    requires
        code.len() == 6,
        forall|i: int| 0 <= i < code.len() ==> '0' <= #[trigger] code[i] <= '9',
    ensures
        (code[0] == '5' || code[0] == '6' || code[0] == '9') ==> code_from_upper(code) == Ok::<
            Seq<char>,
            StockCodeError,
        >("SHSE."@ + code),
        !(code[0] == '5' || code[0] == '6' || code[0] == '9') ==> code_from_upper(code) == Ok::<
            Seq<char>,
            StockCodeError,
        >("SZSE."@ + code),
{
    reveal_strlit("SHSE.");
    reveal_strlit("SZSE.");
    assert(!has_prefix(code, "SHSE."@)) by {
        assert(code.subrange(0, 5)[0] == code[0]);
    }
    assert(!has_prefix(code, "SZSE."@)) by {
        assert(code.subrange(0, 5)[0] == code[0]);
    }
    lemma_digits_only_keeps_digits(code);
}

fn digits_only_exec(s: &[char]) -> (r: Vec<char>)
    ensures
        r@ == digits_only(s@),
{
    let mut out: Vec<char> = Vec::new();
    let mut i: usize = 0;
    while i < s.len()
        invariant
            i <= s.len(),
            out@ == digits_only(s@.take(i as int)),
        decreases s.len() - i,
    {
        assert(s@.take(i + 1).drop_last() =~= s@.take(i as int));
        assert(s@.take(i + 1).last() == s@[i as int]);
        if '0' <= s[i] && s[i] <= '9' {
            out.push(s[i]);
        }
        i += 1;
    }
    assert(s@.take(s.len() as int) =~= s@);
    out
}

pub fn normalize_stock_code(value: &str) -> (r: Result<String, StockCodeError>)
    ensures
        match r {
            Ok(s) => normalized_stock_code(value@) == Ok::<Seq<char>, StockCodeError>(s@),
            Err(e) => normalized_stock_code(value@) == Err::<Seq<char>, StockCodeError>(e),
        },
{
    let t = trim_str(value);
    let raw = to_uppercase_str(t.as_str());
    stock_code_from_upper(raw)
}

/// The stock code of a value that was already trimmed and upper-cased.
pub fn stock_code_from_upper(raw: String) -> (r: Result<String, StockCodeError>)
    ensures
        match r {
            Ok(s) => code_from_upper(raw@) == Ok::<Seq<char>, StockCodeError>(s@),
            Err(e) => code_from_upper(raw@) == Err::<Seq<char>, StockCodeError>(e),
        },
{
    let rc = chars_of(raw.as_str());
    if has_prefix_exec(&rc, &chars_of("SHSE.")) || has_prefix_exec(&rc, &chars_of("SZSE.")) {
        return Ok(raw);
    }
    let code = digits_only_exec(&rc);
    if code.len() == 0 {
        return Err(StockCodeError::Empty);
    }
    let mut padded: Vec<char> = Vec::new();
    if code.len() < 6 {
        let pad = 6 - code.len();
        let mut i: usize = 0;
        while i < pad
            invariant
                i <= pad,
                padded@ == Seq::new(i as nat, |k: int| '0'),
            decreases pad - i,
        {
            padded.push('0');
            assert(padded@ =~= Seq::new((i + 1) as nat, |k: int| '0'));
            i += 1;
        }
    }
    let mut c = code;
    padded.append(&mut c);
    assert(padded@ =~= pad6(digits_only(rc@)));
    let first = padded[0];
    let mut out = if first == '5' || first == '6' || first == '9' {
        chars_of("SHSE.")
    } else {
        chars_of("SZSE.")
    };
    out.append(&mut padded);
    Ok(string_from_chars(&out))
}

/// At most the first four characters of a display name.
pub fn shorten_display_name(value: &str) -> (r: String)
    ensures
        r@ == value@.take(if value@.len() < 4 { value@.len() as int } else { 4 }),
{
    let v = chars_of(value);
    let n: usize = if v.len() < 4 { v.len() } else { 4 };
    string_from_chars(&crate::numbers::slice_range(&v, 0, n))
}

// ---------------------------------------------------------------------------
// Scores
// ---------------------------------------------------------------------------

/// The analysis' score of each category.
#[derive(Clone, Copy, Debug, PartialEq, Eq)]
pub struct FinancialReportCategoryScores {
    pub revenue_quality: u32,
    pub gross_margin: u32,
    pub net_profit_return: u32,
    pub earnings_manipulation: u32,
    pub solvency: u32,
    pub cash_flow: u32,
    pub growth: u32,
    pub research_capital: u32,
    pub operating_efficiency: u32,
    pub asset_quality: u32,
}

pub open spec fn score_total(s: FinancialReportCategoryScores) -> int {
    s.revenue_quality + s.gross_margin + s.net_profit_return + s.earnings_manipulation + s.solvency
        + s.cash_flow + s.growth + s.research_capital + s.operating_efficiency + s.asset_quality
}

/// The overall score: the sum of the category scores.
pub fn calculate_financial_score(scores: &FinancialReportCategoryScores) -> (r: u32)
    requires
        score_total(*scores) <= u32::MAX,
    ensures
        r as int == score_total(*scores),
{
    scores.revenue_quality + scores.gross_margin + scores.net_profit_return + scores.earnings_manipulation
        + scores.solvency + scores.cash_flow + scores.growth + scores.research_capital
        + scores.operating_efficiency + scores.asset_quality
}

/// Radar scores on a 0-10 scale, in tenths (82 stands for 8.2).
#[derive(Clone, Copy, Debug, PartialEq, Eq)]
pub struct FinancialReportRadarTenths {
    pub profitability: u64,
    pub authenticity: u64,
    pub cash_generation: u64,
    pub safety: u64,
    pub growth_potential: u64,
    pub operating_efficiency: u64,
}

/// `points / max * 10` rounded to one decimal, in tenths: the nearest
/// integer to `100 * points / max` (halves never occur for these maxima).
pub open spec fn tenths(points: int, max: int) -> int {
    (200 * points + max) / (2 * max)
}

fn tenths_exec(points: u64, max: u64) -> (r: u64)
    requires
        points <= 2 * (u32::MAX as u64),
        1 <= max <= 100,
    ensures
        r as int == tenths(points as int, max as int),
{
    (200 * points + max) / (2 * max)
}

/// The six radar dimensions: profitability (gross margin and net profit
/// return, out of 22), authenticity (revenue quality and earnings
/// manipulation, out of 13), cash generation (out of 15), safety (solvency,
/// out of 15), growth potential (growth and research capital, out of 20),
/// operating efficiency (operating efficiency and asset quality, out of 15).
pub fn calculate_radar_scores(scores: &FinancialReportCategoryScores) -> (r: FinancialReportRadarTenths)
    requires
        scores.gross_margin + scores.net_profit_return <= u32::MAX,
        scores.revenue_quality + scores.earnings_manipulation <= u32::MAX,
        scores.growth + scores.research_capital <= u32::MAX,
        scores.operating_efficiency + scores.asset_quality <= u32::MAX,
    ensures
        r.profitability == tenths(scores.gross_margin + scores.net_profit_return, 22),
        r.authenticity == tenths(scores.revenue_quality + scores.earnings_manipulation, 13),
        r.cash_generation == tenths(scores.cash_flow as int, 15),
        r.safety == tenths(scores.solvency as int, 15),
        r.growth_potential == tenths(scores.growth + scores.research_capital, 20),
        r.operating_efficiency == tenths(scores.operating_efficiency + scores.asset_quality, 15),
{
    FinancialReportRadarTenths {
        profitability: tenths_exec((scores.gross_margin + scores.net_profit_return) as u64, 22),
        authenticity: tenths_exec((scores.revenue_quality + scores.earnings_manipulation) as u64, 13),
        cash_generation: tenths_exec(scores.cash_flow as u64, 15),
        safety: tenths_exec(scores.solvency as u64, 15),
        growth_potential: tenths_exec((scores.growth + scores.research_capital) as u64, 20),
        operating_efficiency: tenths_exec((scores.operating_efficiency + scores.asset_quality) as u64, 15),
    }
}


// ---------------------------------------------------------------------------
// Reading the AI analysis
// ---------------------------------------------------------------------------

/// The instructions given to the model before a financial report.
pub const FINANCIAL_ANALYSIS_SYSTEM_PROMPT: &'static str = "你是 KittyRed 的沪深 A 股财报分析助手。只输出一个 JSON 对象，不要 Markdown、代码块或任何前后缀。\n\n前十个字段是整数评分，后四个字段是文本分析。字段名必须完全一致：\n收入质量、毛利水平、净利与回报、盈利调节、偿债能力、现金流状况、业绩增速、研发及资本投入、营运效率、资产质量、关键信息总结、财报正向因素、财报负向因素、财报造假嫌疑点。\n\n分数字段上限依次为 8、10、12、5、15、15、12、8、10、5。分数越高越好，请根据财报数据客观打分。\n\n输出示例（注意前十个字段的值必须是数字，不是文本）：\n{\"收入质量\":7,\"毛利水平\":8,\"净利与回报\":10,\"盈利调节\":4,\"偿债能力\":12,\"现金流状况\":13,\"业绩增速\":9,\"研发及资本投入\":7,\"营运效率\":8,\"资产质量\":4,\"关键信息总结\":\"收入和利润保持增长，现金流充裕。\",\"财报正向因素\":\"经营现金流强劲，ROE 保持高位，毛利率稳定。\",\"财报负向因素\":\"资产负债率偏高，营收增速放缓，财务费用侵蚀利润。\",\"财报造假嫌疑点\":\"暂无明显异常，财务数据一致性较好。\"}\n\n不要输出财报综合评分，综合分由系统计算。不要给实盘交易指令，不要提及其他市场。";

/// The instructions given to the model before a financial report.
pub fn financial_analysis_system_prompt() -> (r: String)
    ensures
        r@ == FINANCIAL_ANALYSIS_SYSTEM_PROMPT@,
{
    FINANCIAL_ANALYSIS_SYSTEM_PROMPT.to_string()
}

/// The JSON text of an analysis reply: a reply fenced as ```` ```json ... ``` ````
/// or ```` ``` ... ``` ```` is unwrapped; otherwise the trimmed reply.
pub open spec fn analysis_json_spec(raw: Seq<char>) -> Seq<char> {
    let t = trimmed(raw);
    let inner: Option<Seq<char>> = if has_prefix(t, "```json"@) {
        Some(t.skip(7))
    } else if has_prefix(t, "```"@) {
        Some(t.skip(3))
    } else {
        None
    };
    match inner {
        Some(a) if crate::endpoint::has_suffix(a, "```"@) => trimmed(a.take(a.len() - 3)),
        _ => t,
    }
}

fn ends_with_fence(s: &[char]) -> (r: bool)
    ensures
        r == crate::endpoint::has_suffix(s@, "```"@),
{
    proof {
        reveal_strlit("```");
    }
    let n = s.len();
    if n < 3 {
        return false;
    }
    let r = s[n - 3] == '`' && s[n - 2] == '`' && s[n - 1] == '`';
    if r {
        assert(s@.skip(n - 3) =~= "```"@);
    } else {
        assert(s@.skip(n - 3) != "```"@) by {
            if s@.skip(n - 3) == "```"@ {
                assert(s@.skip(n - 3)[0] == s@[n - 3]);
                assert(s@.skip(n - 3)[1] == s@[n - 2]);
                assert(s@.skip(n - 3)[2] == s@[n - 1]);
            }
        }
    }
    r
}

/// The JSON text of an analysis reply.
pub fn analysis_json_text(raw: &str) -> (r: String)
    ensures
        r@ == analysis_json_spec(raw@),
{
    proof {
        reveal_strlit("```json");
        reveal_strlit("```");
    }
    let t = trim_str(raw);
    let tc = chars_of(t.as_str());
    let inner: Option<Vec<char>> = if has_prefix_exec(&tc, &chars_of("```json")) {
        Some(crate::numbers::slice_from(&tc, 7))
    } else if has_prefix_exec(&tc, &chars_of("```")) {
        Some(crate::numbers::slice_from(&tc, 3))
    } else {
        None
    };
    match inner {
        Some(a) => {
            if ends_with_fence(&a) {
                let body = string_from_chars(&crate::numbers::slice_range(&a, 0, a.len() - 3));
                trim_str(body.as_str())
            } else {
                t
            }
        },
        None => t,
    }
}

/// What the parsed analysis JSON holds under each field: for a score the
/// integer it holds (`None` when it is missing or not an integer), for a
/// text the string it holds (`None` when it is missing or not a string).
#[derive(Debug)]
pub struct FinancialAnalysisFields {
    pub revenue_quality: Option<i128>,
    pub gross_margin: Option<i128>,
    pub net_profit_return: Option<i128>,
    pub earnings_manipulation: Option<i128>,
    pub solvency: Option<i128>,
    pub cash_flow: Option<i128>,
    pub growth: Option<i128>,
    pub research_capital: Option<i128>,
    pub operating_efficiency: Option<i128>,
    pub asset_quality: Option<i128>,
    pub key_summary: Option<String>,
    pub positive_factors: Option<String>,
    pub negative_factors: Option<String>,
    pub fraud_risk_points: Option<String>,
}

/// An analysis that passed the checks.
#[derive(Debug)]
pub struct ParsedFinancialAnalysis {
    pub category_scores: FinancialReportCategoryScores,
    pub key_summary: String,
    pub positive_factors: String,
    pub negative_factors: String,
    pub fraud_risk_points: String,
}

/// Why an analysis was refused: the field (by its name in the reply).
#[derive(Clone, Copy, Debug, PartialEq, Eq)]
pub enum AnalysisError {
    MissingField(&'static str),
    OutOfRange(&'static str),
}

impl AnalysisError {
    /// The message shown for the refusal.
    pub fn message(&self) -> (r: String)
        ensures
            match *self {
                AnalysisError::MissingField(n) => r@ == "财报 AI 输出缺少字段："@ + n@,
                AnalysisError::OutOfRange(n) => r@ == "财报 AI 输出字段超出范围："@ + n@,
            },
    {
        let (mut prefix, name) = match *self {
            AnalysisError::MissingField(n) => (chars_of("财报 AI 输出缺少字段："), n),
            AnalysisError::OutOfRange(n) => (chars_of("财报 AI 输出字段超出范围："), n),
        };
        let mut rest = chars_of(name);
        prefix.append(&mut rest);
        string_from_chars(&prefix)
    }
}

/// A score read from the reply: negative integers count as 0, others are
/// cut to 32 bits; a score above its maximum is refused.
pub open spec fn score_spec(v: Option<i128>, name: &'static str, max: u32) -> Result<u32, AnalysisError> {
    match v {
        None => Err(AnalysisError::MissingField(name)),
        Some(x) => {
            let p: u32 = if x < 0 { 0 } else { x as u32 };
            if p > max {
                Err(AnalysisError::OutOfRange(name))
            } else {
                Ok(p)
            }
        },
    }
}

/// A text read from the reply, trimmed; a blank or missing one is refused.
pub open spec fn text_spec(v: Option<String>, name: &'static str) -> Result<Seq<char>, AnalysisError> {
    let t = match v {
        Some(s) => trimmed(s@),
        None => Seq::empty(),
    };
    if t.len() == 0 {
        Err(AnalysisError::MissingField(name))
    } else {
        Ok(t)
    }
}

fn read_score(v: Option<i128>, name: &'static str, max: u32) -> (r: Result<u32, AnalysisError>)
    ensures
        r == score_spec(v, name, max),
{
    match v {
        None => Err(AnalysisError::MissingField(name)),
        Some(x) => {
            let p: u32 = if x < 0 { 0 } else { #[verifier::truncate] (x as u32) };
            if p > max {
                Err(AnalysisError::OutOfRange(name))
            } else {
                Ok(p)
            }
        },
    }
}

fn read_text(v: &Option<String>, name: &'static str) -> (r: Result<String, AnalysisError>)
    ensures
        match text_spec(*v, name) {
            Ok(t) => r matches Ok(s) && s@ == t,
            Err(e) => r == Err::<String, AnalysisError>(e),
        },
{
    let t = match v {
        Some(s) => trim_str(s.as_str()),
        None => String::new(),
    };
    if chars_of(t.as_str()).len() == 0 {
        Err(AnalysisError::MissingField(name))
    } else {
        Ok(t)
    }
}

/// The first refusal, checking the scores then the texts in reply order.
pub open spec fn first_analysis_error(f: FinancialAnalysisFields) -> Option<AnalysisError> {
    if score_spec(f.revenue_quality, "收入质量", 8) is Err {
        Some(score_spec(f.revenue_quality, "收入质量", 8)->Err_0)
    } else if score_spec(f.gross_margin, "毛利水平", 10) is Err {
        Some(score_spec(f.gross_margin, "毛利水平", 10)->Err_0)
    } else if score_spec(f.net_profit_return, "净利与回报", 12) is Err {
        Some(score_spec(f.net_profit_return, "净利与回报", 12)->Err_0)
    } else if score_spec(f.earnings_manipulation, "盈利调节", 5) is Err {
        Some(score_spec(f.earnings_manipulation, "盈利调节", 5)->Err_0)
    } else if score_spec(f.solvency, "偿债能力", 15) is Err {
        Some(score_spec(f.solvency, "偿债能力", 15)->Err_0)
    } else if score_spec(f.cash_flow, "现金流状况", 15) is Err {
        Some(score_spec(f.cash_flow, "现金流状况", 15)->Err_0)
    } else if score_spec(f.growth, "业绩增速", 12) is Err {
        Some(score_spec(f.growth, "业绩增速", 12)->Err_0)
    } else if score_spec(f.research_capital, "研发及资本投入", 8) is Err {
        Some(score_spec(f.research_capital, "研发及资本投入", 8)->Err_0)
    } else if score_spec(f.operating_efficiency, "营运效率", 10) is Err {
        Some(score_spec(f.operating_efficiency, "营运效率", 10)->Err_0)
    } else if score_spec(f.asset_quality, "资产质量", 5) is Err {
        Some(score_spec(f.asset_quality, "资产质量", 5)->Err_0)
    } else if text_spec(f.key_summary, "关键信息总结") is Err {
        Some(text_spec(f.key_summary, "关键信息总结")->Err_0)
    } else if text_spec(f.positive_factors, "财报正向因素") is Err {
        Some(text_spec(f.positive_factors, "财报正向因素")->Err_0)
    } else if text_spec(f.negative_factors, "财报负向因素") is Err {
        Some(text_spec(f.negative_factors, "财报负向因素")->Err_0)
    } else if text_spec(f.fraud_risk_points, "财报造假嫌疑点") is Err {
        Some(text_spec(f.fraud_risk_points, "财报造假嫌疑点")->Err_0)
    } else {
        None
    }
}

/// Checks the fields of an analysis reply: every score present and within
/// its maximum, every text present and not blank.
pub fn parse_financial_analysis(fields: &FinancialAnalysisFields) -> (r: Result<ParsedFinancialAnalysis, AnalysisError>)
    ensures
        match first_analysis_error(*fields) {
            Some(e) => r == Err::<ParsedFinancialAnalysis, AnalysisError>(e),
            None => r matches Ok(a) && {
                &&& Ok::<u32, AnalysisError>(a.category_scores.revenue_quality) == score_spec(fields.revenue_quality, "收入质量", 8)
                &&& Ok::<u32, AnalysisError>(a.category_scores.gross_margin) == score_spec(fields.gross_margin, "毛利水平", 10)
                &&& Ok::<u32, AnalysisError>(a.category_scores.net_profit_return) == score_spec(fields.net_profit_return, "净利与回报", 12)
                &&& Ok::<u32, AnalysisError>(a.category_scores.earnings_manipulation) == score_spec(fields.earnings_manipulation, "盈利调节", 5)
                &&& Ok::<u32, AnalysisError>(a.category_scores.solvency) == score_spec(fields.solvency, "偿债能力", 15)
                &&& Ok::<u32, AnalysisError>(a.category_scores.cash_flow) == score_spec(fields.cash_flow, "现金流状况", 15)
                &&& Ok::<u32, AnalysisError>(a.category_scores.growth) == score_spec(fields.growth, "业绩增速", 12)
                &&& Ok::<u32, AnalysisError>(a.category_scores.research_capital) == score_spec(fields.research_capital, "研发及资本投入", 8)
                &&& Ok::<u32, AnalysisError>(a.category_scores.operating_efficiency) == score_spec(fields.operating_efficiency, "营运效率", 10)
                &&& Ok::<u32, AnalysisError>(a.category_scores.asset_quality) == score_spec(fields.asset_quality, "资产质量", 5)
                &&& Ok::<Seq<char>, AnalysisError>(a.key_summary@) == text_spec(fields.key_summary, "关键信息总结")
                &&& Ok::<Seq<char>, AnalysisError>(a.positive_factors@) == text_spec(fields.positive_factors, "财报正向因素")
                &&& Ok::<Seq<char>, AnalysisError>(a.negative_factors@) == text_spec(fields.negative_factors, "财报负向因素")
                &&& Ok::<Seq<char>, AnalysisError>(a.fraud_risk_points@) == text_spec(fields.fraud_risk_points, "财报造假嫌疑点")
            },
        },
{
    let revenue_quality = match read_score(fields.revenue_quality, "收入质量", 8) { Ok(v) => v, Err(e) => return Err(e) };
    let gross_margin = match read_score(fields.gross_margin, "毛利水平", 10) { Ok(v) => v, Err(e) => return Err(e) };
    let net_profit_return = match read_score(fields.net_profit_return, "净利与回报", 12) { Ok(v) => v, Err(e) => return Err(e) };
    let earnings_manipulation = match read_score(fields.earnings_manipulation, "盈利调节", 5) { Ok(v) => v, Err(e) => return Err(e) };
    let solvency = match read_score(fields.solvency, "偿债能力", 15) { Ok(v) => v, Err(e) => return Err(e) };
    let cash_flow = match read_score(fields.cash_flow, "现金流状况", 15) { Ok(v) => v, Err(e) => return Err(e) };
    let growth = match read_score(fields.growth, "业绩增速", 12) { Ok(v) => v, Err(e) => return Err(e) };
    let research_capital = match read_score(fields.research_capital, "研发及资本投入", 8) { Ok(v) => v, Err(e) => return Err(e) };
    let operating_efficiency = match read_score(fields.operating_efficiency, "营运效率", 10) { Ok(v) => v, Err(e) => return Err(e) };
    let asset_quality = match read_score(fields.asset_quality, "资产质量", 5) { Ok(v) => v, Err(e) => return Err(e) };
    let key_summary = match read_text(&fields.key_summary, "关键信息总结") { Ok(v) => v, Err(e) => return Err(e) };
    let positive_factors = match read_text(&fields.positive_factors, "财报正向因素") { Ok(v) => v, Err(e) => return Err(e) };
    let negative_factors = match read_text(&fields.negative_factors, "财报负向因素") { Ok(v) => v, Err(e) => return Err(e) };
    let fraud_risk_points = match read_text(&fields.fraud_risk_points, "财报造假嫌疑点") { Ok(v) => v, Err(e) => return Err(e) };
    Ok(ParsedFinancialAnalysis {
        category_scores: FinancialReportCategoryScores {
            revenue_quality,
            gross_margin,
            net_profit_return,
            earnings_manipulation,
            solvency,
            cash_flow,
            growth,
            research_capital,
            operating_efficiency,
            asset_quality,
        },
        key_summary,
        positive_factors,
        negative_factors,
        fraud_risk_points,
    })
}

/// An accepted analysis has every score within its maximum, so its total is
/// at most 100 and every radar score at most 10.
pub proof fn law_accepted_scores_are_bounded(f: FinancialAnalysisFields, a: FinancialReportCategoryScores)
    requires
        Ok::<u32, AnalysisError>(a.revenue_quality) == score_spec(f.revenue_quality, "收入质量", 8),
        Ok::<u32, AnalysisError>(a.gross_margin) == score_spec(f.gross_margin, "毛利水平", 10),
        Ok::<u32, AnalysisError>(a.net_profit_return) == score_spec(f.net_profit_return, "净利与回报", 12),
        Ok::<u32, AnalysisError>(a.earnings_manipulation) == score_spec(f.earnings_manipulation, "盈利调节", 5),
        Ok::<u32, AnalysisError>(a.solvency) == score_spec(f.solvency, "偿债能力", 15),
        Ok::<u32, AnalysisError>(a.cash_flow) == score_spec(f.cash_flow, "现金流状况", 15),
        Ok::<u32, AnalysisError>(a.growth) == score_spec(f.growth, "业绩增速", 12),
        Ok::<u32, AnalysisError>(a.research_capital) == score_spec(f.research_capital, "研发及资本投入", 8),
        Ok::<u32, AnalysisError>(a.operating_efficiency) == score_spec(f.operating_efficiency, "营运效率", 10),
        Ok::<u32, AnalysisError>(a.asset_quality) == score_spec(f.asset_quality, "资产质量", 5),
    ensures
        score_total(a) <= 100,
        tenths(a.gross_margin + a.net_profit_return, 22) <= 100,
        tenths(a.revenue_quality + a.earnings_manipulation, 13) <= 100,
        tenths(a.cash_flow as int, 15) <= 100,
        tenths(a.solvency as int, 15) <= 100,
        tenths(a.growth + a.research_capital, 20) <= 100,
        tenths(a.operating_efficiency + a.asset_quality, 15) <= 100,
{
    lemma_tenths_at_most_ten(a.gross_margin + a.net_profit_return, 22);
    lemma_tenths_at_most_ten(a.revenue_quality + a.earnings_manipulation, 13);
    lemma_tenths_at_most_ten(a.cash_flow as int, 15);
    lemma_tenths_at_most_ten(a.solvency as int, 15);
    lemma_tenths_at_most_ten(a.growth + a.research_capital, 20);
    lemma_tenths_at_most_ten(a.operating_efficiency + a.asset_quality, 15);
}

proof fn lemma_tenths_at_most_ten(points: int, max: int)
    requires
        0 <= points <= max,
        1 <= max,
    ensures
        tenths(points, max) <= 100,
{
    assert((200 * points + max) / (2 * max) <= 100) by (nonlinear_arith)
        requires
            0 <= points <= max,
            1 <= max,
    ;
}


/// The request for the analysis of one stock's reports: the stock code and
/// the JSON text of its cached sections, framed by the instructions.
pub open spec fn user_prompt_spec(stock_code: Seq<char>, sections_json: Seq<char>) -> Seq<char> {
    "请基于以下 AKShare 财报缓存分析股票 "@ + stock_code + "。\n\n前十个字段收入质量、毛利水平、净利与回报、盈利调节、偿债能力、现金流状况、业绩增速、研发及资本投入、营运效率、资产质量必须是整数（上限依次 8/10/12/5/15/15/12/8/10/5），绝对不要写文本。\n后四个字段关键信息总结、财报正向因素、财报负向因素、财报造假嫌疑点是文本摘要。\n\n只输出一个 JSON 对象，不要 Markdown 代码块。\n\n财报数据："@ + sections_json
}

pub fn financial_analysis_user_prompt(stock_code: &str, sections_json: &str) -> (r: String)
    ensures
        r@ == user_prompt_spec(stock_code@, sections_json@),
{
    let mut text: Vec<char> = Vec::new();
    crate::assistant::append_str(&mut text, "请基于以下 AKShare 财报缓存分析股票 ");
    crate::assistant::append_str(&mut text, stock_code);
    crate::assistant::append_str(&mut text, "。\n\n前十个字段收入质量、毛利水平、净利与回报、盈利调节、偿债能力、现金流状况、业绩增速、研发及资本投入、营运效率、资产质量必须是整数（上限依次 8/10/12/5/15/15/12/8/10/5），绝对不要写文本。\n后四个字段关键信息总结、财报正向因素、财报负向因素、财报造假嫌疑点是文本摘要。\n\n只输出一个 JSON 对象，不要 Markdown 代码块。\n\n财报数据：");
    crate::assistant::append_str(&mut text, sections_json);
    string_from_chars(&text)
}

// ---------------------------------------------------------------------------
// Revision stamps
// ---------------------------------------------------------------------------

/// What SHA-256 gives for `data`.
pub uninterp spec fn sha256_digest(data: Seq<u8>) -> Seq<u8>;

/// `sha2::Sha256::digest`: the SHA-256 digest of `data` (its output size is
/// 32 bytes). What the digest is beyond its length is left to the name.
#[verifier::external_body]
fn sha256_bytes(data: &[u8]) -> (r: Vec<u8>)
    ensures
        r@ == sha256_digest(data@),
        r@.len() == 32,
{
    Sha256::digest(data).to_vec()
}

/// A hexadecimal digit, lowercase.
pub open spec fn hex_digit(n: int) -> char {
    if n < 10 {
        (48 + n) as char
    } else {
        (87 + n) as char
    }
}

/// Each byte as two lowercase hexadecimal digits, high half first.
pub open spec fn lower_hex(bytes: Seq<u8>) -> Seq<char>
    decreases bytes.len(),
{
    if bytes.len() == 0 {
        Seq::empty()
    } else {
        lower_hex(bytes.drop_last()) + seq![hex_digit((bytes.last() / 16) as int), hex_digit((bytes.last() % 16) as int)]
    }
}

proof fn lemma_lower_hex_len(bytes: Seq<u8>)
    ensures
        lower_hex(bytes).len() == 2 * bytes.len(),
    decreases bytes.len(),
{
    if bytes.len() > 0 {
        lemma_lower_hex_len(bytes.drop_last());
    }
}

/// `hex::encode`: each byte of `data` as two lowercase hexadecimal digits,
/// high half first.
#[verifier::external_body]
fn hex_encode(data: &[u8]) -> (r: String)
    ensures
        r@ == lower_hex(data@),
{
    hex::encode(data)
}

/// The revision stamp of a cached payload: the SHA-256 digest of its UTF-8
/// bytes in lowercase hex.
pub open spec fn revision_spec(payload: Seq<char>) -> Seq<char> {
    lower_hex(sha256_digest(vstd::utf8::encode_utf8(payload)))
}

fn json_revision(payload_json: &str) -> (r: String)
    ensures
        r@ == revision_spec(payload_json@),
        r@.len() == 64,
{
    let digest = sha256_bytes(payload_json.as_bytes());
    proof {
        lemma_lower_hex_len(digest@);
    }
    hex_encode(digest.as_slice())
}

/// The revision of a stock's cached report sections, from their JSON text.
pub fn source_revision_for_sections(sections_json: &str) -> (r: String)
    ensures
        r@ == revision_spec(sections_json@),
        r@.len() == 64,
{
    json_revision(sections_json)
}

/// The revision of one cached report section, from the JSON text of its rows.
pub fn section_revision(rows_json: &str) -> (r: String)
    ensures
        r@ == revision_spec(rows_json@),
        r@.len() == 64,
{
    json_revision(rows_json)
}

} // verus!
