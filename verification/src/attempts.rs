//! Model calls that may fail or time out are tried a few times: what each
//! attempt's outcome leads to, and the texts that report failures.
use vstd::prelude::*;

use crate::assistant::{append_chars, append_str};
use crate::numbers::decimal_digits_exec;
use crate::text::{chars_of, decimal_digits, string_from_chars};

verus! {

/// Attempts a model call gets before it is given up.
pub const MODEL_CALL_ATTEMPTS: u32 = 3;

/// How one attempt of a model call ended.
#[derive(Debug, Clone, PartialEq, Eq)]
pub enum AttemptOutcome {
    Succeeded,
    TimedOut,
    Failed(String),
}

/// What follows an attempt.
#[derive(Debug, Clone, Copy, PartialEq, Eq, Structural)]
pub enum AttemptStep {
    /// The call succeeded.
    Done,
    /// Try again, as this attempt.
    Retry(u32),
    /// No attempt is left.
    GiveUp,
}

pub open spec fn step_spec(attempt: u32, outcome: AttemptOutcome) -> AttemptStep {
    match outcome {
        AttemptOutcome::Succeeded => AttemptStep::Done,
        _ => if attempt < MODEL_CALL_ATTEMPTS {
            AttemptStep::Retry((attempt + 1) as u32)
        } else {
            AttemptStep::GiveUp
        },
    }
}

/// What follows attempt `attempt` (counted from one) of a model call.
pub fn after_attempt(attempt: u32, outcome: &AttemptOutcome) -> (r: AttemptStep)
    requires
        1 <= attempt <= MODEL_CALL_ATTEMPTS,
    ensures
        r == step_spec(attempt, *outcome),
{
    match outcome {
        AttemptOutcome::Succeeded => AttemptStep::Done,
        _ => if attempt < MODEL_CALL_ATTEMPTS {
            AttemptStep::Retry(attempt + 1)
        } else {
            AttemptStep::GiveUp
        },
    }
}

/// The attempts a call makes when its attempts end as `outcomes` say, from
/// attempt `attempt` on.
pub open spec fn attempts_made(attempt: u32, outcomes: Seq<AttemptOutcome>) -> nat
    decreases outcomes.len(),
{
    if outcomes.len() == 0 {
        0
    } else {
        match step_spec(attempt, outcomes[0]) {
            AttemptStep::Retry(next) => 1 + attempts_made(next, outcomes.drop_first()),
            _ => 1,
        }
    }
}

/// A model call is attempted at most `MODEL_CALL_ATTEMPTS` times, and
/// exactly that often when no attempt succeeds.
pub proof fn law_model_call_attempts_are_bounded(outcomes: Seq<AttemptOutcome>)
    ensures
        attempts_made(1, outcomes) <= MODEL_CALL_ATTEMPTS,
        outcomes.len() >= MODEL_CALL_ATTEMPTS && (forall|i: int|
            0 <= i < outcomes.len() ==> !(#[trigger] outcomes[i] is Succeeded)) ==> attempts_made(1, outcomes)
            == MODEL_CALL_ATTEMPTS,
{
    lemma_attempts_from(1, outcomes);
}

proof fn lemma_attempts_from(attempt: u32, outcomes: Seq<AttemptOutcome>)
    requires
        1 <= attempt <= MODEL_CALL_ATTEMPTS,
    ensures
        attempts_made(attempt, outcomes) <= MODEL_CALL_ATTEMPTS + 1 - attempt,
        outcomes.len() >= MODEL_CALL_ATTEMPTS + 1 - attempt && (forall|i: int|
            0 <= i < outcomes.len() ==> !(#[trigger] outcomes[i] is Succeeded)) ==> attempts_made(attempt, outcomes)
            == MODEL_CALL_ATTEMPTS + 1 - attempt,
    decreases outcomes.len(),
{
    if outcomes.len() > 0 {
        let rest = outcomes.drop_first();
        if attempt < MODEL_CALL_ATTEMPTS {
            lemma_attempts_from((attempt + 1) as u32, rest);
            if forall|i: int| 0 <= i < outcomes.len() ==> !(#[trigger] outcomes[i] is Succeeded) {
                assert(!(outcomes[0] is Succeeded));
                assert forall|i: int| 0 <= i < rest.len() implies !(#[trigger] rest[i] is Succeeded) by {
                    assert(rest[i] == outcomes[i + 1]);
                }
            }
        } else {
            if forall|i: int| 0 <= i < outcomes.len() ==> !(#[trigger] outcomes[i] is Succeeded) {
                assert(!(outcomes[0] is Succeeded));
            }
        }
    }
}

/// Why an attempt failed: its number and the timeout or the error.
pub open spec fn attempt_error_spec(attempt: nat, timeout_secs: nat, outcome: AttemptOutcome) -> Option<Seq<char>> {
    match outcome {
        AttemptOutcome::Succeeded => None,
        AttemptOutcome::TimedOut => Some(
            "第 "@ + decimal_digits(attempt) + " 次尝试失败：调用模型超时（>"@ + decimal_digits(timeout_secs) + "秒）"@,
        ),
        AttemptOutcome::Failed(e) => Some("第 "@ + decimal_digits(attempt) + " 次尝试失败："@ + e@),
    }
}

pub fn attempt_error_text(attempt: u32, timeout_secs: u64, outcome: &AttemptOutcome) -> (r: Option<String>)
    ensures
        match attempt_error_spec(attempt as nat, timeout_secs as nat, *outcome) {
            Some(t) => r matches Some(s) && s@ == t,
            None => r is None,
        },
{
    match outcome {
        AttemptOutcome::Succeeded => None,
        AttemptOutcome::TimedOut => {
            let mut text: Vec<char> = Vec::new();
            append_str(&mut text, "第 ");
            append_chars(&mut text, &decimal_digits_exec(attempt as u64));
            append_str(&mut text, " 次尝试失败：调用模型超时（>");
            append_chars(&mut text, &decimal_digits_exec(timeout_secs));
            append_str(&mut text, "秒）");
            Some(string_from_chars(&text))
        },
        AttemptOutcome::Failed(e) => {
            let mut text: Vec<char> = Vec::new();
            append_str(&mut text, "第 ");
            append_chars(&mut text, &decimal_digits_exec(attempt as u64));
            append_str(&mut text, " 次尝试失败：");
            append_chars(&mut text, &chars_of(e.as_str()));
            Some(string_from_chars(&text))
        },
    }
}

/// The error of a financial report analysis that used up its attempts.
pub fn analysis_failure_message(last_error: &str) -> (r: String)
    ensures
        r@ == "财报 AI 分析失败（已重试 "@ + decimal_digits(MODEL_CALL_ATTEMPTS as nat) + " 次）："@ + last_error@,
{
    let mut text: Vec<char> = Vec::new();
    append_str(&mut text, "财报 AI 分析失败（已重试 ");
    append_chars(&mut text, &decimal_digits_exec(MODEL_CALL_ATTEMPTS as u64));
    append_str(&mut text, " 次）：");
    append_chars(&mut text, &chars_of(last_error));
    string_from_chars(&text)
}

/// The error of a backtest signal that used up its attempts.
pub fn signal_failure_message(last_error: &str) -> (r: String)
    ensures
        r@ == "AI 信号生成失败（已重试 "@ + decimal_digits(MODEL_CALL_ATTEMPTS as nat) + " 次）："@ + last_error@,
{
    let mut text: Vec<char> = Vec::new();
    append_str(&mut text, "AI 信号生成失败（已重试 ");
    append_chars(&mut text, &decimal_digits_exec(MODEL_CALL_ATTEMPTS as u64));
    append_str(&mut text, " 次）：");
    append_chars(&mut text, &chars_of(last_error));
    string_from_chars(&text)
}

} // verus!
