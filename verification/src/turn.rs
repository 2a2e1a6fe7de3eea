//! The decisions of one assistant turn.
//!
//! A turn alternates between asking the model and running the tools it asks
//! for, for at most `MAX_TOOL_ROUNDS` rounds. Before each request and before
//! each tool, and again after each reply, the session is looked at: when
//! another run has taken it over the turn ends quietly, and when the user
//! asked to stop it the turn ends as cancelled. The caller performs each
//! action and reports what happened; `next_step` says what to do next.
use vstd::prelude::*;

use crate::text::{chars_of, has_prefix, has_prefix_exec, trim_str, trimmed};

verus! {

/// Rounds of model requests a turn may make.
pub const MAX_TOOL_ROUNDS: usize = 12;

/// Where a turn stands.
#[derive(Debug, Clone, Copy, PartialEq, Eq)]
pub enum TurnPhase {
    /// About to ask the model, in round `round` (from 0).
    BeforeRequest { round: usize },
    /// Waiting for the model's reply in round `round`.
    AwaitingReply { round: usize },
    /// About to run tool `index` of the `count` the model asked for.
    BeforeTool { round: usize, index: usize, count: usize },
    /// Tool `index` of `count` is running.
    RunningTool { round: usize, index: usize, count: usize },
    /// The turn is over.
    Finished,
}

/// What the caller reports back.
#[derive(Debug, Clone, Copy, PartialEq, Eq)]
pub enum TurnEvent {
    /// The session was looked at: whether this run still owns it, and
    /// whether it was asked to stop.
    SessionChecked { current: bool, cancelled: bool },
    /// The model replied asking for `tool_calls` tools; the session was
    /// looked at after the reply.
    ModelReplied { tool_calls: usize, current: bool, cancelled: bool },
    /// The running tool finished (successfully or not).
    ToolFinished,
}

/// What the caller does next.
#[derive(Debug, Clone, Copy, PartialEq, Eq)]
pub enum TurnAction {
    /// Look at the session and report `SessionChecked`.
    CheckSession,
    /// Ask the model and report `ModelReplied`.
    RequestModel,
    /// Run the tool with this position in the model's request and report `ToolFinished`.
    RunTool { index: usize },
    /// Keep the model's text as the answer and end the turn.
    Reply,
    /// Report that the turn was stopped and end it.
    Cancelled,
    /// Another run owns the session: end without a word.
    Abandon,
    /// End the turn with the notice that the rounds ran out.
    RoundsExhausted,
}

/// The phases a turn can be in while it runs.
pub open spec fn phase_ok(p: TurnPhase) -> bool {
    match p {
        TurnPhase::BeforeRequest { round } => round < MAX_TOOL_ROUNDS,
        TurnPhase::AwaitingReply { round } => round < MAX_TOOL_ROUNDS,
        TurnPhase::BeforeTool { round, index, count } => round < MAX_TOOL_ROUNDS && index < count,
        TurnPhase::RunningTool { round, index, count } => round < MAX_TOOL_ROUNDS && index < count,
        TurnPhase::Finished => true,
    }
}

/// The event each phase waits for.
pub open spec fn expects(p: TurnPhase, e: TurnEvent) -> bool {
    match p {
        TurnPhase::BeforeRequest { .. } => e is SessionChecked,
        TurnPhase::AwaitingReply { .. } => e is ModelReplied,
        TurnPhase::BeforeTool { .. } => e is SessionChecked,
        TurnPhase::RunningTool { .. } => e is ToolFinished,
        TurnPhase::Finished => false,
    }
}

/// The end of a turn whose session was found taken over or stopped, if it was.
pub open spec fn gate(current: bool, cancelled: bool) -> Option<TurnAction> {
    if !current {
        Some(TurnAction::Abandon)
    } else if cancelled {
        Some(TurnAction::Cancelled)
    } else {
        None
    }
}

/// One step of a turn: the next phase and action, or none when the phase
/// does not wait for this event.
pub open spec fn step(p: TurnPhase, e: TurnEvent) -> Option<(TurnPhase, TurnAction)> {
    if !expects(p, e) {
        None
    } else {
        match (p, e) {
            (TurnPhase::BeforeRequest { round }, TurnEvent::SessionChecked { current, cancelled }) =>
                match gate(current, cancelled) {
                    Some(end) => Some((TurnPhase::Finished, end)),
                    None => Some((TurnPhase::AwaitingReply { round }, TurnAction::RequestModel)),
                },
            (TurnPhase::AwaitingReply { round }, TurnEvent::ModelReplied { tool_calls, current, cancelled }) =>
                match gate(current, cancelled) {
                    Some(end) => Some((TurnPhase::Finished, end)),
                    None => if tool_calls == 0 {
                        Some((TurnPhase::Finished, TurnAction::Reply))
                    } else {
                        Some((TurnPhase::BeforeTool { round, index: 0, count: tool_calls }, TurnAction::CheckSession))
                    },
                },
            (TurnPhase::BeforeTool { round, index, count }, TurnEvent::SessionChecked { current, cancelled }) =>
                match gate(current, cancelled) {
                    Some(end) => Some((TurnPhase::Finished, end)),
                    None => Some((TurnPhase::RunningTool { round, index, count }, TurnAction::RunTool { index })),
                },
            (TurnPhase::RunningTool { round, index, count }, TurnEvent::ToolFinished) =>
                if index + 1 < count {
                    Some((TurnPhase::BeforeTool { round, index: (index + 1) as usize, count }, TurnAction::CheckSession))
                } else if round + 1 < MAX_TOOL_ROUNDS {
                    Some((TurnPhase::BeforeRequest { round: (round + 1) as usize }, TurnAction::CheckSession))
                } else {
                    Some((TurnPhase::Finished, TurnAction::RoundsExhausted))
                },
            _ => None,
        }
    }
}

/// A turn begins by looking at the session before the first request.
pub fn start_turn() -> (r: (TurnPhase, TurnAction))
    ensures
        r == (TurnPhase::BeforeRequest { round: 0 }, TurnAction::CheckSession),
{
    (TurnPhase::BeforeRequest { round: 0 }, TurnAction::CheckSession)
}

fn gate_exec(current: bool, cancelled: bool) -> (r: Option<TurnAction>)
    ensures
        r == gate(current, cancelled),
{
    if !current {
        Some(TurnAction::Abandon)
    } else if cancelled {
        Some(TurnAction::Cancelled)
    } else {
        None
    }
}

/// What to do after `event` in `phase`.
pub fn next_step(phase: TurnPhase, event: TurnEvent) -> (r: (TurnPhase, TurnAction))
    requires
        phase_ok(phase),
        expects(phase, event),
    ensures
        step(phase, event) == Some(r),
        phase_ok(r.0),
{
    match (phase, event) {
        (TurnPhase::BeforeRequest { round }, TurnEvent::SessionChecked { current, cancelled }) =>
            match gate_exec(current, cancelled) {
                Some(end) => (TurnPhase::Finished, end),
                None => (TurnPhase::AwaitingReply { round }, TurnAction::RequestModel),
            },
        (TurnPhase::AwaitingReply { round }, TurnEvent::ModelReplied { tool_calls, current, cancelled }) =>
            match gate_exec(current, cancelled) {
                Some(end) => (TurnPhase::Finished, end),
                None => if tool_calls == 0 {
                    (TurnPhase::Finished, TurnAction::Reply)
                } else {
                    (TurnPhase::BeforeTool { round, index: 0, count: tool_calls }, TurnAction::CheckSession)
                },
            },
        (TurnPhase::BeforeTool { round, index, count }, TurnEvent::SessionChecked { current, cancelled }) =>
            match gate_exec(current, cancelled) {
                Some(end) => (TurnPhase::Finished, end),
                None => (TurnPhase::RunningTool { round, index, count }, TurnAction::RunTool { index }),
            },
        (TurnPhase::RunningTool { round, index, count }, _) =>
            if index + 1 < count {
                (TurnPhase::BeforeTool { round, index: index + 1, count }, TurnAction::CheckSession)
            } else if round + 1 < MAX_TOOL_ROUNDS {
                (TurnPhase::BeforeRequest { round: round + 1 }, TurnAction::CheckSession)
            } else {
                (TurnPhase::Finished, TurnAction::RoundsExhausted)
            },
        _ => (TurnPhase::Finished, TurnAction::Abandon),
    }
}

/// The actions that follow `events`, starting in phase `p`, up to the first
/// event the turn does not wait for; and the phase reached.
pub open spec fn run_from(p: TurnPhase, events: Seq<TurnEvent>) -> (TurnPhase, Seq<TurnAction>)
    decreases events.len(),
{
    if events.len() == 0 {
        (p, Seq::empty())
    } else {
        match step(p, events[0]) {
            None => (p, Seq::empty()),
            Some((q, a)) => {
                let rest = run_from(q, events.drop_first());
                (rest.0, seq![a] + rest.1)
            },
        }
    }
}

/// All actions of a turn driven by `events`.
pub open spec fn turn_actions(events: Seq<TurnEvent>) -> Seq<TurnAction> {
    seq![TurnAction::CheckSession] + run_from(TurnPhase::BeforeRequest { round: 0 }, events).1
}

/// How many times the actions ask the model.
pub open spec fn model_requests(actions: Seq<TurnAction>) -> nat
    decreases actions.len(),
{
    if actions.len() == 0 {
        0
    } else {
        (if actions[0] is RequestModel { 1nat } else { 0nat }) + model_requests(actions.drop_first())
    }
}

/// Whether an action ends the turn.
pub open spec fn ends_turn(a: TurnAction) -> bool {
    a is Reply || a is Cancelled || a is Abandon || a is RoundsExhausted
}

/// Model requests already made when a turn is in phase `p`.
pub open spec fn requests_made(p: TurnPhase) -> nat {
    match p {
        TurnPhase::BeforeRequest { round } => round as nat,
        TurnPhase::AwaitingReply { round } => (round + 1) as nat,
        TurnPhase::BeforeTool { round, .. } => (round + 1) as nat,
        TurnPhase::RunningTool { round, .. } => (round + 1) as nat,
        TurnPhase::Finished => MAX_TOOL_ROUNDS as nat,
    }
}

proof fn lemma_requests_bounded(p: TurnPhase, events: Seq<TurnEvent>)
    requires
        phase_ok(p),
    ensures
        model_requests(run_from(p, events).1) + requests_made(p) <= MAX_TOOL_ROUNDS,
    decreases events.len(),
{
    if events.len() > 0 {
        match step(p, events[0]) {
            None => {},
            Some((q, a)) => {
                lemma_requests_bounded(q, events.drop_first());
                let rest = run_from(q, events.drop_first()).1;
                assert((seq![a] + rest).drop_first() =~= rest);
                assert((seq![a] + rest)[0] == a);
            },
        }
    }
}

/// A turn asks the model at most `MAX_TOOL_ROUNDS` times, whatever is reported.
pub proof fn law_turn_requests_bounded(events: Seq<TurnEvent>)
    ensures
        model_requests(turn_actions(events)) <= MAX_TOOL_ROUNDS,
{
    let rest = run_from(TurnPhase::BeforeRequest { round: 0 }, events).1;
    lemma_requests_bounded(TurnPhase::BeforeRequest { round: 0 }, events);
    assert((seq![TurnAction::CheckSession] + rest).drop_first() =~= rest);
}

proof fn lemma_end_is_last(p: TurnPhase, events: Seq<TurnEvent>)
    ensures
        forall|i: int|
            0 <= i < run_from(p, events).1.len() && ends_turn(#[trigger] run_from(p, events).1[i])
                ==> i == run_from(p, events).1.len() - 1,
        (p is Finished) ==> run_from(p, events).1.len() == 0,
    decreases events.len(),
{
    if events.len() > 0 {
        match step(p, events[0]) {
            None => {},
            Some((q, a)) => {
                lemma_end_is_last(q, events.drop_first());
                let rest = run_from(q, events.drop_first()).1;
                let all = seq![a] + rest;
                assert(ends_turn(a) ==> q is Finished);
                assert forall|i: int| 0 <= i < all.len() && ends_turn(#[trigger] all[i]) implies i == all.len() - 1 by {
                    if i > 0 {
                        assert(all[i] == rest[i - 1]);
                    }
                }
            },
        }
    }
}

/// Nothing follows an action that ends the turn.
pub proof fn law_turn_ends_once(events: Seq<TurnEvent>)
    ensures
        forall|i: int|
            0 <= i < turn_actions(events).len() && ends_turn(#[trigger] turn_actions(events)[i])
                ==> i == turn_actions(events).len() - 1,
{
    let rest = run_from(TurnPhase::BeforeRequest { round: 0 }, events).1;
    lemma_end_is_last(TurnPhase::BeforeRequest { round: 0 }, events);
    let all = seq![TurnAction::CheckSession] + rest;
    assert forall|i: int| 0 <= i < all.len() && ends_turn(#[trigger] all[i]) implies i == all.len() - 1 by {
        if i > 0 {
            assert(all[i] == rest[i - 1]);
        }
    }
}

/// A session found stopped, by a run that still owns it, ends the turn as
/// cancelled, wherever the turn stands.
pub proof fn law_stop_is_honoured(p: TurnPhase, tool_calls: usize)
    requires
        p is BeforeRequest || p is BeforeTool || p is AwaitingReply,
    ensures
        !(p is AwaitingReply) ==> step(p, TurnEvent::SessionChecked { current: true, cancelled: true })
            == Some((TurnPhase::Finished, TurnAction::Cancelled)),
        (p is AwaitingReply) ==> step(p, TurnEvent::ModelReplied { tool_calls, current: true, cancelled: true })
            == Some((TurnPhase::Finished, TurnAction::Cancelled)),
{
}

// ---------------------------------------------------------------------------
// The texts of a turn
// ---------------------------------------------------------------------------

/// The model's answer as shown to the user: reasoning blocks removed, trimmed.
pub fn final_reply(content: &str) -> (r: String)
    ensures
        r@ == trimmed(crate::assistant::strip_think_spec(content@)),
{
    let stripped = crate::assistant::strip_think_blocks(content);
    trim_str(stripped.as_str())
}

/// The status a finished tool is reported with: `error` when its output
/// starts with `Error:`, else `done`.
pub fn tool_end_status(result: &str) -> (r: &'static str)
    ensures
        has_prefix(result@, "Error:"@) ==> r@ == "error"@,
        !has_prefix(result@, "Error:"@) ==> r@ == "done"@,
{
    if has_prefix_exec(&chars_of(result), &chars_of("Error:")) {
        "error"
    } else {
        "done"
    }
}

/// The text kept as a tool's output when it failed.
pub fn tool_error_text(error: &str) -> (r: String)
    ensures
        r@ == "Error: "@ + error@,
{
    let mut v = chars_of("Error: ");
    let e = chars_of(error);
    let mut i: usize = 0;
    let ghost start = v@;
    while i < e.len()
        invariant
            i <= e.len(),
            v@ == start + e@.take(i as int),
        decreases e.len() - i,
    {
        v.push(e[i]);
        assert(e@.take(i + 1) =~= e@.take(i as int).push(e@[i as int]));
        i += 1;
    }
    assert(e@.take(e.len() as int) =~= e@);
    crate::text::string_from_chars(&v)
}

/// The model API key a turn may use: the stored key unless it is missing or
/// blank, in which case the turn cannot start.
pub fn usable_api_key(stored: Option<String>) -> (r: Result<String, String>)
    ensures
        match stored {
            Some(k) if trimmed(k@).len() != 0 => r == Ok::<String, String>(k),
            _ => r matches Err(m) && m@ == "No model API key configured for Assistant."@,
        },
{
    match stored {
        Some(k) => {
            if chars_of(trim_str(k.as_str()).as_str()).len() != 0 {
                Ok(k)
            } else {
                Err("No model API key configured for Assistant.".to_string())
            }
        },
        None => Err("No model API key configured for Assistant.".to_string()),
    }
}

/// The context window a turn works with: the configured size, at least 1024.
pub fn context_window(model_max_context: u32) -> (r: usize)
    ensures
        r == if model_max_context < 1024 { 1024 } else { model_max_context as int },
{
    if model_max_context < 1024 {
        1024
    } else {
        model_max_context as usize
    }
}

} // verus!
