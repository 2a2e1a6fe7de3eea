//! The decisions of a backtest dataset fetch: which symbol to load next,
//! which sampled bar to store, how the totals and failure counts grow, and
//! how the fetch ends.
//!
//! The caller loads bars, writes snapshots and failure records, and watches
//! the cancel flag; after each action it reports what happened as an event,
//! and `fetch_step` gives the next state and action.
use vstd::prelude::*;

use crate::backtest::no_snapshots_message;
use crate::text::decimal_digits;

verus! {

/// Where a fetch stands: about to load a symbol's bars, storing its
/// sampled bars one by one, or ended.
#[derive(Debug, Clone, Copy, PartialEq, Eq, Structural)]
pub enum FetchPhase {
    Loading,
    Storing,
    Finished,
}

/// The progress of a fetch over `symbol_count` symbols.
#[derive(Debug, Clone, Copy, PartialEq, Eq, Structural)]
pub struct FetchState {
    pub symbol_count: usize,
    /// The symbol being loaded or stored.
    pub symbol: usize,
    /// How many bars were sampled for that symbol, and the next to store.
    pub samples: u32,
    pub next_sample: u32,
    pub inserted: u32,
    pub total: u32,
    pub failures: u32,
    pub phase: FetchPhase,
}

/// What the caller saw after an action.
#[derive(Debug, Clone, Copy, PartialEq, Eq, Structural)]
pub enum FetchEvent {
    /// The cancel flag was set.
    Cancelled,
    /// The 5m bars could not be loaded; the dataset expects `timepoints`
    /// snapshots of the symbol, each recorded as a failure (one failure
    /// when it expects none).
    BarsFailed { timepoints: u32 },
    /// The 5m bars came back empty; recorded as for `BarsFailed`.
    BarsEmpty { timepoints: u32 },
    /// `samples` bars were sampled, and `context_failures` of the other
    /// K-line frequencies could not be loaded (each recorded once per
    /// sample, or once when there is no sample).
    BarsSampled { samples: u32, context_failures: u32 },
    /// The sampled bar has a price that is not positive.
    BarInvalid,
    /// The snapshot was written.
    SnapshotStored,
    /// Writing the snapshot failed.
    SnapshotFailed,
}

/// Why a fetch failed.
#[derive(Debug, Clone, Copy, PartialEq, Eq, Structural)]
pub enum FetchError {
    Cancelled,
    /// No snapshot was stored; `failures` were recorded.
    NoSnapshots { failures: u32 },
}

/// What the caller does next.
#[derive(Debug, Clone, Copy, PartialEq, Eq, Structural)]
pub enum FetchAction {
    /// Check the cancel flag, load and sample the bars of symbol `index`
    /// and its context bars, and report the outcome.
    LoadSymbol { index: usize },
    /// Check the cancel flag, validate and write sampled bar `sample` of
    /// symbol `symbol`, and report the outcome.
    StoreSample { symbol: usize, sample: u32 },
    /// The fetch ended with this outcome.
    Done { inserted: u32, total: u32, failures: u32 },
    /// The fetch failed.
    Fail { error: FetchError },
}

impl FetchState {
    /// The state's invariant: positions stay within their bounds, and a
    /// symbol being worked on exists.
    pub open spec fn wf(self) -> bool {
        &&& self.symbol <= self.symbol_count
        &&& self.next_sample <= self.samples
        &&& self.phase == FetchPhase::Loading ==> self.symbol < self.symbol_count
        &&& self.phase == FetchPhase::Storing ==> self.symbol < self.symbol_count && self.next_sample
            < self.samples
    }
}

impl FetchError {
    /// The message the fetch fails with.
    pub fn message(&self) -> (r: String)
        ensures
            r@ == match *self {
                FetchError::Cancelled => "数据拉取已取消"@,
                FetchError::NoSnapshots { failures } => "没有拉取到可用历史快照，已记录 "@ + decimal_digits(
                    failures as nat,
                ) + " 条失败股票-时间点。"@,
            },
    {
        match self {
            FetchError::Cancelled => "数据拉取已取消".to_string(),
            FetchError::NoSnapshots { failures } => no_snapshots_message(*failures),
        }
    }
}

/// How many failure records a failed load of a symbol's bars writes: one
/// per timepoint, or one when there is none.
pub open spec fn recorded_failures(timepoints: u32) -> int {
    if timepoints == 0 {
        1
    } else {
        timepoints as int
    }
}

/// The end of a fetch: an error when nothing was stored, else the counts.
pub open spec fn fetch_finish(s: FetchState) -> (FetchState, FetchAction) {
    let t = FetchState { phase: FetchPhase::Finished, ..s };
    if s.inserted == 0 {
        (t, FetchAction::Fail { error: FetchError::NoSnapshots { failures: s.failures } })
    } else {
        (t, FetchAction::Done { inserted: s.inserted, total: s.total, failures: s.failures })
    }
}

/// Moving on to symbol `next`: load it, or end when there is none left.
pub open spec fn fetch_next_symbol(s: FetchState, next: usize) -> (FetchState, FetchAction) {
    let t = FetchState { symbol: next, samples: 0, next_sample: 0, ..s };
    if next < s.symbol_count {
        (FetchState { phase: FetchPhase::Loading, ..t }, FetchAction::LoadSymbol { index: next })
    } else {
        fetch_finish(t)
    }
}

/// The first state and action of a fetch over `symbol_count` symbols.
pub open spec fn fetch_start_spec(symbol_count: usize) -> (FetchState, FetchAction) {
    let s = FetchState {
        symbol_count,
        symbol: 0,
        samples: 0,
        next_sample: 0,
        inserted: 0,
        total: 0,
        failures: 0,
        phase: FetchPhase::Loading,
    };
    fetch_next_symbol(s, 0)
}

/// Whether `e` can follow the action that led to `s`, with every count
/// still within `u32`.
pub open spec fn fetch_event_fits(s: FetchState, e: FetchEvent) -> bool {
    &&& s.wf()
    &&& match s.phase {
        FetchPhase::Loading => match e {
            FetchEvent::Cancelled => true,
            FetchEvent::BarsFailed { timepoints } => s.total + timepoints <= u32::MAX && s.failures
                + recorded_failures(timepoints) <= u32::MAX,
            FetchEvent::BarsEmpty { timepoints } => s.total + timepoints <= u32::MAX && s.failures
                + recorded_failures(timepoints) <= u32::MAX,
            FetchEvent::BarsSampled { samples, context_failures } => s.total + samples <= u32::MAX
                && s.failures + context_failures * recorded_failures(samples) <= u32::MAX,
            _ => false,
        },
        FetchPhase::Storing => match e {
            FetchEvent::Cancelled => true,
            FetchEvent::BarInvalid => s.failures + 1 <= u32::MAX,
            FetchEvent::SnapshotFailed => s.failures + 1 <= u32::MAX,
            FetchEvent::SnapshotStored => s.inserted + 1 <= u32::MAX,
            _ => false,
        },
        FetchPhase::Finished => false,
    }
}

/// After a sample: store the next one, or move on to the next symbol.
pub open spec fn fetch_after_sample(s: FetchState) -> (FetchState, FetchAction) {
    if s.next_sample < s.samples {
        (s, FetchAction::StoreSample { symbol: s.symbol, sample: s.next_sample })
    } else {
        fetch_next_symbol(s, (s.symbol + 1) as usize)
    }
}

/// The next state and action after event `e`.
pub open spec fn fetch_step_spec(s: FetchState, e: FetchEvent) -> (FetchState, FetchAction) {
    match e {
        FetchEvent::Cancelled => (
            FetchState { phase: FetchPhase::Finished, ..s },
            FetchAction::Fail { error: FetchError::Cancelled },
        ),
        FetchEvent::BarsFailed { timepoints } => fetch_next_symbol(
            FetchState {
                total: (s.total + timepoints) as u32,
                failures: (s.failures + recorded_failures(timepoints)) as u32,
                ..s
            },
            (s.symbol + 1) as usize,
        ),
        FetchEvent::BarsEmpty { timepoints } => fetch_next_symbol(
            FetchState {
                total: (s.total + timepoints) as u32,
                failures: (s.failures + recorded_failures(timepoints)) as u32,
                ..s
            },
            (s.symbol + 1) as usize,
        ),
        FetchEvent::BarsSampled { samples, context_failures } => {
            let t = FetchState {
                total: (s.total + samples) as u32,
                failures: (s.failures + context_failures * recorded_failures(samples)) as u32,
                samples,
                next_sample: 0,
                phase: FetchPhase::Storing,
                ..s
            };
            fetch_after_sample(t)
        },
        FetchEvent::BarInvalid => fetch_after_sample(
            FetchState {
                failures: (s.failures + 1) as u32,
                next_sample: (s.next_sample + 1) as u32,
                ..s
            },
        ),
        FetchEvent::SnapshotFailed => fetch_after_sample(
            FetchState {
                failures: (s.failures + 1) as u32,
                next_sample: (s.next_sample + 1) as u32,
                ..s
            },
        ),
        FetchEvent::SnapshotStored => fetch_after_sample(
            FetchState {
                inserted: (s.inserted + 1) as u32,
                next_sample: (s.next_sample + 1) as u32,
                ..s
            },
        ),
    }
}

fn finish(s: FetchState) -> (r: (FetchState, FetchAction))
    ensures
        r == fetch_finish(s),
{
    let t = FetchState { phase: FetchPhase::Finished, ..s };
    if s.inserted == 0 {
        (t, FetchAction::Fail { error: FetchError::NoSnapshots { failures: s.failures } })
    } else {
        (t, FetchAction::Done { inserted: s.inserted, total: s.total, failures: s.failures })
    }
}

fn next_symbol(s: FetchState, next: usize) -> (r: (FetchState, FetchAction))
    ensures
        r == fetch_next_symbol(s, next),
{
    let t = FetchState { symbol: next, samples: 0, next_sample: 0, ..s };
    if next < s.symbol_count {
        (FetchState { phase: FetchPhase::Loading, ..t }, FetchAction::LoadSymbol { index: next })
    } else {
        finish(t)
    }
}

fn after_sample(s: FetchState) -> (r: (FetchState, FetchAction))
    requires
        s.symbol < s.symbol_count,
    ensures
        r == fetch_after_sample(s),
{
    if s.next_sample < s.samples {
        (s, FetchAction::StoreSample { symbol: s.symbol, sample: s.next_sample })
    } else {
        next_symbol(s, s.symbol + 1)
    }
}

/// The first state and action of a fetch over `symbol_count` symbols: load
/// the first symbol, or fail at once when there is none.
pub fn fetch_start(symbol_count: usize) -> (r: (FetchState, FetchAction))
    ensures
        r == fetch_start_spec(symbol_count),
        r.0.wf(),
{
    let s = FetchState {
        symbol_count,
        symbol: 0,
        samples: 0,
        next_sample: 0,
        inserted: 0,
        total: 0,
        failures: 0,
        phase: FetchPhase::Loading,
    };
    next_symbol(s, 0)
}

/// The failure records that a failed load writes.
fn recorded_failures_exec(timepoints: u32) -> (r: u32)
    ensures
        r as int == recorded_failures(timepoints),
{
    if timepoints == 0 {
        1
    } else {
        timepoints
    }
}

/// Whether `event` may be handed to `fetch_step` in `state`: it answers the
/// action that led there, and no count goes past `u32::MAX`.
pub fn fetch_event_allowed(state: &FetchState, event: FetchEvent) -> (r: bool)
    ensures
        r == fetch_event_fits(*state, event),
{
    let s = *state;
    if !(s.symbol <= s.symbol_count && s.next_sample <= s.samples) {
        return false;
    }
    match s.phase {
        FetchPhase::Loading => {
            if s.symbol >= s.symbol_count {
                return false;
            }
            match event {
                FetchEvent::Cancelled => true,
                FetchEvent::BarsFailed { timepoints } | FetchEvent::BarsEmpty { timepoints } => {
                    timepoints <= u32::MAX - s.total && recorded_failures_exec(timepoints) <= u32::MAX
                        - s.failures
                },
                FetchEvent::BarsSampled { samples, context_failures } => {
                    let per: u32 = recorded_failures_exec(samples);
                    let room: u32 = u32::MAX - s.failures;
                    proof {
                        assert(context_failures <= room / per ==> context_failures * per <= room)
                            by (nonlinear_arith)
                            requires
                                per >= 1,
                        ;
                        assert(context_failures > room / per ==> context_failures * per > room)
                            by (nonlinear_arith)
                            requires
                                per >= 1,
                        ;
                    }
                    samples <= u32::MAX - s.total && context_failures <= room / per
                },
                _ => false,
            }
        },
        FetchPhase::Storing => {
            if !(s.symbol < s.symbol_count && s.next_sample < s.samples) {
                return false;
            }
            match event {
                FetchEvent::Cancelled => true,
                FetchEvent::BarInvalid | FetchEvent::SnapshotFailed => s.failures < u32::MAX,
                FetchEvent::SnapshotStored => s.inserted < u32::MAX,
                _ => false,
            }
        },
        FetchPhase::Finished => false,
    }
}

/// The next state and action after event `e`.
pub fn fetch_step(state: &FetchState, event: FetchEvent) -> (r: (FetchState, FetchAction))
    requires
        fetch_event_fits(*state, event),
    ensures
        r == fetch_step_spec(*state, event),
{
    let s = *state;
    match event {
        FetchEvent::Cancelled => (
            FetchState { phase: FetchPhase::Finished, ..s },
            FetchAction::Fail { error: FetchError::Cancelled },
        ),
        FetchEvent::BarsFailed { timepoints } | FetchEvent::BarsEmpty { timepoints } => {
            let t = FetchState {
                total: s.total + timepoints,
                failures: s.failures + recorded_failures_exec(timepoints),
                ..s
            };
            next_symbol(t, s.symbol + 1)
        },
        FetchEvent::BarsSampled { samples, context_failures } => {
            let per: u32 = recorded_failures_exec(samples);
            proof {
                assert(0 <= context_failures * per <= u32::MAX) by (nonlinear_arith)
                    requires
                        s.failures + context_failures * per <= u32::MAX,
                        0 <= s.failures,
                        0 <= context_failures,
                        0 <= per,
                ;
            }
            let t = FetchState {
                total: s.total + samples,
                failures: s.failures + context_failures * per,
                samples,
                next_sample: 0,
                phase: FetchPhase::Storing,
                ..s
            };
            after_sample(t)
        },
        FetchEvent::BarInvalid | FetchEvent::SnapshotFailed => {
            let t = FetchState { failures: s.failures + 1, next_sample: s.next_sample + 1, ..s };
            after_sample(t)
        },
        FetchEvent::SnapshotStored => {
            let t = FetchState { inserted: s.inserted + 1, next_sample: s.next_sample + 1, ..s };
            after_sample(t)
        },
    }
}

/// How much work a fetch has left: the symbols still to load, each worth
/// more than all the samples of one symbol, less the samples of the current
/// symbol already handled; nothing once it has ended.
pub open spec fn fetch_remaining(s: FetchState) -> int {
    let rest = s.symbol_count - s.symbol;
    let per_symbol = u32::MAX as int + 2;
    match s.phase {
        FetchPhase::Finished => 0,
        FetchPhase::Loading => rest * per_symbol,
        FetchPhase::Storing => rest * per_symbol - (s.next_sample + 1),
    }
}

/// What the action asks of the caller agrees with the state: while loading
/// it is to load the current symbol, while storing to store its next
/// sample, and once ended it is the end.
pub open spec fn fetch_action_agrees(s: FetchState, a: FetchAction) -> bool {
    match s.phase {
        FetchPhase::Loading => a == FetchAction::LoadSymbol { index: s.symbol },
        FetchPhase::Storing => a == FetchAction::StoreSample { symbol: s.symbol, sample: s.next_sample },
        FetchPhase::Finished => a is Done || a is Fail,
    }
}

/// A fetch starts well formed, with every count at zero, and with an action
/// that agrees with its state.
pub proof fn lemma_fetch_start(symbol_count: usize)
    ensures
        fetch_start_spec(symbol_count).0.wf(),
        fetch_action_agrees(fetch_start_spec(symbol_count).0, fetch_start_spec(symbol_count).1),
        symbol_count == 0 ==> fetch_start_spec(symbol_count).1 == (FetchAction::Fail {
            error: FetchError::NoSnapshots { failures: 0 },
        }),
{
}

/// Every step keeps the state well formed and over the same symbols, never
/// lowers the inserted, total or failure counts, gives an action that agrees
/// with the new state, and leaves strictly less work: a fetch always ends.
pub proof fn lemma_fetch_step(s: FetchState, e: FetchEvent)
    requires
        fetch_event_fits(s, e),
    ensures
        fetch_step_spec(s, e).0.wf(),
        fetch_step_spec(s, e).0.symbol_count == s.symbol_count,
        fetch_step_spec(s, e).0.inserted >= s.inserted,
        fetch_step_spec(s, e).0.total >= s.total,
        fetch_step_spec(s, e).0.failures >= s.failures,
        fetch_action_agrees(fetch_step_spec(s, e).0, fetch_step_spec(s, e).1),
        0 <= fetch_remaining(fetch_step_spec(s, e).0) < fetch_remaining(s),
{
    let per_symbol = u32::MAX as int + 2;
    let rest = s.symbol_count - s.symbol;
    assert(rest * per_symbol >= per_symbol) by (nonlinear_arith)
        requires
            rest >= 1,
            per_symbol > 0,
    ;
    assert((rest - 1) * per_symbol == rest * per_symbol - per_symbol) by (nonlinear_arith);
    let t = fetch_step_spec(s, e).0;
    if t.phase != FetchPhase::Finished {
        let rt = t.symbol_count - t.symbol;
        assert(rt * per_symbol >= per_symbol) by (nonlinear_arith)
            requires
                rt >= 1,
                per_symbol > 0,
        ;
    }
    assert(s.phase != FetchPhase::Finished);
    if s.phase == FetchPhase::Loading {
        assert(rest >= 1);
    }
}

/// A fetch that ends without being cancelled fails exactly when nothing was
/// stored, with the number of recorded failures; otherwise it reports its
/// counts.
pub proof fn lemma_fetch_end(s: FetchState, e: FetchEvent)
    requires
        fetch_event_fits(s, e),
        e != FetchEvent::Cancelled,
        fetch_step_spec(s, e).0.phase == FetchPhase::Finished,
    ensures
        fetch_step_spec(s, e).0.inserted == 0 ==> fetch_step_spec(s, e).1 == (FetchAction::Fail {
            error: FetchError::NoSnapshots { failures: fetch_step_spec(s, e).0.failures },
        }),
        fetch_step_spec(s, e).0.inserted > 0 ==> fetch_step_spec(s, e).1 == (FetchAction::Done {
            inserted: fetch_step_spec(s, e).0.inserted,
            total: fetch_step_spec(s, e).0.total,
            failures: fetch_step_spec(s, e).0.failures,
        }),
{
}

/// A cancelled fetch fails as cancelled, with its counts as they were.
pub proof fn lemma_fetch_cancel(s: FetchState)
    requires
        fetch_event_fits(s, FetchEvent::Cancelled),
    ensures
        fetch_step_spec(s, FetchEvent::Cancelled).1 == (FetchAction::Fail { error: FetchError::Cancelled }),
        fetch_step_spec(s, FetchEvent::Cancelled).0 == (FetchState { phase: FetchPhase::Finished, ..s }),
{
}

} // verus!
