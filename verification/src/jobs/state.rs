//! The list of background jobs the application keeps: newest first, at most
//! `MAX_LOADED_JOBS` of them, with the ids handed out and the jobs a user
//! asked to cancel.
//!
//! Timestamps are handed in by the caller, which reads the clock.
use vstd::prelude::*;

use super::kinds;
use super::{duration_between, job_timestamp_millis, parse_job_timestamp_millis};
use crate::text::{chars_eq, chars_of};

verus! {

/// How many jobs are kept.
pub const MAX_LOADED_JOBS: usize = 200;

/// A job as it is listed.
#[derive(Debug, PartialEq, Eq)]
pub struct JobRecord {
    pub id: i64,
    pub kind: String,
    pub status: String,
    pub message: String,
    pub started_at: String,
    pub updated_at: String,
    pub ended_at: Option<String>,
    pub duration_ms: Option<i64>,
    pub input_params_json: Option<String>,
    pub result_summary: Option<String>,
    pub error_details: Option<String>,
}

/// A job as plain values.
pub struct JobView {
    pub id: i64,
    pub kind: Seq<char>,
    pub status: Seq<char>,
    pub message: Seq<char>,
    pub started_at: Seq<char>,
    pub updated_at: Seq<char>,
    pub ended_at: Option<Seq<char>>,
    pub duration_ms: Option<i64>,
    pub input_params_json: Option<Seq<char>>,
    pub result_summary: Option<Seq<char>>,
    pub error_details: Option<Seq<char>>,
}

pub open spec fn opt_view(o: Option<String>) -> Option<Seq<char>> {
    match o {
        Some(s) => Some(s@),
        None => None,
    }
}

impl View for JobRecord {
    type V = JobView;

    open spec fn view(&self) -> JobView {
        JobView {
            id: self.id,
            kind: self.kind@,
            status: self.status@,
            message: self.message@,
            started_at: self.started_at@,
            updated_at: self.updated_at@,
            ended_at: opt_view(self.ended_at),
            duration_ms: self.duration_ms,
            input_params_json: opt_view(self.input_params_json),
            result_summary: opt_view(self.result_summary),
            error_details: opt_view(self.error_details),
        }
    }
}

pub open spec fn jobs_view(v: Seq<JobRecord>) -> Seq<JobView> {
    v.map_values(|j: JobRecord| j@)
}

fn copy_opt(o: &Option<String>) -> (r: Option<String>)
    ensures
        opt_view(r) == opt_view(*o),
{
    match o {
        Some(s) => Some(s.clone()),
        None => None,
    }
}

impl JobRecord {
    pub fn duplicate(&self) -> (r: JobRecord)
        ensures
            r@ == self@,
    {
        JobRecord {
            id: self.id,
            kind: self.kind.clone(),
            status: self.status.clone(),
            message: self.message.clone(),
            started_at: self.started_at.clone(),
            updated_at: self.updated_at.clone(),
            ended_at: copy_opt(&self.ended_at),
            duration_ms: self.duration_ms,
            input_params_json: copy_opt(&self.input_params_json),
            result_summary: copy_opt(&self.result_summary),
            error_details: copy_opt(&self.error_details),
        }
    }
}

/// The running paper order jobs, with their order input.
pub open spec fn resumable(jobs: Seq<JobView>) -> Seq<(i64, Option<Seq<char>>)>
    decreases jobs.len(),
{
    if jobs.len() == 0 {
        Seq::empty()
    } else {
        let prev = resumable(jobs.drop_last());
        let j = jobs.last();
        if j.kind == kinds::PAPER_ORDER@ && j.status == "running"@ {
            prev.push((j.id, j.input_params_json))
        } else {
            prev
        }
    }
}

/// What a job waiting for the market does next.
#[derive(Debug, Clone, Copy, PartialEq, Eq, Structural)]
pub enum WaitStep {
    /// Give up: the job was cancelled or ended.
    Stop,
    /// Check again later.
    Wait,
    /// The market is open: go ahead.
    Proceed,
}

/// A job that has just started.
pub open spec fn running_job(id: i64, kind: Seq<char>, message: Seq<char>, input: Option<Seq<char>>, now: Seq<char>) -> JobView {
    JobView {
        id,
        kind,
        status: "running"@,
        message,
        started_at: now,
        updated_at: now,
        ended_at: None,
        duration_ms: None,
        input_params_json: input,
        result_summary: None,
        error_details: None,
    }
}

/// What `duration_between` gives from a job's start to `now`.
pub open spec fn job_duration(started_at: Seq<char>, now: Seq<char>) -> Option<i64> {
    match (job_timestamp_millis(started_at), job_timestamp_millis(now)) {
        (Some(s), Some(e)) => Some(
            (if e - s > i64::MAX {
                i64::MAX as int
            } else if e - s < i64::MIN {
                i64::MIN as int
            } else {
                e - s
            }) as i64,
        ),
        _ => None,
    }
}

/// A job that ended at `now` with these outcomes.
pub open spec fn ended_job(
    j: JobView,
    status: Seq<char>,
    message: Seq<char>,
    result_summary: Option<Seq<char>>,
    error_details: Option<Seq<char>>,
    now: Seq<char>,
) -> JobView {
    JobView {
        status,
        message,
        updated_at: now,
        ended_at: Some(now),
        duration_ms: job_duration(j.started_at, now),
        result_summary,
        error_details,
        ..j
    }
}

/// `job` put first, the list cut to `MAX_LOADED_JOBS`.
pub open spec fn newest_first(jobs: Seq<JobView>, job: JobView) -> Seq<JobView> {
    let all = seq![job] + jobs;
    if all.len() > MAX_LOADED_JOBS {
        all.take(MAX_LOADED_JOBS as int)
    } else {
        all
    }
}

/// The position of the first job with this id.
pub open spec fn first_with_id(jobs: Seq<JobView>, id: i64) -> Option<int>
    decreases jobs.len(),
{
    if jobs.len() == 0 {
        None
    } else if jobs[0].id == id {
        Some(0)
    } else {
        match first_with_id(jobs.drop_first(), id) {
            Some(k) => Some(k + 1),
            None => None,
        }
    }
}

/// Whether a job of `kind` is running.
pub open spec fn has_running(jobs: Seq<JobView>, kind: Seq<char>) -> bool {
    exists|i: int| 0 <= i < jobs.len() && (#[trigger] jobs[i]).kind == kind && jobs[i].status == "running"@
}

/// The jobs of the current session: started since the session began, or
/// paper orders still running from before.
pub open spec fn session_jobs(jobs: Seq<JobView>, session_start: int) -> Seq<JobView>
    decreases jobs.len(),
{
    if jobs.len() == 0 {
        jobs
    } else {
        let prev = session_jobs(jobs.drop_last(), session_start);
        let j = jobs.last();
        if (job_timestamp_millis(j.started_at) matches Some(t) && t >= session_start)
            || (j.kind == kinds::PAPER_ORDER@ && j.status == "running"@) {
            prev.push(j)
        } else {
            prev
        }
    }
}

proof fn lemma_first_with_id(jobs: Seq<JobView>, id: i64, i: int)
    requires
        0 <= i <= jobs.len(),
        forall|j: int| 0 <= j < i ==> jobs[j].id != id,
    ensures
        i < jobs.len() && jobs[i].id == id ==> first_with_id(jobs, id) == Some(i),
        i == jobs.len() ==> first_with_id(jobs, id) is None,
    decreases i,
{
    if i > 0 {
        let t = jobs.drop_first();
        assert forall|j: int| 0 <= j < i - 1 implies t[j].id != id by {
            assert(t[j] == jobs[j + 1]);
        }
        lemma_first_with_id(t, id, i - 1);
        if i < jobs.len() {
            assert(t[i - 1] == jobs[i]);
        }
    }
}

proof fn lemma_first_with_id_found(jobs: Seq<JobView>, id: i64)
    ensures
        first_with_id(jobs, id) matches Some(k) ==> 0 <= k < jobs.len() && jobs[k].id == id,
    decreases jobs.len(),
{
    if jobs.len() > 0 && jobs[0].id != id {
        lemma_first_with_id_found(jobs.drop_first(), id);
    }
}

/// The jobs of the application.
pub struct JobState {
    jobs: Vec<JobRecord>,
    next_job_id: i64,
    cancelled_jobs: Vec<i64>,
    session_started_at: String,
}

impl JobState {
    pub closed spec fn jobs(self) -> Seq<JobView> {
        jobs_view(self.jobs@)
    }

    pub closed spec fn next_id(self) -> i64 {
        self.next_job_id
    }

    pub closed spec fn cancelled(self) -> Set<i64> {
        self.cancelled_jobs@.to_set()
    }

    pub closed spec fn session_start(self) -> Seq<char> {
        self.session_started_at@
    }

    /// Every listed job has an id below the next one to hand out.
    pub open spec fn ids_below_next(self) -> bool {
        ids_below(self.jobs(), self.next_id() as int)
    }

    /// The jobs restored from history, the next id to hand out and when this
    /// session began.
    pub fn new(jobs: Vec<JobRecord>, next_job_id: i64, session_started_at: String) -> (r: JobState)
        ensures
            r.jobs() == jobs_view(jobs@),
            r.next_id() == next_job_id,
            r.cancelled() == Set::<i64>::empty(),
            r.session_start() == session_started_at@,
            r.ids_below_next() <==> forall|i: int| 0 <= i < jobs@.len() ==> (#[trigger] jobs@[i]).id < next_job_id,
    {
        let r = JobState { jobs, next_job_id, cancelled_jobs: Vec::new(), session_started_at };
        proof {
            assert forall|i: int| 0 <= i < jobs@.len() implies (#[trigger] jobs@[i])@ == r.jobs()[i] by {}
            if r.ids_below_next() {
                assert forall|i: int| 0 <= i < jobs@.len() implies (#[trigger] jobs@[i]).id < next_job_id by {
                    assert(r.jobs()[i].id == jobs@[i].id);
                }
            }
        }
        assert(r.cancelled_jobs@.to_set() =~= Set::<i64>::empty());
        r
    }

    /// The id the next job gets.
    pub fn next_job_id(&self) -> (r: i64)
        ensures
            r == self.next_id(),
    {
        self.next_job_id
    }

    /// No jobs yet; ids start at 1.
    pub fn empty(session_started_at: String) -> (r: JobState)
        ensures
            r.jobs() == Seq::<JobView>::empty(),
            r.next_id() == 1,
            r.cancelled() == Set::<i64>::empty(),
            r.session_start() == session_started_at@,
    {
        let r = JobState::new(Vec::new(), 1, session_started_at);
        assert(r.jobs() =~= Seq::<JobView>::empty());
        r
    }

    fn push_front(&mut self, job: JobRecord)
        ensures
            final(self).jobs() == newest_first(old(self).jobs(), job@),
            final(self).next_id() == old(self).next_id(),
            final(self).cancelled() == old(self).cancelled(),
            final(self).session_start() == old(self).session_start(),
    {
        let ghost before = self.jobs();
        let ghost jv = job@;
        self.jobs.insert(0, job);
        assert(self.jobs() =~= seq![jv] + before);
        if self.jobs.len() > MAX_LOADED_JOBS {
            self.jobs.truncate(MAX_LOADED_JOBS);
            assert(self.jobs() =~= (seq![jv] + before).take(MAX_LOADED_JOBS as int));
        }
    }

    /// Starts a job: it gets the next id and is listed first.
    pub fn start_job(&mut self, kind: &str, message: &str, input_params_json: Option<String>, now: &str) -> (r: i64)
        requires
            old(self).next_id() < i64::MAX,
        ensures
            r == old(self).next_id(),
            final(self).next_id() == r + 1,
            final(self).jobs() == newest_first(old(self).jobs(), running_job(r, kind@, message@, opt_view(input_params_json), now@)),
            final(self).cancelled() == old(self).cancelled(),
            final(self).session_start() == old(self).session_start(),
            old(self).ids_below_next() ==> final(self).ids_below_next(),
    {
        proof {
            if self.ids_below_next() {
                law_started_id_is_fresh(
                    self.jobs(),
                    self.next_id(),
                    kind@,
                    message@,
                    opt_view(input_params_json),
                    now@,
                );
            }
        }
        let id = self.next_job_id;
        self.next_job_id = id + 1;
        let job = JobRecord {
            id,
            kind: kind.to_string(),
            status: "running".to_string(),
            message: message.to_string(),
            started_at: now.to_string(),
            updated_at: now.to_string(),
            ended_at: None,
            duration_ms: None,
            input_params_json,
            result_summary: None,
            error_details: None,
        };
        self.push_front(job);
        id
    }

    fn running_of_kind(&self, kind: &str) -> (r: bool)
        ensures
            r == has_running(self.jobs(), kind@),
    {
        let k = chars_of(kind);
        let running = chars_of("running");
        let mut i: usize = 0;
        while i < self.jobs.len()
            invariant
                i <= self.jobs@.len(),
                k@ == kind@,
                running@ == "running"@,
                forall|j: int| 0 <= j < i ==> !((#[trigger] self.jobs()[j]).kind == kind@ && self.jobs()[j].status == "running"@),
            decreases self.jobs@.len() - i,
        {
            let job = &self.jobs[i];
            assert(self.jobs()[i as int] == job@);
            if chars_eq(&chars_of(job.kind.as_str()), &k) && chars_eq(&chars_of(job.status.as_str()), &running) {
                return true;
            }
            i += 1;
        }
        false
    }

    /// Starts a job unless one of the same kind is running.
    pub fn start_non_reentrant_job(&mut self, kind: &str, message: &str, input_params_json: Option<String>, now: &str) -> (r: Option<i64>)
        requires
            old(self).next_id() < i64::MAX,
        ensures
            has_running(old(self).jobs(), kind@) ==> r is None && final(self).jobs() == old(self).jobs()
                && final(self).next_id() == old(self).next_id(),
            !has_running(old(self).jobs(), kind@) ==> r == Some(old(self).next_id())
                && final(self).next_id() == old(self).next_id() + 1
                && final(self).jobs() == newest_first(old(self).jobs(), running_job(old(self).next_id(), kind@, message@, opt_view(input_params_json), now@)),
            final(self).cancelled() == old(self).cancelled(),
            final(self).session_start() == old(self).session_start(),
            old(self).ids_below_next() ==> final(self).ids_below_next(),
    {
        if self.running_of_kind(kind) {
            return None;
        }
        Some(self.start_job(kind, message, input_params_json, now))
    }

    fn find_job(&self, id: i64) -> (r: Option<usize>)
        ensures
            r matches Some(i) ==> first_with_id(self.jobs(), id) == Some(i as int) && i < self.jobs().len(),
            r is None ==> first_with_id(self.jobs(), id) is None,
    {
        let mut i: usize = 0;
        while i < self.jobs.len()
            invariant
                i <= self.jobs@.len(),
                forall|j: int| 0 <= j < i ==> self.jobs()[j].id != id,
            decreases self.jobs@.len() - i,
        {
            assert(self.jobs()[i as int].id == self.jobs@[i as int].id);
            if self.jobs[i].id == id {
                proof {
                    lemma_first_with_id(self.jobs(), id, i as int);
                }
                return Some(i);
            }
            i += 1;
        }
        proof {
            lemma_first_with_id(self.jobs(), id, i as int);
        }
        None
    }

    fn end_job_at(
        &mut self,
        k: usize,
        status: &str,
        message: &str,
        result_summary: Option<String>,
        error_details: Option<String>,
        now: &str,
    )
        requires
            k < old(self).jobs().len(),
        ensures
            final(self).jobs() == old(self).jobs().update(
                k as int,
                ended_job(old(self).jobs()[k as int], status@, message@, opt_view(result_summary), opt_view(error_details), now@),
            ),
            final(self).next_id() == old(self).next_id(),
            final(self).cancelled() == old(self).cancelled(),
            final(self).session_start() == old(self).session_start(),
            old(self).ids_below_next() ==> final(self).ids_below_next(),
    {
        proof {
            if self.ids_below_next() {
                law_ending_keeps_ids_below(
                    self.jobs(),
                    self.next_id() as int,
                    k as int,
                    status@,
                    message@,
                    opt_view(result_summary),
                    opt_view(error_details),
                    now@,
                );
            }
        }
        let ghost before = self.jobs();
        let old_job = self.jobs.remove(k);
        assert(old_job@ == before[k as int]);
        let duration = duration_between(old_job.started_at.as_str(), now);
        let job = JobRecord {
            id: old_job.id,
            kind: old_job.kind,
            status: status.to_string(),
            message: message.to_string(),
            started_at: old_job.started_at,
            updated_at: now.to_string(),
            ended_at: Some(now.to_string()),
            duration_ms: duration,
            input_params_json: old_job.input_params_json,
            result_summary,
            error_details,
        };
        let ghost jv = job@;
        self.jobs.insert(k, job);
        assert(self.jobs() =~= before.update(k as int, jv));
    }

    /// Records how the job with this id ended; nothing happens for an unknown id.
    pub fn finish_job(
        &mut self,
        job_id: i64,
        status: &str,
        message: &str,
        result_summary: Option<String>,
        error_details: Option<String>,
        now: &str,
    )
        ensures
            match first_with_id(old(self).jobs(), job_id) {
                Some(k) => final(self).jobs() == old(self).jobs().update(
                    k,
                    ended_job(old(self).jobs()[k], status@, message@, opt_view(result_summary), opt_view(error_details), now@),
                ),
                None => final(self).jobs() == old(self).jobs(),
            },
            final(self).next_id() == old(self).next_id(),
            final(self).cancelled() == old(self).cancelled(),
            final(self).session_start() == old(self).session_start(),
            old(self).ids_below_next() ==> final(self).ids_below_next(),
    {
        proof {
            lemma_first_with_id_found(self.jobs(), job_id);
        }
        match self.find_job(job_id) {
            Some(k) => self.end_job_at(k, status, message, result_summary, error_details, now),
            None => {},
        }
    }

    /// Marks the job as cancelled for whoever runs it, and records it as
    /// cancelled by the user; whether the job is listed.
    pub fn cancel_job(&mut self, job_id: i64, now: &str) -> (r: bool)
        ensures
            final(self).cancelled() == old(self).cancelled().insert(job_id),
            r == first_with_id(old(self).jobs(), job_id) is Some,
            match first_with_id(old(self).jobs(), job_id) {
                Some(k) => final(self).jobs() == old(self).jobs().update(
                    k,
                    ended_job(old(self).jobs()[k], "cancelled"@, "Cancelled by user"@, None, Some("Cancelled by user"@), now@),
                ),
                None => final(self).jobs() == old(self).jobs(),
            },
            final(self).next_id() == old(self).next_id(),
            final(self).session_start() == old(self).session_start(),
            old(self).ids_below_next() ==> final(self).ids_below_next(),
    {
        proof {
            lemma_first_with_id_found(self.jobs(), job_id);
        }
        let ghost before = self.cancelled_jobs@;
        self.cancelled_jobs.push(job_id);
        assert(self.cancelled_jobs@.to_set() =~= before.to_set().insert(job_id)) by {
            assert forall|x: i64| #[trigger] self.cancelled_jobs@.contains(x) <==> (x == job_id || before.contains(x)) by {
                if self.cancelled_jobs@.contains(x) {
                    let i = choose|i: int| 0 <= i < self.cancelled_jobs@.len() && self.cancelled_jobs@[i] == x;
                    if i < before.len() {
                        assert(before[i] == x);
                    }
                }
                if before.contains(x) {
                    let i = choose|i: int| 0 <= i < before.len() && before[i] == x;
                    assert(self.cancelled_jobs@[i] == x);
                }
                if x == job_id {
                    assert(self.cancelled_jobs@[before.len() as int] == x);
                }
            }
        }
        match self.find_job(job_id) {
            Some(k) => {
                self.end_job_at(k, "cancelled", "Cancelled by user", None, Some("Cancelled by user".to_string()), now);
                true
            },
            None => false,
        }
    }

    /// Whether the job with this id was asked to stop.
    pub fn is_cancelled(&self, job_id: i64) -> (r: bool)
        ensures
            r == self.cancelled().contains(job_id),
    {
        let mut i: usize = 0;
        while i < self.cancelled_jobs.len()
            invariant
                i <= self.cancelled_jobs@.len(),
                forall|j: int| 0 <= j < i ==> self.cancelled_jobs@[j] != job_id,
            decreases self.cancelled_jobs@.len() - i,
        {
            if self.cancelled_jobs[i] == job_id {
                assert(self.cancelled_jobs@.contains(job_id));
                return true;
            }
            i += 1;
        }
        false
    }

    /// All jobs, newest first.
    pub fn list_jobs(&self) -> (r: Vec<JobRecord>)
        ensures
            jobs_view(r@) == self.jobs(),
    {
        let mut out: Vec<JobRecord> = Vec::new();
        let mut i: usize = 0;
        while i < self.jobs.len()
            invariant
                i <= self.jobs@.len(),
                jobs_view(out@) == self.jobs().take(i as int),
            decreases self.jobs@.len() - i,
        {
            let ghost before = jobs_view(out@);
            let j = self.jobs[i].duplicate();
            out.push(j);
            assert(jobs_view(out@) =~= before.push(self.jobs()[i as int]));
            assert(self.jobs().take(i + 1) =~= self.jobs().take(i as int).push(self.jobs()[i as int]));
            i += 1;
        }
        assert(self.jobs().take(self.jobs@.len() as int) =~= self.jobs());
        out
    }

    /// The first job with this id.
    pub fn get_job(&self, job_id: i64) -> (r: Option<JobRecord>)
        ensures
            match first_with_id(self.jobs(), job_id) {
                Some(k) => r matches Some(j) && j@ == self.jobs()[k],
                None => r is None,
            },
    {
        proof {
            lemma_first_with_id_found(self.jobs(), job_id);
        }
        match self.find_job(job_id) {
            Some(k) => {
                assert(self.jobs()[k as int] == self.jobs@[k as int]@);
                Some(self.jobs[k].duplicate())
            },
            None => None,
        }
    }

    /// Whether the first job with this id is still running; false when there
    /// is no such job.
    pub fn job_is_running(&self, job_id: i64) -> (r: bool)
        ensures
            r == match first_with_id(self.jobs(), job_id) {
                Some(k) => self.jobs()[k].status == "running"@,
                None => false,
            },
    {
        match self.get_job(job_id) {
            Some(job) => {
                let running = chars_of("running");
                proof {
                    reveal_strlit("running");
                }
                chars_eq(&chars_of(job.status.as_str()), &running)
            },
            None => false,
        }
    }

    /// What a queued paper order job does next: stop when it was cancelled
    /// or is no longer running, go ahead once the market is open, else wait.
    pub fn paper_order_wait_step(&self, job_id: i64, market_open: bool) -> (r: WaitStep)
        ensures
            r == (if self.cancelled().contains(job_id) || !(match first_with_id(self.jobs(), job_id) {
                Some(k) => self.jobs()[k].status == "running"@,
                None => false,
            }) {
                WaitStep::Stop
            } else if market_open {
                WaitStep::Proceed
            } else {
                WaitStep::Wait
            }),
    {
        if self.is_cancelled(job_id) || !self.job_is_running(job_id) {
            WaitStep::Stop
        } else if market_open {
            WaitStep::Proceed
        } else {
            WaitStep::Wait
        }
    }

    /// The paper order jobs to pick up again after a restart: those still
    /// running, in list order, with their order input where they kept one.
    pub fn paper_orders_to_resume(&self) -> (r: Vec<(i64, Option<String>)>)
        ensures
            r@.map_values(|e: (i64, Option<String>)| (e.0, opt_view(e.1))) == resumable(self.jobs()),
    {
        let paper = chars_of(kinds::PAPER_ORDER);
        let running = chars_of("running");
        proof {
            reveal_strlit("running");
        }
        let mut out: Vec<(i64, Option<String>)> = Vec::new();
        let mut i: usize = 0;
        while i < self.jobs.len()
            invariant
                i <= self.jobs@.len(),
                paper@ == kinds::PAPER_ORDER@,
                running@ == "running"@,
                out@.map_values(|e: (i64, Option<String>)| (e.0, opt_view(e.1))) == resumable(self.jobs().take(i as int)),
            decreases self.jobs@.len() - i,
        {
            proof {
                assert(self.jobs().take(i + 1).drop_last() =~= self.jobs().take(i as int));
                assert(self.jobs().take(i + 1).last() == self.jobs@[i as int]@);
            }
            let job = &self.jobs[i];
            if chars_eq(&chars_of(job.kind.as_str()), &paper) && chars_eq(&chars_of(job.status.as_str()), &running) {
                let ghost before = out@.map_values(|e: (i64, Option<String>)| (e.0, opt_view(e.1)));
                let input = copy_opt(&job.input_params_json);
                out.push((job.id, input));
                assert(out@.map_values(|e: (i64, Option<String>)| (e.0, opt_view(e.1))) =~= before.push(
                    (self.jobs@[i as int].id, opt_view(self.jobs@[i as int].input_params_json)),
                ));
            }
            i += 1;
        }
        assert(self.jobs().take(self.jobs@.len() as int) =~= self.jobs());
        out
    }

    /// The jobs of this session, newest first; none when the session start
    /// cannot be read.
    pub fn list_current_session_jobs(&self) -> (r: Vec<JobRecord>)
        ensures
            match job_timestamp_millis(self.session_start()) {
                Some(s) => jobs_view(r@) == session_jobs(self.jobs(), s),
                None => r@.len() == 0,
            },
    {
        let start = match parse_job_timestamp_millis(self.session_started_at.as_str()) {
            Some(s) => s,
            None => return Vec::new(),
        };
        let paper = chars_of(kinds::PAPER_ORDER);
        let running = chars_of("running");
        let mut out: Vec<JobRecord> = Vec::new();
        let mut i: usize = 0;
        while i < self.jobs.len()
            invariant
                i <= self.jobs@.len(),
                job_timestamp_millis(self.session_start()) == Some(start as int),
                paper@ == kinds::PAPER_ORDER@,
                running@ == "running"@,
                jobs_view(out@) == session_jobs(self.jobs().take(i as int), start as int),
            decreases self.jobs@.len() - i,
        {
            let job = &self.jobs[i];
            proof {
                assert(self.jobs().take(i + 1).drop_last() =~= self.jobs().take(i as int));
                assert(self.jobs().take(i + 1).last() == job@);
            }
            let recent = match parse_job_timestamp_millis(job.started_at.as_str()) {
                Some(t) => t >= start,
                None => false,
            };
            let open_paper_order = chars_eq(&chars_of(job.kind.as_str()), &paper)
                && chars_eq(&chars_of(job.status.as_str()), &running);
            if recent || open_paper_order {
                let ghost before = jobs_view(out@);
                out.push(job.duplicate());
                assert(jobs_view(out@) =~= before.push(job@));
            }
            i += 1;
        }
        assert(self.jobs().take(self.jobs@.len() as int) =~= self.jobs());
        out
    }
}


// ---------------------------------------------------------------------------
// Laws
// ---------------------------------------------------------------------------

/// Every job's id is below `next`.
pub open spec fn ids_below(jobs: Seq<JobView>, next: int) -> bool {
    forall|i: int| 0 <= i < jobs.len() ==> (#[trigger] jobs[i]).id < next
}

/// Starting a job where every listed id is below the next id: the new job
/// gets an id above every id listed before it, and afterwards every listed
/// id is again below the next id (one more). So a state that starts with its
/// ids below the next id hands out each id above all earlier ones.
pub proof fn law_started_id_is_fresh(
    jobs: Seq<JobView>,
    next_id: i64,
    kind: Seq<char>,
    message: Seq<char>,
    input: Option<Seq<char>>,
    now: Seq<char>,
)
    requires
        ids_below(jobs, next_id as int),
    ensures
        newest_first(jobs, running_job(next_id, kind, message, input, now))[0].id == next_id,
        forall|i: int| 0 <= i < jobs.len() ==> (#[trigger] jobs[i]).id < next_id,
        ids_below(newest_first(jobs, running_job(next_id, kind, message, input, now)), next_id + 1),
{
    let all = seq![running_job(next_id, kind, message, input, now)] + jobs;
    let l = newest_first(jobs, running_job(next_id, kind, message, input, now));
    assert(l[0] == all[0]);
    assert forall|i: int| 0 <= i < l.len() implies (#[trigger] l[i]).id < next_id + 1 by {
        assert(l[i] == all[i]);
        if i > 0 {
            assert(all[i] == jobs[i - 1]);
        }
    }
}

/// Ending, finishing or cancelling a job keeps every listed id below the
/// next id.
pub proof fn law_ending_keeps_ids_below(
    jobs: Seq<JobView>,
    next_id: int,
    k: int,
    status: Seq<char>,
    message: Seq<char>,
    result_summary: Option<Seq<char>>,
    error_details: Option<Seq<char>>,
    now: Seq<char>,
)
    requires
        ids_below(jobs, next_id),
        0 <= k < jobs.len(),
    ensures
        ids_below(jobs.update(k, ended_job(jobs[k], status, message, result_summary, error_details, now)), next_id),
{
    let after = jobs.update(k, ended_job(jobs[k], status, message, result_summary, error_details, now));
    assert forall|i: int| 0 <= i < after.len() implies (#[trigger] after[i]).id < next_id by {
        assert(jobs[i].id < next_id);
    }
}

/// Ids listed in decreasing order.
pub open spec fn ids_descending(jobs: Seq<JobView>) -> bool {
    forall|i: int, j: int| 0 <= i < j < jobs.len() ==> jobs[i].id > jobs[j].id
}

/// A started job comes first in the list, and while it runs no other job of
/// its kind can be started without re-entering.
pub proof fn law_started_job_blocks_its_kind(
    jobs: Seq<JobView>,
    id: i64,
    kind: Seq<char>,
    message: Seq<char>,
    input: Option<Seq<char>>,
    now: Seq<char>,
)
    ensures
        first_with_id(newest_first(jobs, running_job(id, kind, message, input, now)), id) == Some(0int),
        has_running(newest_first(jobs, running_job(id, kind, message, input, now)), kind),
{
    let l = newest_first(jobs, running_job(id, kind, message, input, now));
    assert(l[0] == running_job(id, kind, message, input, now));
}

/// With ids handed out in increasing order, the list stays newest first and
/// never holds more than `MAX_LOADED_JOBS` jobs.
pub proof fn law_newest_jobs_first(
    jobs: Seq<JobView>,
    next_id: i64,
    kind: Seq<char>,
    message: Seq<char>,
    input: Option<Seq<char>>,
    now: Seq<char>,
)
    requires
        ids_descending(jobs),
        forall|i: int| 0 <= i < jobs.len() ==> (#[trigger] jobs[i]).id < next_id,
        jobs.len() <= MAX_LOADED_JOBS,
    ensures
        ids_descending(newest_first(jobs, running_job(next_id, kind, message, input, now))),
        newest_first(jobs, running_job(next_id, kind, message, input, now)).len() <= MAX_LOADED_JOBS,
        forall|i: int| 0 <= i < newest_first(jobs, running_job(next_id, kind, message, input, now)).len()
            ==> (#[trigger] newest_first(jobs, running_job(next_id, kind, message, input, now))[i]).id < next_id + 1,
{
    let all = seq![running_job(next_id, kind, message, input, now)] + jobs;
    assert forall|i: int, j: int| 0 <= i < j < all.len() implies all[i].id > all[j].id by {
        if i == 0 {
            assert(all[j] == jobs[j - 1]);
        } else {
            assert(all[i] == jobs[i - 1] && all[j] == jobs[j - 1]);
        }
    }
    assert forall|i: int| 0 <= i < all.len() implies (#[trigger] all[i]).id < next_id + 1 by {
        if i > 0 {
            assert(all[i] == jobs[i - 1]);
        }
    }
}

/// Ending a job changes that job only: it is no longer running unless the
/// new status says so, and keeps its id, kind, start and input.
pub proof fn law_ending_changes_only_that_job(
    jobs: Seq<JobView>,
    k: int,
    status: Seq<char>,
    message: Seq<char>,
    result_summary: Option<Seq<char>>,
    error_details: Option<Seq<char>>,
    now: Seq<char>,
)
    requires
        0 <= k < jobs.len(),
    ensures
        ({
            let after = jobs.update(k, ended_job(jobs[k], status, message, result_summary, error_details, now));
            &&& after.len() == jobs.len()
            &&& forall|i: int| 0 <= i < jobs.len() && i != k ==> after[i] == jobs[i]
            &&& after[k].id == jobs[k].id && after[k].kind == jobs[k].kind
            &&& after[k].started_at == jobs[k].started_at
            &&& after[k].input_params_json == jobs[k].input_params_json
            &&& after[k].status == status && after[k].ended_at == Some(now)
        }),
{
}

} // verus!
