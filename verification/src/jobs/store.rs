//! What the stored job history keeps across restarts: which stored jobs have
//! expired, when to look for them again, and how a restart ends the jobs it
//! cut off.
use vstd::prelude::*;

use super::kinds;
use super::state::{ended_job, jobs_view, JobRecord, JobView};
use super::{duration_between, job_timestamp_millis, parse_job_timestamp_millis};
use crate::text::{chars_eq, chars_of};

verus! {

/// Days a job stays in the history after it started.
pub const JOB_HISTORY_RETENTION_DAYS: i64 = 7;

/// Milliseconds between two looks for expired jobs.
pub const JOB_HISTORY_CLEANUP_INTERVAL_MS: i64 = 60 * 60 * 1000;

/// `a - b`, held to the range of `i64`.
pub open spec fn saturating_diff(a: int, b: int) -> int {
    if a - b > i64::MAX {
        i64::MAX as int
    } else if a - b < i64::MIN {
        i64::MIN as int
    } else {
        a - b
    }
}

fn saturating_sub_i64(a: i64, b: i64) -> (r: i64)
    ensures
        r == saturating_diff(a as int, b as int),
{
    let d: i128 = a as i128 - b as i128;
    if d > i64::MAX as i128 {
        i64::MAX
    } else if d < i64::MIN as i128 {
        i64::MIN
    } else {
        d as i64
    }
}

/// Whether the history is due a look for expired jobs: it never had one, or
/// the last was at least the clean-up interval ago.
pub fn cleanup_is_due(last_cleanup_ms: Option<i64>, now_ms: i64) -> (r: bool)
    ensures
        r == match last_cleanup_ms {
            Some(last) => saturating_diff(now_ms as int, last as int) >= JOB_HISTORY_CLEANUP_INTERVAL_MS,
            None => true,
        },
{
    match last_cleanup_ms {
        Some(last) => saturating_sub_i64(now_ms, last) >= JOB_HISTORY_CLEANUP_INTERVAL_MS,
        None => true,
    }
}

/// The start time before which a stored job has expired.
pub open spec fn retention_cutoff(now_ms: int) -> int {
    saturating_diff(now_ms, JOB_HISTORY_RETENTION_DAYS * 24 * 60 * 60 * 1000)
}

/// The ids of the jobs that started (by a readable start time) before
/// `cutoff`, in stored order.
pub open spec fn expired_ids(jobs: Seq<JobView>, cutoff: int) -> Seq<i64>
    decreases jobs.len(),
{
    if jobs.len() == 0 {
        Seq::empty()
    } else {
        let prev = expired_ids(jobs.drop_last(), cutoff);
        if job_timestamp_millis(jobs.last().started_at) matches Some(s) && s < cutoff {
            prev.push(jobs.last().id)
        } else {
            prev
        }
    }
}

/// The ids of the stored jobs to delete at `now_ms`: those that started more
/// than the retention period before it.
pub fn expired_job_ids(jobs: &[JobRecord], now_ms: i64) -> (r: Vec<i64>)
    ensures
        r@ == expired_ids(jobs_view(jobs@), retention_cutoff(now_ms as int)),
{
    let cutoff = saturating_sub_i64(now_ms, JOB_HISTORY_RETENTION_DAYS * 24 * 60 * 60 * 1000);
    let ghost jv = jobs_view(jobs@);
    let mut out: Vec<i64> = Vec::new();
    let mut i: usize = 0;
    while i < jobs.len()
        invariant
            i <= jobs.len(),
            jv == jobs_view(jobs@),
            cutoff == retention_cutoff(now_ms as int),
            out@ == expired_ids(jv.take(i as int), cutoff as int),
        decreases jobs.len() - i,
    {
        proof {
            assert(jv.take(i + 1).drop_last() =~= jv.take(i as int));
            assert(jv.take(i + 1).last() == jobs@[i as int]@);
        }
        match parse_job_timestamp_millis(jobs[i].started_at.as_str()) {
            Some(started) => {
                if started < cutoff {
                    out.push(jobs[i].id);
                }
            },
            None => {},
        }
        i += 1;
    }
    assert(jv.take(jobs.len() as int) =~= jv);
    out
}

/// How a restart leaves a stored job: one still running or queued, other
/// than a paper order, is cancelled at `now` as interrupted; any other job
/// stays as it was.
pub open spec fn interrupted_by_restart(j: JobView, now: Seq<char>) -> JobView {
    if (j.status == "running"@ || j.status == "queued"@) && j.kind != kinds::PAPER_ORDER@ {
        ended_job(j, "cancelled"@, j.message, j.result_summary, Some("Interrupted by app restart"@), now)
    } else {
        j
    }
}

/// The stored jobs as a restart at `now` leaves them.
pub open spec fn after_restart(jobs: Seq<JobView>, now: Seq<char>) -> Seq<JobView> {
    jobs.map_values(|j: JobView| interrupted_by_restart(j, now))
}

/// Ends, at `now`, every stored job that a restart cut off (see
/// `interrupted_by_restart`).
pub fn mark_incomplete_jobs_as_interrupted(jobs: &mut Vec<JobRecord>, now: &str)
    ensures
        jobs_view(final(jobs)@) == after_restart(jobs_view(old(jobs)@), now@),
{
    let ghost start = jobs_view(jobs@);
    let running = chars_of("running");
    let queued = chars_of("queued");
    let paper = chars_of(kinds::PAPER_ORDER);
    proof {
        reveal_strlit("running");
        reveal_strlit("queued");
    }
    let mut i: usize = 0;
    while i < jobs.len()
        invariant
            i <= jobs.len(),
            jobs@.len() == start.len(),
            running@ == "running"@,
            queued@ == "queued"@,
            paper@ == kinds::PAPER_ORDER@,
            forall|k: int| 0 <= k < i ==> (#[trigger] jobs@[k])@ == interrupted_by_restart(start[k], now@),
            forall|k: int| i <= k < jobs@.len() ==> (#[trigger] jobs@[k])@ == start[k],
        decreases jobs.len() - i,
    {
        let status = chars_of(jobs[i].status.as_str());
        let kind = chars_of(jobs[i].kind.as_str());
        let cut_off = (chars_eq(&status, &running) || chars_eq(&status, &queued)) && !chars_eq(&kind, &paper);
        if cut_off {
            let mut job = jobs[i].duplicate();
            let duration = duration_between(job.started_at.as_str(), now);
            job.status = "cancelled".to_string();
            job.updated_at = now.to_string();
            job.ended_at = Some(now.to_string());
            job.duration_ms = duration;
            job.error_details = Some("Interrupted by app restart".to_string());
            jobs.set(i, job);
        }
        i += 1;
    }
    assert(jobs_view(jobs@) =~= after_restart(start, now@));
}

/// After a restart no stored job other than a paper order is left running or
/// queued, and paper orders are left exactly as they were.
pub proof fn law_restart_leaves_no_job_running(jobs: Seq<JobView>, now: Seq<char>)
    ensures
        after_restart(jobs, now).len() == jobs.len(),
        forall|k: int| 0 <= k < jobs.len() && jobs[k].kind != kinds::PAPER_ORDER@ ==> {
            &&& (#[trigger] after_restart(jobs, now)[k]).status != "running"@
            &&& after_restart(jobs, now)[k].status != "queued"@
        },
        forall|k: int| 0 <= k < jobs.len() && jobs[k].kind == kinds::PAPER_ORDER@ ==> #[trigger] after_restart(jobs, now)[k] == jobs[k],
{
    reveal_strlit("running");
    reveal_strlit("queued");
    reveal_strlit("cancelled");
    assert("cancelled"@ != "running"@) by {
        assert("cancelled"@[0] != "running"@[0]);
    }
    assert("cancelled"@ != "queued"@) by {
        assert("cancelled"@[0] != "queued"@[0]);
    }
}

} // verus!
