//! Properties of the scheduler that relate several operations, stated over
//! the spec functions that the operations' contracts use.
use vstd::prelude::*;

use crate::queue::{pop_result, pop_tie_break, promotion_order, DelayedMap, ReadyMap, SeqMap};
use crate::scheduler::{
    deps_finished, promote_jobs, scan_delayed, scan_jobs, scan_ready, scanned_state, Job, JobState,
    Parameter,
};
use crate::{JobId, Priority, TimeStamp};

verus! {

/// A `NotStarted` job of the workflow with no arguments and no due time is
/// activated by the first scan: it becomes `Waiting` and is enqueued with
/// its priority at the scan's time.
pub proof fn lemma_free_job_activates_on_first_scan(
    jobs: Map<JobId, Job>,
    ready: ReadyMap,
    w: Set<JobId>,
    now: TimeStamp,
    id: JobId,
)
    requires
        jobs.contains_key(id),
        w.contains(id),
        jobs[id].state == JobState::NotStarted,
        jobs[id].arguments@.len() == 0,
        jobs[id].delay_until is None,
    ensures
        scan_jobs(jobs, w, now)[id].state == JobState::Waiting,
        scan_ready(ready, jobs, w, now).contains_key(id),
        scan_ready(ready, jobs, w, now)[id] == (jobs[id].priority, now),
{
}

/// A ready `NotStarted` job of the workflow whose due time is later than the
/// scan's time is delayed by the scan, not activated: it becomes `Delayed`
/// and enters the delayed queue with its due time.
pub proof fn lemma_future_job_is_delayed(
    jobs: Map<JobId, Job>,
    ready: ReadyMap,
    delayed: DelayedMap,
    w: Set<JobId>,
    now: TimeStamp,
    id: JobId,
    due: TimeStamp,
)
    requires
        jobs.contains_key(id),
        w.contains(id),
        jobs[id].state == JobState::NotStarted,
        deps_finished(jobs, jobs[id]),
        jobs[id].delay_until == Some(due),
        due > now,
        !ready.contains_key(id),
    ensures
        scan_jobs(jobs, w, now)[id].state == JobState::Delayed,
        !scan_ready(ready, jobs, w, now).contains_key(id),
        scan_delayed(delayed, jobs, w, now).contains_key((jobs[id].priority, id)),
        scan_delayed(delayed, jobs, w, now)[(jobs[id].priority, id)] == due,
{
}

/// A `Delayed` job whose one delayed entry is due at `due` becomes
/// `Waiting` through promotion at `now` exactly when `now >= due`.
pub proof fn lemma_delayed_job_waits_once_due(
    jobs: Map<JobId, Job>,
    delayed: DelayedMap,
    now: TimeStamp,
    id: JobId,
    p: Priority,
    due: TimeStamp,
)
    requires
        jobs.contains_key(id),
        jobs[id].state == JobState::Delayed,
        delayed.contains_key((p, id)),
        delayed[(p, id)] == due,
        forall|q: Priority| #[trigger] delayed.contains_key((q, id)) ==> q == p,
    ensures
        promote_jobs(jobs, delayed, now)[id].state == if now >= due {
            JobState::Waiting
        } else {
            JobState::Delayed
        },
{
    if now >= due {
        assert(delayed.contains_key((p, id)) && delayed[(p, id)] <= now);
    }
}

/// Among ready entries of equal priority, the one enqueued later is not
/// popped while the earlier one is there.
pub proof fn lemma_equal_priority_pops_in_fifo_order(
    before: ReadyMap,
    r: Option<JobId>,
    after: ReadyMap,
    a: JobId,
    b: JobId,
)
    requires
        pop_result(before, r, after),
        before.contains_key(a),
        before.contains_key(b),
        before[a].0 == before[b].0,
        before[a].1 < before[b].1,
    ensures
        r != Some(b),
        r is Some,
{
}

/// Among ready entries of equal priority and equal enqueue time, the one
/// pushed later (the higher push number) is not popped while the earlier
/// one is there.
pub proof fn lemma_equal_keys_pop_in_push_order(
    before: ReadyMap,
    seqs: SeqMap,
    r: Option<JobId>,
    after: ReadyMap,
    a: JobId,
    b: JobId,
)
    requires
        pop_result(before, r, after),
        pop_tie_break(before, seqs, r),
        before.contains_key(a),
        before.contains_key(b),
        before[a] == before[b],
        seqs[a] < seqs[b],
    ensures
        r != Some(b),
        r is Some,
{
}

/// Promotion orders entries by due time alone: of two entries that are due,
/// the one due earlier is promoted first, whatever their priorities.
pub proof fn lemma_promotion_follows_due_time(
    d: DelayedMap,
    until: TimeStamp,
    ks: Seq<(Priority, JobId)>,
    a: (Priority, JobId),
    b: (Priority, JobId),
)
    requires
        promotion_order(d, until, ks),
        d.contains_key(a),
        d.contains_key(b),
        d[a] < d[b],
        d[b] <= until,
    ensures
        ks.contains(a),
        ks.contains(b),
        ks.index_of(a) < ks.index_of(b),
{
    assert(ks.contains(a));
    assert(ks.contains(b));
    let i = ks.index_of(a);
    let j = ks.index_of(b);
    if j < i {
        assert(d[ks[j]] <= d[ks[i]]);
    }
}

/// A second scan over the same workflow at the same time, right after the
/// first, changes no job and no queue.
pub proof fn lemma_scan_is_idempotent(
    jobs: Map<JobId, Job>,
    ready: ReadyMap,
    delayed: DelayedMap,
    w: Set<JobId>,
    now: TimeStamp,
)
    ensures
        scan_jobs(scan_jobs(jobs, w, now), w, now) == scan_jobs(jobs, w, now),
        scan_ready(scan_ready(ready, jobs, w, now), scan_jobs(jobs, w, now), w, now) == scan_ready(
            ready,
            jobs,
            w,
            now,
        ),
        scan_delayed(scan_delayed(delayed, jobs, w, now), scan_jobs(jobs, w, now), w, now)
            == scan_delayed(delayed, jobs, w, now),
{
    let j1 = scan_jobs(jobs, w, now);
    assert forall|k: JobId| #[trigger] j1.contains_key(k) && w.contains(k) implies scanned_state(
        j1,
        j1[k],
        now,
    ) == j1[k].state by {
        crate::scheduler::lemma_scan_keeps_finished(jobs, w, now, j1[k]);
        crate::scheduler::lemma_scan_keeps_finished(jobs, w, now, jobs[k]);
        assert(j1[k].arguments == jobs[k].arguments);
        assert(deps_finished(jobs, j1[k]) == deps_finished(jobs, jobs[k]));
    }
    assert(scan_jobs(j1, w, now) =~= j1);
    assert(scan_ready(scan_ready(ready, jobs, w, now), j1, w, now) =~= scan_ready(
        ready,
        jobs,
        w,
        now,
    ));
    assert(scan_delayed(scan_delayed(delayed, jobs, w, now), j1, w, now) =~= scan_delayed(
        delayed,
        jobs,
        w,
        now,
    ));
}

/// Dependencies are conjunctive: a job that references two distinct jobs
/// `a` and `b` is not ready while `b` is unfinished, even with `a`
/// finished; and a job whose only arguments are those two references is
/// ready once both are finished.
pub proof fn lemma_every_dependency_must_finish(
    jobs: Map<JobId, Job>,
    job: Job,
    a: JobId,
    b: JobId,
    now: TimeStamp,
)
    requires
        a != b,
        job.arguments@.contains(Parameter::Reference(a)),
        job.arguments@.contains(Parameter::Reference(b)),
    ensures
        jobs.contains_key(b) && jobs[b].state != JobState::Finished ==> !deps_finished(jobs, job)
            && scanned_state(jobs, job, now) == job.state,
        job.arguments@.len() == 2 && jobs.contains_key(a) && jobs.contains_key(b)
            && jobs[a].state == JobState::Finished && jobs[b].state == JobState::Finished
            ==> deps_finished(jobs, job),
{
    let ib = choose|i: int| 0 <= i < job.arguments@.len() && job.arguments@[i] == Parameter::Reference(b);
    let ia = choose|i: int| 0 <= i < job.arguments@.len() && job.arguments@[i] == Parameter::Reference(a);
    assert(job.arguments@[ib] == Parameter::Reference(b));
    if job.arguments@.len() == 2 && jobs.contains_key(a) && jobs.contains_key(b)
        && jobs[a].state == JobState::Finished && jobs[b].state == JobState::Finished {
        assert forall|i: int| 0 <= i < job.arguments@.len() implies match #[trigger] job.arguments@[i] {
            Parameter::Literal(_) => true,
            Parameter::Reference(r) => jobs.contains_key(r) && jobs[r].state == JobState::Finished,
        } by {
            assert(i == ia || i == ib);
        }
    }
}

} // verus!
