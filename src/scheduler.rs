//! The job registry: job records, their forward-only lifecycle, and the
//! queues that order the jobs which may run.
use std::collections::HashMap;

use vstd::prelude::*;

use crate::queue::{not_due, pop_result, promoted, promotion_order, DelayedMap, Queue, ReadyMap};
use crate::{JobId, Priority, TimeStamp};

verus! {

broadcast use vstd::std_specs::hash::group_hash_axioms;

/// One argument of a job: a literal, or the output of another job.
pub enum Parameter {
    Literal(String),
    Reference(JobId),
}

/// Lifecycle of a job: `NotStarted`, then `Delayed` (optional), then
/// `Waiting`, then `Finished`.
#[derive(PartialEq, Eq, Structural, Clone, Copy, Debug)]
pub enum JobState {
    NotStarted,
    Delayed,
    Waiting,
    Finished,
}

/// One unit of schedulable work.
pub struct Job {
    pub id: JobId,
    pub job_name: String,
    pub arguments: Vec<Parameter>,
    pub priority: Priority,
    pub state: JobState,
    pub delay_until: Option<TimeStamp>,
}

/// Why a registry or queue operation failed.
#[derive(PartialEq, Eq, Structural, Clone, Copy, Debug)]
pub enum SchedulerError {
    /// The id is already registered.
    DuplicateIdentifier,
    /// The id is not registered.
    JobNotFound,
    /// Neither queue holds anything: there is no work, now or later.
    QueueEmpty,
    /// No fresh id is left to allocate.
    IdsExhausted,
}

/// `j` with its lifecycle state replaced by `s`.
pub open spec fn with_state(j: Job, s: JobState) -> Job {
    Job { state: s, ..j }
}

/// Every job that `job` references is registered and finished.
pub open spec fn deps_finished(jobs: Map<JobId, Job>, job: Job) -> bool {
    forall|i: int|
        0 <= i < job.arguments@.len() ==> match #[trigger] job.arguments@[i] {
            Parameter::Literal(_) => true,
            Parameter::Reference(r) => jobs.contains_key(r) && jobs[r].state == JobState::Finished,
        }
}

/// Every job that `job` references is registered.
pub open spec fn refs_registered(jobs: Map<JobId, Job>, job: Job) -> bool {
    forall|i: int|
        0 <= i < job.arguments@.len() ==> match #[trigger] job.arguments@[i] {
            Parameter::Literal(_) => true,
            Parameter::Reference(r) => jobs.contains_key(r),
        }
}

/// The job must not run before a due time that is later than `now`.
pub open spec fn due_later(job: Job, now: TimeStamp) -> bool {
    match job.delay_until {
        Some(d) => d > now,
        None => false,
    }
}

/// The state a job takes when a readiness scan at `now` considers it.
pub open spec fn scanned_state(jobs: Map<JobId, Job>, job: Job, now: TimeStamp) -> JobState {
    if job.state == JobState::NotStarted && deps_finished(jobs, job) {
        if due_later(job, now) {
            JobState::Delayed
        } else {
            JobState::Waiting
        }
    } else {
        job.state
    }
}

/// A scan at `now` over the ids `w` moves job `id` from `NotStarted` to `s`.
pub open spec fn scan_moves(
    jobs: Map<JobId, Job>,
    w: Set<JobId>,
    now: TimeStamp,
    id: JobId,
    s: JobState,
) -> bool {
    &&& w.contains(id)
    &&& jobs.contains_key(id)
    &&& jobs[id].state == JobState::NotStarted
    &&& scanned_state(jobs, jobs[id], now) == s
}

/// The job records after a scan at `now` over the ids `w`.
pub open spec fn scan_jobs(jobs: Map<JobId, Job>, w: Set<JobId>, now: TimeStamp) -> Map<JobId, Job> {
    Map::new(
        |k: JobId| jobs.contains_key(k),
        |k: JobId|
            if w.contains(k) {
                with_state(jobs[k], scanned_state(jobs, jobs[k], now))
            } else {
                jobs[k]
            },
    )
}

/// The ready entries after a scan: each activated job enqueued at `now`.
pub open spec fn scan_ready(ready: ReadyMap, jobs: Map<JobId, Job>, w: Set<JobId>, now: TimeStamp) -> ReadyMap {
    Map::new(
        |id: JobId| ready.contains_key(id) || scan_moves(jobs, w, now, id, JobState::Waiting),
        |id: JobId|
            if scan_moves(jobs, w, now, id, JobState::Waiting) {
                (jobs[id].priority, now)
            } else {
                ready[id]
            },
    )
}

/// The delayed entries after a scan: each delayed job keyed by its priority
/// and id, due at its own due time.
pub open spec fn scan_delayed(delayed: DelayedMap, jobs: Map<JobId, Job>, w: Set<JobId>, now: TimeStamp) -> DelayedMap {
    Map::new(
        |k: (Priority, JobId)|
            delayed.contains_key(k) || (scan_moves(jobs, w, now, k.1, JobState::Delayed) && k.0
                == jobs[k.1].priority),
        |k: (Priority, JobId)|
            if scan_moves(jobs, w, now, k.1, JobState::Delayed) && k.0 == jobs[k.1].priority {
                jobs[k.1].delay_until.unwrap()
            } else {
                delayed[k]
            },
    )
}

/// Some delayed entry of job `id` is due at `now`.
pub open spec fn has_due_entry(delayed: DelayedMap, id: JobId, now: TimeStamp) -> bool {
    exists|p: Priority| #[trigger] delayed.contains_key((p, id)) && delayed[(p, id)] <= now
}

/// The job records after promotion at `now`: each delayed job with a due
/// entry becomes `Waiting`.
pub open spec fn promote_jobs(jobs: Map<JobId, Job>, delayed: DelayedMap, now: TimeStamp) -> Map<JobId, Job> {
    Map::new(
        |k: JobId| jobs.contains_key(k),
        |k: JobId|
            if has_due_entry(delayed, k, now) && jobs[k].state == JobState::Delayed {
                with_state(jobs[k], JobState::Waiting)
            } else {
                jobs[k]
            },
    )
}

/// Only registered jobs that have left `NotStarted` are queued; a job has
/// at most one delayed entry, keyed by its own priority; and a job with a
/// delayed entry has no ready entry.
pub open spec fn queue_links(jobs: Map<JobId, Job>, ready: ReadyMap, delayed: DelayedMap) -> bool {
    &&& forall|id: JobId| #[trigger]
        ready.contains_key(id) ==> jobs.contains_key(id) && jobs[id].state != JobState::NotStarted
    &&& forall|k: (Priority, JobId)| #[trigger]
        delayed.contains_key(k) ==> {
            &&& jobs.contains_key(k.1)
            &&& jobs[k.1].state != JobState::NotStarted
            &&& k.0 == jobs[k.1].priority
            &&& !ready.contains_key(k.1)
        }
}

/// The queue links survive a change that touches the record and the queue
/// entries of the job `id` alone, keeps every priority, and moves no other
/// job's state.
proof fn lemma_links_one_job(
    jobs0: Map<JobId, Job>,
    r0: ReadyMap,
    d0: DelayedMap,
    jobs: Map<JobId, Job>,
    r: ReadyMap,
    d: DelayedMap,
    id: JobId,
)
    requires
        queue_links(jobs0, r0, d0),
        forall|k: JobId| #[trigger]
            jobs0.contains_key(k) ==> jobs.contains_key(k) && jobs[k].priority == jobs0[k].priority,
        forall|k: JobId| #[trigger] jobs0.contains_key(k) && k != id ==> jobs[k].state == jobs0[k].state,
        forall|x: JobId| #[trigger] r.contains_key(x) ==> r0.contains_key(x) || x == id,
        forall|k: (Priority, JobId)| #[trigger] d.contains_key(k) ==> d0.contains_key(k) || k.1 == id,
        r.contains_key(id) ==> jobs.contains_key(id) && jobs[id].state != JobState::NotStarted,
        forall|p: Priority| #[trigger]
            d.contains_key((p, id)) ==> jobs.contains_key(id) && jobs[id].state != JobState::NotStarted
                && p == jobs[id].priority && !r.contains_key(id),
    ensures
        queue_links(jobs, r, d),
{
    assert forall|k: (Priority, JobId)| #[trigger] d.contains_key(k) implies {
        &&& jobs.contains_key(k.1)
        &&& jobs[k.1].state != JobState::NotStarted
        &&& k.0 == jobs[k.1].priority
        &&& !r.contains_key(k.1)
    } by {
        if k.1 == id {
            assert(d.contains_key((k.0, id)));
        } else {
            assert(d0.contains_key(k));
        }
    }
    assert forall|x: JobId| #[trigger] r.contains_key(x) implies jobs.contains_key(x)
        && jobs[x].state != JobState::NotStarted by {
        if x != id {
            assert(r0.contains_key(x));
        }
    }
}

/// The registry and its queues.
pub struct State {
    jobs: HashMap<JobId, Job>,
    queue: Queue,
    last_id: JobId,
}

impl State {
    /// The registered jobs by id.
    pub closed spec fn jobs(&self) -> Map<JobId, Job> {
        self.jobs@
    }

    /// The ready queue's entries.
    pub closed spec fn ready(&self) -> ReadyMap {
        self.queue.ready()
    }

    /// The delayed queue's entries.
    pub closed spec fn delayed(&self) -> DelayedMap {
        self.queue.delayed()
    }

    /// The greatest id ever registered or allocated (0 at first).
    pub closed spec fn last_id(&self) -> JobId {
        self.last_id
    }

    /// The queues hold finitely many entries; every record sits under its
    /// own id, no greater than `last_id`; every reference names a
    /// registered job; and the queues are linked to the records as
    /// `queue_links` says.
    pub open spec fn wf(&self) -> bool {
        &&& self.ready().dom().finite()
        &&& self.delayed().dom().finite()
        &&& forall|k: JobId| #[trigger]
            self.jobs().contains_key(k) ==> self.jobs()[k].id == k && k <= self.last_id()
                && refs_registered(self.jobs(), self.jobs()[k])
        &&& queue_links(self.jobs(), self.ready(), self.delayed())
    }

    /// An empty registry with empty queues.
    pub fn new() -> (r: State)
        ensures
            r.wf(),
            r.jobs() == Map::<JobId, Job>::empty(),
            r.ready() == ReadyMap::empty(),
            r.delayed() == DelayedMap::empty(),
            r.last_id() == 0,
    {
        State { jobs: HashMap::new(), queue: Queue::new(), last_id: 0 }
    }

    /// The record of `id`, if registered.
    pub fn get_job(&self, id: JobId) -> (r: Option<&Job>)
        ensures
            match r {
                Some(j) => self.jobs().contains_key(id) && *j == self.jobs()[id],
                None => !self.jobs().contains_key(id),
            },
    {
        self.jobs.get(&id)
    }

    /// Registers `job` as `NotStarted` under its own id. Fails with
    /// `DuplicateIdentifier` when the id is taken, else with `JobNotFound`
    /// when an argument references an unregistered job.
    pub fn register_job(&mut self, job: Job) -> (r: Result<JobId, SchedulerError>)
        requires
            old(self).wf(),
        ensures
            final(self).wf(),
            final(self).ready() == old(self).ready(),
            final(self).delayed() == old(self).delayed(),
            old(self).jobs().contains_key(job.id) ==> r == Err::<JobId, SchedulerError>(
                SchedulerError::DuplicateIdentifier,
            ),
            !old(self).jobs().contains_key(job.id) && !refs_registered(old(self).jobs(), job) ==> r
                == Err::<JobId, SchedulerError>(SchedulerError::JobNotFound),
            r is Err ==> final(self).jobs() == old(self).jobs() && final(self).last_id() == old(
                self,
            ).last_id(),
            !old(self).jobs().contains_key(job.id) && refs_registered(old(self).jobs(), job) ==> {
                &&& r == Ok::<JobId, SchedulerError>(job.id)
                &&& final(self).jobs() == old(self).jobs().insert(
                    job.id,
                    with_state(job, JobState::NotStarted),
                )
                &&& final(self).last_id() == if job.id > old(self).last_id() {
                    job.id
                } else {
                    old(self).last_id()
                }
            },
    {
        if self.jobs.contains_key(&job.id) {
            return Err(SchedulerError::DuplicateIdentifier);
        }
        if !self.refs_exist(&job) {
            return Err(SchedulerError::JobNotFound);
        }
        let id = job.id;
        let mut job = job;
        job.state = JobState::NotStarted;
        if id > self.last_id {
            self.last_id = id;
        }
        let ghost j0 = self.jobs@;
        self.jobs.insert(id, job);
        proof {
            lemma_links_one_job(
                old(self).jobs(),
                old(self).ready(),
                old(self).delayed(),
                self.jobs(),
                self.ready(),
                self.delayed(),
                id,
            );
            assert forall|k: JobId| #[trigger] self.jobs().contains_key(k) implies refs_registered(
                self.jobs(),
                self.jobs()[k],
            ) by {
                let jk = self.jobs()[k];
                assert forall|i: int| 0 <= i < jk.arguments@.len() implies match #[trigger] jk.arguments@[i] {
                    Parameter::Literal(_) => true,
                    Parameter::Reference(r) => self.jobs().contains_key(r),
                } by {
                    if k != id {
                        assert(refs_registered(j0, j0[k]));
                    }
                }
            }
        }
        Ok(id)
    }

    /// True iff every job that `job` references is registered.
    fn refs_exist(&self, job: &Job) -> (r: bool)
        ensures
            r == refs_registered(self.jobs(), *job),
    {
        let n = job.arguments.len();
        let mut i: usize = 0;
        while i < n
            invariant
                n == job.arguments@.len(),
                i <= n,
                forall|j: int| 0 <= j < i ==> match #[trigger] job.arguments@[j] {
                    Parameter::Literal(_) => true,
                    Parameter::Reference(r) => self.jobs().contains_key(r),
                },
            decreases n - i,
        {
            match &job.arguments[i] {
                Parameter::Literal(_) => {},
                Parameter::Reference(r) => {
                    if !self.jobs.contains_key(r) {
                        return false;
                    }
                },
            }
            i = i + 1;
        }
        true
    }

    /// True iff every job that `job` references is registered and finished.
    fn deps_done(&self, job: &Job) -> (r: bool)
        ensures
            r == deps_finished(self.jobs(), *job),
    {
        let n = job.arguments.len();
        let mut i: usize = 0;
        while i < n
            invariant
                n == job.arguments@.len(),
                i <= n,
                forall|j: int| 0 <= j < i ==> match #[trigger] job.arguments@[j] {
                    Parameter::Literal(_) => true,
                    Parameter::Reference(r) => self.jobs().contains_key(r) && self.jobs()[r].state
                        == JobState::Finished,
                },
            decreases n - i,
        {
            match &job.arguments[i] {
                Parameter::Literal(_) => {},
                Parameter::Reference(r) => {
                    match self.jobs.get(r) {
                        Some(dep) => {
                            if dep.state != JobState::Finished {
                                return false;
                            }
                        },
                        None => {
                            return false;
                        },
                    }
                },
            }
            i = i + 1;
        }
        true
    }

    /// Sets the state of a registered job, leaving the rest of its record.
    fn set_state(&mut self, id: JobId, s: JobState)
        requires
            old(self).jobs().contains_key(id),
        ensures
            final(self).jobs() == old(self).jobs().insert(id, with_state(old(self).jobs()[id], s)),
            final(self).queue == old(self).queue,
            final(self).last_id == old(self).last_id,
    {
        match self.jobs.remove(&id) {
            Some(mut job) => {
                job.state = s;
                self.jobs.insert(id, job);
            },
            None => {},
        }
    }

    /// Activates `id`: it becomes `Waiting` and enters the ready queue with
    /// its priority, enqueued at `now`.
    fn add_job_from_id(&mut self, id: JobId, now: TimeStamp) -> (r: Result<(), SchedulerError>)
        requires
            old(self).wf(),
            old(self).jobs().contains_key(id) ==> old(self).jobs()[id].state == JobState::NotStarted,
        ensures
            final(self).wf(),
            final(self).last_id() == old(self).last_id(),
            !old(self).jobs().contains_key(id) ==> r == Err::<(), SchedulerError>(
                SchedulerError::JobNotFound,
            ) && final(self).jobs() == old(self).jobs() && final(self).ready() == old(self).ready()
                && final(self).delayed() == old(self).delayed(),
            old(self).jobs().contains_key(id) ==> {
                &&& r is Ok
                &&& final(self).jobs() == old(self).jobs().insert(
                    id,
                    with_state(old(self).jobs()[id], JobState::Waiting),
                )
                &&& final(self).ready() == old(self).ready().insert(
                    id,
                    (old(self).jobs()[id].priority, now),
                )
                &&& final(self).delayed() == old(self).delayed()
            },
    {
        let priority = match self.jobs.get(&id) {
            Some(job) => job.priority,
            None => {
                return Err(SchedulerError::JobNotFound);
            },
        };
        self.set_state(id, JobState::Waiting);
        let _ = self.queue.add_job(id, priority, now);
        proof {
            assert(self.jobs().dom() =~= old(self).jobs().dom());
            self.lemma_refs_kept(old(self).jobs());
            lemma_links_one_job(
                old(self).jobs(),
                old(self).ready(),
                old(self).delayed(),
                self.jobs(),
                self.ready(),
                self.delayed(),
                id,
            );
        }
        Ok(())
    }

    /// Delays `id` until `execute_at`: it becomes `Delayed` and enters the
    /// delayed queue keyed by its priority and id.
    fn delay_job_from_id(&mut self, id: JobId, execute_at: TimeStamp) -> (r: Result<(), SchedulerError>)
        requires
            old(self).wf(),
            old(self).jobs().contains_key(id) ==> old(self).jobs()[id].state == JobState::NotStarted,
        ensures
            final(self).wf(),
            final(self).last_id() == old(self).last_id(),
            !old(self).jobs().contains_key(id) ==> r == Err::<(), SchedulerError>(
                SchedulerError::JobNotFound,
            ) && final(self).jobs() == old(self).jobs() && final(self).ready() == old(self).ready()
                && final(self).delayed() == old(self).delayed(),
            old(self).jobs().contains_key(id) ==> {
                &&& r is Ok
                &&& final(self).jobs() == old(self).jobs().insert(
                    id,
                    with_state(old(self).jobs()[id], JobState::Delayed),
                )
                &&& final(self).ready() == old(self).ready()
                &&& final(self).delayed() == old(self).delayed().insert(
                    (old(self).jobs()[id].priority, id),
                    execute_at,
                )
            },
    {
        let priority = match self.jobs.get(&id) {
            Some(job) => job.priority,
            None => {
                return Err(SchedulerError::JobNotFound);
            },
        };
        self.set_state(id, JobState::Delayed);
        let _ = self.queue.delay_job(id, priority, execute_at);
        proof {
            assert(self.jobs().dom() =~= old(self).jobs().dom());
            self.lemma_refs_kept(old(self).jobs());
            lemma_links_one_job(
                old(self).jobs(),
                old(self).ready(),
                old(self).delayed(),
                self.jobs(),
                self.ready(),
                self.delayed(),
                id,
            );
        }
        Ok(())
    }

    /// Marks `id` as `Finished`.
    pub fn finish_job(&mut self, id: JobId) -> (r: Result<(), SchedulerError>)
        requires
            old(self).wf(),
        ensures
            final(self).wf(),
            final(self).last_id() == old(self).last_id(),
            final(self).ready() == old(self).ready(),
            final(self).delayed() == old(self).delayed(),
            !old(self).jobs().contains_key(id) ==> r == Err::<(), SchedulerError>(
                SchedulerError::JobNotFound,
            ) && final(self).jobs() == old(self).jobs(),
            old(self).jobs().contains_key(id) ==> r is Ok && final(self).jobs() == old(
                self,
            ).jobs().insert(id, with_state(old(self).jobs()[id], JobState::Finished)),
    {
        if !self.jobs.contains_key(&id) {
            return Err(SchedulerError::JobNotFound);
        }
        self.set_state(id, JobState::Finished);
        proof {
            assert(self.jobs().dom() =~= old(self).jobs().dom());
            self.lemma_refs_kept(old(self).jobs());
            lemma_links_one_job(
                old(self).jobs(),
                old(self).ready(),
                old(self).delayed(),
                self.jobs(),
                self.ready(),
                self.delayed(),
                id,
            );
        }
        Ok(())
    }

    /// Hands out the next job to run at `now`. With both queues empty it
    /// fails with `QueueEmpty`. Otherwise it first promotes every delayed
    /// entry that is due (those jobs become `Waiting`), then takes the first
    /// ready entry, or `None` when nothing is ready yet.
    pub fn pop(&mut self, now: TimeStamp) -> (r: Result<Option<JobId>, SchedulerError>)
        requires
            old(self).wf(),
        ensures
            final(self).wf(),
            final(self).last_id() == old(self).last_id(),
            old(self).ready() == ReadyMap::empty() && old(self).delayed() == DelayedMap::empty() ==> {
                &&& r == Err::<Option<JobId>, SchedulerError>(SchedulerError::QueueEmpty)
                &&& final(self).jobs() == old(self).jobs()
                &&& final(self).ready() == old(self).ready()
                &&& final(self).delayed() == old(self).delayed()
            },
            !(old(self).ready() == ReadyMap::empty() && old(self).delayed() == DelayedMap::empty())
                ==> {
                &&& r is Ok
                &&& final(self).jobs() == promote_jobs(old(self).jobs(), old(self).delayed(), now)
                &&& final(self).delayed() == not_due(old(self).delayed(), now)
                &&& forall|k: (Priority, JobId)| #[trigger]
                    old(self).delayed().contains_key(k) && old(self).delayed()[k] <= now ==> {
                        &&& !final(self).delayed().contains_key(k)
                        &&& old(self).jobs()[k.1].state == JobState::Delayed
                            ==> final(self).jobs()[k.1].state == JobState::Waiting
                    }
                &&& forall|k: (Priority, JobId)| #[trigger]
                    old(self).delayed().contains_key(k) && old(self).delayed()[k] > now ==> {
                        &&& final(self).delayed().contains_key(k)
                        &&& final(self).jobs()[k.1] == old(self).jobs()[k.1]
                        &&& r != Ok::<Option<JobId>, SchedulerError>(Some(k.1))
                    }
                &&& exists|ks: Seq<(Priority, JobId)>|
                    {
                        &&& #[trigger] promotion_order(old(self).delayed(), now, ks)
                        &&& pop_result(
                            promoted(old(self).ready(), ks, now),
                            r.unwrap(),
                            final(self).ready(),
                        )
                    }
            },
    {
        if self.queue.is_empty() {
            return Err(SchedulerError::QueueEmpty);
        }
        let ghost j0 = self.jobs@;
        let ghost d0 = self.delayed();
        let ghost r0 = self.ready();
        let ids = self.queue.enqueue_from_delayed(now);
        let ghost ks = choose|ks: Seq<(Priority, JobId)>|
            {
                &&& #[trigger] promotion_order(d0, now, ks)
                &&& ids@ == ks.map_values(|k: (Priority, JobId)| k.1)
                &&& self.ready() == promoted(r0, ks, now)
            };
        let n = ids.len();
        let mut i: usize = 0;
        while i < n
            invariant
                n == ids@.len(),
                i <= n,
                self.queue.wf(),
                self.last_id() == old(self).last_id(),
                self.ready() == promoted(r0, ks, now),
                self.delayed() == not_due(d0, now),
                forall|id: JobId| #[trigger] ids@.contains(id) <==> has_due_entry(d0, id, now),
                forall|id: JobId| #[trigger] self.ready().contains_key(id) ==> r0.contains_key(id) || ids@.contains(id),
                self.jobs() == Map::new(
                    |k: JobId| j0.contains_key(k),
                    |k: JobId|
                        if ids@.subrange(0, i as int).contains(k) && j0[k].state == JobState::Delayed {
                            with_state(j0[k], JobState::Waiting)
                        } else {
                            j0[k]
                        },
                ),
            decreases n - i,
        {
            let id = ids[i];
            let waiting = match self.jobs.get(&id) {
                Some(job) => job.state == JobState::Delayed,
                None => false,
            };
            if waiting {
                self.set_state(id, JobState::Waiting);
            }
            proof {
                let pre = ids@.subrange(0, i as int);
                let post = ids@.subrange(0, i + 1);
                assert forall|k: JobId| post.contains(k) <==> pre.contains(k) || k == id by {
                    if pre.contains(k) {
                        let j = choose|j: int| 0 <= j < pre.len() && pre[j] == k;
                        assert(post[j] == k);
                    }
                    if k == id {
                        assert(post[i as int] == k);
                    }
                    if post.contains(k) && k != id {
                        let j = choose|j: int| 0 <= j < post.len() && post[j] == k;
                        assert(pre[j] == k);
                    }
                }
            }
            i = i + 1;
            proof {
                assert(self.jobs() =~= Map::new(
                    |k: JobId| j0.contains_key(k),
                    |k: JobId|
                        if ids@.subrange(0, i as int).contains(k) && j0[k].state == JobState::Delayed {
                            with_state(j0[k], JobState::Waiting)
                        } else {
                            j0[k]
                        },
                ));
            }
        }
        proof {
            assert(ids@.subrange(0, n as int) =~= ids@);
            assert(self.jobs() =~= promote_jobs(j0, d0, now));
            assert forall|k: JobId| #[trigger] self.jobs().contains_key(k) implies refs_registered(
                self.jobs(),
                self.jobs()[k],
            ) by {
                let jk = self.jobs()[k];
                assert(refs_registered(j0, j0[k]));
                assert forall|x: int| 0 <= x < jk.arguments@.len() implies match #[trigger] jk.arguments@[x] {
                    Parameter::Literal(_) => true,
                    Parameter::Reference(r) => self.jobs().contains_key(r),
                } by {
                    assert(j0[k].arguments@[x] == jk.arguments@[x]);
                }
            }
            assert forall|x: JobId| #[trigger] self.ready().contains_key(x) implies self.jobs().contains_key(x)
                && self.jobs()[x].state != JobState::NotStarted by {
                if !r0.contains_key(x) {
                    assert(has_due_entry(d0, x, now));
                    let p = choose|p: Priority| #[trigger] d0.contains_key((p, x)) && d0[(p, x)] <= now;
                    assert(d0.contains_key((p, x)));
                }
            }
            assert forall|k: (Priority, JobId)| #[trigger] self.delayed().contains_key(k) implies self.jobs().contains_key(k.1)
                && self.jobs()[k.1].state != JobState::NotStarted by {
                assert(d0.contains_key(k));
            }
        }
        let ghost mid = self.ready();
        let popped = self.queue.pop();
        proof {
            assert forall|x: JobId| #[trigger] self.ready().contains_key(x) implies self.jobs().contains_key(x)
                && self.jobs()[x].state != JobState::NotStarted by {
                assert(mid.contains_key(x));
            }
            assert(promotion_order(d0, now, ks));
            assert forall|k: (Priority, JobId)| #[trigger]
                d0.contains_key(k) && d0[k] <= now implies old(self).jobs()[k.1].state == JobState::Delayed
                ==> self.jobs()[k.1].state == JobState::Waiting by {
                assert(has_due_entry(d0, k.1, now));
            }
            assert forall|k: (Priority, JobId)| #[trigger]
                d0.contains_key(k) && d0[k] > now implies self.jobs()[k.1] == j0[k.1] && popped != Some(k.1) by {
                if has_due_entry(d0, k.1, now) {
                    let p = choose|p: Priority| #[trigger] d0.contains_key((p, k.1)) && d0[(p, k.1)] <= now;
                    assert(d0.contains_key((p, k.1)));
                    assert(p == k.0);
                }
                assert(!r0.contains_key(k.1));
                assert(!ids@.contains(k.1));
                assert(!mid.contains_key(k.1));
            }
        }
        Ok(popped)
    }

    /// Allocates a fresh id, one past the greatest ever seen; fails with
    /// `IdsExhausted` when that would overflow.
    pub fn allocate_id(&mut self) -> (r: Result<JobId, SchedulerError>)
        requires
            old(self).wf(),
        ensures
            final(self).wf(),
            final(self).jobs() == old(self).jobs(),
            final(self).ready() == old(self).ready(),
            final(self).delayed() == old(self).delayed(),
            old(self).last_id() == JobId::MAX ==> r == Err::<JobId, SchedulerError>(
                SchedulerError::IdsExhausted,
            ) && final(self).last_id() == old(self).last_id(),
            old(self).last_id() < JobId::MAX ==> r == Ok::<JobId, SchedulerError>(
                (old(self).last_id() + 1) as JobId,
            ) && final(self).last_id() == old(self).last_id() + 1,
            r matches Ok(id) ==> !old(self).jobs().contains_key(id),
    {
        if self.last_id == JobId::MAX {
            return Err(SchedulerError::IdsExhausted);
        }
        self.last_id = self.last_id + 1;
        assert(self.jobs() == old(self).jobs());
        assert(self.ready() == old(self).ready());
        assert(self.delayed() == old(self).delayed());
        assert(self.wf());
        Ok(self.last_id)
    }

    /// Changing only the lifecycle states of records keeps every reference
    /// registered.
    proof fn lemma_refs_kept(&self, before: Map<JobId, Job>)
        requires
            self.jobs().dom() == before.dom(),
            forall|k: JobId| #[trigger]
                before.contains_key(k) ==> refs_registered(before, before[k]) && self.jobs()[k].arguments
                    == before[k].arguments,
        ensures
            forall|k: JobId| #[trigger]
                self.jobs().contains_key(k) ==> refs_registered(self.jobs(), self.jobs()[k]),
    {
        assert forall|k: JobId| #[trigger] self.jobs().contains_key(k) implies refs_registered(
            self.jobs(),
            self.jobs()[k],
        ) by {
            assert(before.contains_key(k));
            let jk = self.jobs()[k];
            assert forall|i: int| 0 <= i < jk.arguments@.len() implies match #[trigger] jk.arguments@[i] {
                Parameter::Literal(_) => true,
                Parameter::Reference(r) => self.jobs().contains_key(r),
            } by {
                assert(refs_registered(before, before[k]));
                assert(before[k].arguments@[i] == jk.arguments@[i]);
            }
        }
    }
}

/// A scan never moves a job into or out of `Finished`.
pub proof fn lemma_scan_keeps_finished(j0: Map<JobId, Job>, w: Set<JobId>, now: TimeStamp, job: Job)
    ensures
        deps_finished(scan_jobs(j0, w, now), job) == deps_finished(j0, job),
{
    let cur = scan_jobs(j0, w, now);
    if deps_finished(j0, job) {
        assert forall|i: int| 0 <= i < job.arguments@.len() implies match #[trigger] job.arguments@[i] {
            Parameter::Literal(_) => true,
            Parameter::Reference(r) => cur.contains_key(r) && cur[r].state == JobState::Finished,
        } by {}
    }
    if deps_finished(cur, job) {
        assert forall|i: int| 0 <= i < job.arguments@.len() implies match #[trigger] job.arguments@[i] {
            Parameter::Literal(_) => true,
            Parameter::Reference(r) => j0.contains_key(r) && j0[r].state == JobState::Finished,
        } by {
            match job.arguments@[i] {
                Parameter::Literal(_) => {},
                Parameter::Reference(r) => {
                    assert(cur.contains_key(r) && cur[r].state == JobState::Finished);
                },
            }
        }
    }
}

/// The ids of the jobs of one submission.
pub struct Workflow {
    pub jobs: Vec<JobId>,
}

impl Workflow {
    /// A workflow with no jobs.
    pub fn new() -> (r: Workflow)
        ensures
            r.jobs@ == Seq::<JobId>::empty(),
    {
        Workflow { jobs: Vec::new() }
    }

    /// The readiness scan at `now`: each job of the workflow that is
    /// `NotStarted` and whose references are all `Finished` is activated,
    /// or delayed when its due time is later than `now`. Other jobs are
    /// left as they are.
    pub fn queue_queuable(&self, state: &mut State, now: TimeStamp)
        requires
            old(state).wf(),
            forall|i: int| 0 <= i < self.jobs@.len() ==> old(state).jobs().contains_key(#[trigger] self.jobs@[i]),
        ensures
            final(state).wf(),
            final(state).last_id() == old(state).last_id(),
            final(state).jobs() == scan_jobs(old(state).jobs(), self.jobs@.to_set(), now),
            final(state).ready() == scan_ready(
                old(state).ready(),
                old(state).jobs(),
                self.jobs@.to_set(),
                now,
            ),
            final(state).delayed() == scan_delayed(
                old(state).delayed(),
                old(state).jobs(),
                self.jobs@.to_set(),
                now,
            ),
    {
        let ghost j0 = state.jobs();
        let ghost r0 = state.ready();
        let ghost d0 = state.delayed();
        let n = self.jobs.len();
        let mut i: usize = 0;
        while i < n
            invariant
                n == self.jobs@.len(),
                i <= n,
                forall|x: int| 0 <= x < self.jobs@.len() ==> j0.contains_key(#[trigger] self.jobs@[x]),
                state.wf(),
                state.last_id() == old(state).last_id(),
                j0 == old(state).jobs(),
                r0 == old(state).ready(),
                d0 == old(state).delayed(),
                forall|id: JobId| #[trigger] r0.contains_key(id) ==> j0.contains_key(id) && j0[id].state != JobState::NotStarted,
                forall|k: (Priority, JobId)| #[trigger] d0.contains_key(k) ==> j0.contains_key(k.1) && j0[k.1].state != JobState::NotStarted,
                state.jobs() == scan_jobs(j0, self.jobs@.subrange(0, i as int).to_set(), now),
                state.ready() == scan_ready(r0, j0, self.jobs@.subrange(0, i as int).to_set(), now),
                state.delayed() == scan_delayed(d0, j0, self.jobs@.subrange(0, i as int).to_set(), now),
            decreases n - i,
        {
            let id = self.jobs[i];
            let ghost w = self.jobs@.subrange(0, i as int).to_set();
            let ghost w2 = self.jobs@.subrange(0, i + 1).to_set();
            proof {
                assert(self.jobs@.subrange(0, i + 1) =~= self.jobs@.subrange(0, i as int).push(id));
                assert(w2 =~= w.insert(id)) by {
                    self.jobs@.subrange(0, i as int).lemma_push_to_set_commute(id);
                }
                assert(j0.contains_key(self.jobs@[i as int]));
                lemma_scan_keeps_finished(j0, w, now, j0[id]);
            }
            let (go, due) = match state.jobs.get(&id) {
                Some(job) => (job.state == JobState::NotStarted && state.deps_done(job), job.delay_until),
                None => (false, None),
            };
            if go {
                match due {
                    Some(d) => {
                        if d > now {
                            let _ = state.delay_job_from_id(id, d);
                        } else {
                            let _ = state.add_job_from_id(id, now);
                        }
                    },
                    None => {
                        let _ = state.add_job_from_id(id, now);
                    },
                }
            }
            proof {
                assert(state.jobs() =~= scan_jobs(j0, w2, now));
                assert(state.ready() =~= scan_ready(r0, j0, w2, now));
                assert(state.delayed() =~= scan_delayed(d0, j0, w2, now));
            }
            i = i + 1;
        }
        proof {
            assert(self.jobs@.subrange(0, n as int) =~= self.jobs@);
        }
    }
}

} // verus!
