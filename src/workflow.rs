//! Turning a submitted tree of job descriptions into registered jobs and
//! the workflow that lists them.
use vstd::prelude::*;

use crate::scheduler::{Job, JobState, Parameter, SchedulerError, State, Workflow};
use crate::{JobId, Priority, TimeStamp};

verus! {

/// One argument of a submitted job: a literal, or a nested job whose
/// output it takes.
pub enum InputParam {
    Literal(String),
    Job(InputJob),
}

/// A submitted job description.
pub struct InputJob {
    pub job_name: String,
    pub parameters: Vec<InputParam>,
    pub priority: Priority,
    pub delay_until: Option<TimeStamp>,
}

/// The number of job descriptions in the tree rooted at `j`.
pub open spec fn job_count(j: InputJob) -> nat
    decreases j, j.parameters@.len() + 1,
{
    1 + params_count(j, j.parameters@.len() as int)
}

/// The number of job descriptions nested in the first `n` parameters of `j`.
pub open spec fn params_count(j: InputJob, n: int) -> nat
    decreases j, n,
{
    if n <= 0 || n > j.parameters@.len() {
        0
    } else {
        params_count(j, n - 1) + match j.parameters@[n - 1] {
            InputParam::Literal(_) => 0,
            InputParam::Job(c) => job_count(c),
        }
    }
}

/// Counting more parameters never counts fewer jobs.
proof fn lemma_params_count_grows(j: InputJob, n: int, m: int)
    requires
        0 <= n <= m <= j.parameters@.len(),
    ensures
        params_count(j, n) <= params_count(j, m),
    decreases m - n,
{
    if n < m {
        lemma_params_count_grows(j, n, m - 1);
    }
}

/// `jobs` holds, under `id`, the record built from the submitted `input`:
/// same name, priority and due time, `NotStarted`, and one argument per
/// parameter, a literal for a literal and, for a nested job, a reference
/// to a record built from that nested job.
pub open spec fn built(jobs: Map<JobId, Job>, id: JobId, input: InputJob) -> bool
    decreases input,
{
    &&& jobs.contains_key(id)
    &&& jobs[id].job_name@ == input.job_name@
    &&& jobs[id].priority == input.priority
    &&& jobs[id].delay_until == input.delay_until
    &&& jobs[id].state == JobState::NotStarted
    &&& jobs[id].arguments@.len() == input.parameters@.len()
    &&& forall|i: int|
        0 <= i < input.parameters@.len() ==> arg_built(jobs, #[trigger] jobs[id].arguments@[i], input.parameters@[i])
}

/// The argument `a` was built from the parameter `p`.
pub open spec fn arg_built(jobs: Map<JobId, Job>, a: Parameter, p: InputParam) -> bool
    decreases p,
{
    match (a, p) {
        (Parameter::Literal(x), InputParam::Literal(y)) => x@ == y@,
        (Parameter::Reference(k), InputParam::Job(c)) => built(jobs, k, c),
        _ => false,
    }
}

/// What was built stays built while records are only added.
proof fn lemma_built_kept(m1: Map<JobId, Job>, m2: Map<JobId, Job>, id: JobId, input: InputJob)
    requires
        built(m1, id, input),
        forall|k: JobId| #[trigger] m1.contains_key(k) ==> m2.contains_key(k) && m2[k] == m1[k],
    ensures
        built(m2, id, input),
    decreases input,
{
    assert forall|i: int| 0 <= i < input.parameters@.len() implies arg_built(
        m2,
        #[trigger] m2[id].arguments@[i],
        input.parameters@[i],
    ) by {
        assert(arg_built(m1, m1[id].arguments@[i], input.parameters@[i]));
        match (m1[id].arguments@[i], input.parameters@[i]) {
            (Parameter::Reference(k), InputParam::Job(c)) => {
                assert(decreases_to!(input => input.parameters@[i]));
                lemma_built_kept(m1, m2, k, c);
            },
            _ => {},
        }
    }
}

/// Registers `job` and, before it, every job nested in its parameters
/// (depth first), each as a `NotStarted` record under a fresh id: the root
/// takes the next id and its nested jobs the ids after it. Appends each id
/// to `workflow` once registered, the root's last, and returns the root's
/// id. Fails with `IdsExhausted` exactly when fewer fresh ids are left than
/// the tree has jobs.
pub fn build_workflow_from_job(s: &mut State, job: &InputJob, workflow: &mut Workflow) -> (r: Result<
    JobId,
    SchedulerError,
>)
    requires
        old(s).wf(),
    ensures
        final(s).wf(),
        final(s).ready() == old(s).ready(),
        final(s).delayed() == old(s).delayed(),
        final(s).last_id() >= old(s).last_id(),
        forall|k: JobId| #[trigger]
            old(s).jobs().contains_key(k) ==> final(s).jobs().contains_key(k) && final(s).jobs()[k]
                == old(s).jobs()[k],
        forall|k: JobId| #[trigger]
            final(s).jobs().contains_key(k) && !old(s).jobs().contains_key(k) ==> old(s).last_id()
                < k <= final(s).last_id() && final(s).jobs()[k].state == JobState::NotStarted,
        final(workflow).jobs@.len() >= old(workflow).jobs@.len(),
        final(workflow).jobs@.subrange(0, old(workflow).jobs@.len() as int) == old(workflow).jobs@,
        forall|i: int|
            old(workflow).jobs@.len() <= i < final(workflow).jobs@.len() ==> final(s).jobs().contains_key(
                #[trigger] final(workflow).jobs@[i],
            ) && old(s).last_id() < final(workflow).jobs@[i] <= final(s).last_id(),
        final(workflow).jobs@.subrange(
            old(workflow).jobs@.len() as int,
            final(workflow).jobs@.len() as int,
        ).no_duplicates(),
        old(s).last_id() + job_count(*job) <= JobId::MAX ==> r is Ok,
        r is Err ==> r == Err::<JobId, SchedulerError>(SchedulerError::IdsExhausted),
        r matches Ok(id) ==> {
            &&& id == old(s).last_id() + 1
            &&& final(s).last_id() == old(s).last_id() + job_count(*job)
            &&& built(final(s).jobs(), id, *job)
            &&& forall|k: JobId|
                old(s).last_id() < k <= final(s).last_id() ==> #[trigger] final(s).jobs().contains_key(k)
            &&& final(workflow).jobs@.len() == old(workflow).jobs@.len() + job_count(*job)
            &&& final(workflow).jobs@.last() == id
        },
    decreases job,
{
    let id = match s.allocate_id() {
        Ok(id) => id,
        Err(e) => {
            return Err(e);
        },
    };
    let ghost l0 = old(s).last_id();
    let ghost w0 = workflow.jobs@;
    let mut params: Vec<Parameter> = Vec::new();
    let n = job.parameters.len();
    let mut i: usize = 0;
    proof {
        assert(workflow.jobs@.subrange(w0.len() as int, workflow.jobs@.len() as int) =~= Seq::<JobId>::empty());
    }
    while i < n
        invariant
            n == job.parameters@.len(),
            i <= n,
            s.wf(),
            s.ready() == old(s).ready(),
            s.delayed() == old(s).delayed(),
            id == l0 + 1,
            l0 == old(s).last_id(),
            s.last_id() == l0 + 1 + params_count(*job, i as int),
            !s.jobs().contains_key(id),
            forall|k: JobId| #[trigger]
                old(s).jobs().contains_key(k) ==> s.jobs().contains_key(k) && s.jobs()[k]
                    == old(s).jobs()[k],
            forall|k: JobId| #[trigger]
                s.jobs().contains_key(k) && !old(s).jobs().contains_key(k) ==> id < k <= s.last_id()
                    && s.jobs()[k].state == JobState::NotStarted,
            forall|k: JobId| id < k <= s.last_id() ==> #[trigger] s.jobs().contains_key(k),
            w0 == old(workflow).jobs@,
            workflow.jobs@.len() == w0.len() + (s.last_id() - id),
            workflow.jobs@.subrange(0, w0.len() as int) == w0,
            forall|x: int|
                w0.len() <= x < workflow.jobs@.len() ==> s.jobs().contains_key(
                    #[trigger] workflow.jobs@[x],
                ) && id < workflow.jobs@[x] <= s.last_id(),
            workflow.jobs@.subrange(w0.len() as int, workflow.jobs@.len() as int).no_duplicates(),
            params@.len() == i,
            forall|x: int| 0 <= x < i ==> arg_built(s.jobs(), #[trigger] params@[x], job.parameters@[x]),
        decreases n - i,
    {
        match &job.parameters[i] {
            InputParam::Job(child) => {
                proof {
                    assert(decreases_to!(job => job.parameters@[i as int]));
                }
                let ghost sb = s.jobs();
                let ghost lb = s.last_id();
                let ghost wb = workflow.jobs@;
                let res = build_workflow_from_job(s, child, workflow);
                proof {
                    let wn = workflow.jobs@;
                    assert(wn.subrange(0, w0.len() as int) =~= wb.subrange(0, w0.len() as int));
                    assert forall|x: int| w0.len() <= x < wn.len() implies s.jobs().contains_key(
                        #[trigger] wn[x],
                    ) && id < wn[x] <= s.last_id() by {
                        if x < wb.len() {
                            assert(wn.subrange(0, wb.len() as int)[x] == wb[x]);
                            assert(sb.contains_key(wb[x]));
                        }
                    }
                    let tail = wn.subrange(w0.len() as int, wn.len() as int);
                    assert forall|x: int, y: int| 0 <= x < y < tail.len() implies tail[x] != tail[y] by {
                        let ax = w0.len() + x;
                        let ay = w0.len() + y;
                        if ay < wb.len() {
                            assert(wn.subrange(0, wb.len() as int)[ax] == wb[ax]);
                            assert(wn.subrange(0, wb.len() as int)[ay] == wb[ay]);
                            assert(wb.subrange(w0.len() as int, wb.len() as int)[x] == wb[ax]);
                            assert(wb.subrange(w0.len() as int, wb.len() as int)[y] == wb[ay]);
                        } else if ax < wb.len() {
                            assert(wn.subrange(0, wb.len() as int)[ax] == wb[ax]);
                            assert(wb[ax] <= lb);
                            assert(wn.subrange(wb.len() as int, wn.len() as int)[ay - wb.len()] == wn[ay]);
                        } else {
                            assert(wn.subrange(wb.len() as int, wn.len() as int)[ax - wb.len()] == wn[ax]);
                            assert(wn.subrange(wb.len() as int, wn.len() as int)[ay - wb.len()] == wn[ay]);
                        }
                    }
                    assert(tail.no_duplicates());
                    assert forall|k: JobId| #[trigger]
                        s.jobs().contains_key(k) && !old(s).jobs().contains_key(k) implies id < k <= s.last_id()
                        && s.jobs()[k].state == JobState::NotStarted by {
                        if sb.contains_key(k) {
                            assert(s.jobs()[k] == sb[k]);
                        }
                    }
                }
                let c = match res {
                    Ok(c) => c,
                    Err(e) => {
                        proof {
                            lemma_params_count_grows(*job, i + 1, n as int);
                        }
                        return Err(e);
                    },
                };
                proof {
                    assert forall|x: int| 0 <= x < i implies arg_built(s.jobs(), #[trigger] params@[x], job.parameters@[x]) by {
                        assert(arg_built(sb, params@[x], job.parameters@[x]));
                        match (params@[x], job.parameters@[x]) {
                            (Parameter::Reference(k), InputParam::Job(cj)) => {
                                lemma_built_kept(sb, s.jobs(), k, cj);
                            },
                            _ => {},
                        }
                    }
                    assert forall|k: JobId| id < k <= s.last_id() implies #[trigger] s.jobs().contains_key(k) by {
                        if k <= lb {
                            assert(sb.contains_key(k));
                        }
                    }
                }
                params.push(Parameter::Reference(c));
            },
            InputParam::Literal(text) => {
                params.push(Parameter::Literal(text.clone()));
            },
        }
        i = i + 1;
    }
    let record = Job {
        id,
        job_name: job.job_name.clone(),
        arguments: params,
        priority: job.priority,
        state: JobState::NotStarted,
        delay_until: job.delay_until,
    };
    let ghost sr = s.jobs();
    proof {
        assert forall|x: int| 0 <= x < record.arguments@.len() implies match #[trigger] record.arguments@[x] {
            Parameter::Literal(_) => true,
            Parameter::Reference(r) => sr.contains_key(r),
        } by {
            assert(arg_built(sr, params@[x], job.parameters@[x]));
        }
        assert(crate::scheduler::refs_registered(sr, record));
    }
    match s.register_job(record) {
        Ok(_) => {},
        Err(e) => {
            return Err(e);
        },
    }
    let ghost wb = workflow.jobs@;
    workflow.jobs.push(id);
    proof {
        let wn = workflow.jobs@;
        assert(wn.subrange(0, w0.len() as int) =~= wb.subrange(0, w0.len() as int));
        assert(wn.subrange(w0.len() as int, wn.len() as int) =~= wb.subrange(w0.len() as int, wb.len() as int).push(id));
        let tb = wb.subrange(w0.len() as int, wb.len() as int);
        assert forall|x: int| 0 <= x < tb.len() implies tb[x] != id by {
            assert(wb[w0.len() + x] > id);
        }
        assert forall|x: int| 0 <= x < n implies arg_built(s.jobs(), #[trigger] s.jobs()[id].arguments@[x], job.parameters@[x]) by {
            assert(arg_built(sr, params@[x], job.parameters@[x]));
            match (params@[x], job.parameters@[x]) {
                (Parameter::Reference(k), InputParam::Job(cj)) => {
                    lemma_built_kept(sr, s.jobs(), k, cj);
                },
                _ => {},
            }
        }
        assert(built(s.jobs(), id, *job));
    }
    Ok(id)
}

} // verus!
