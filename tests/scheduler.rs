use job_scheduler::scheduler::{Job, JobState, Parameter, SchedulerError, State, Workflow};
use job_scheduler::workflow::{build_workflow_from_job, InputJob, InputParam};

fn job(id: u128, priority: u8, arguments: Vec<Parameter>, delay_until: Option<u64>) -> Job {
    Job {
        id,
        job_name: format!("job{id}"),
        arguments,
        priority,
        state: JobState::NotStarted,
        delay_until,
    }
}

fn state_of(s: &State, id: u128) -> JobState {
    s.get_job(id).unwrap().state
}

#[test]
fn free_job_activates_on_first_scan() {
    let mut s = State::new();
    assert_eq!(s.register_job(job(1, 3, vec![], None)), Ok(1));
    assert_eq!(state_of(&s, 1), JobState::NotStarted);
    let w = Workflow { jobs: vec![1] };
    w.queue_queuable(&mut s, 100);
    assert_eq!(state_of(&s, 1), JobState::Waiting);
    assert_eq!(s.pop(100), Ok(Some(1)));
}

#[test]
fn future_job_is_delayed_until_due() {
    let mut s = State::new();
    s.register_job(job(1, 3, vec![], Some(150))).unwrap();
    let w = Workflow { jobs: vec![1] };
    w.queue_queuable(&mut s, 100);
    assert_eq!(state_of(&s, 1), JobState::Delayed);
    assert_eq!(s.pop(149), Ok(None));
    assert_eq!(state_of(&s, 1), JobState::Delayed);
    assert_eq!(s.pop(150), Ok(Some(1)));
    assert_eq!(state_of(&s, 1), JobState::Waiting);
}

#[test]
fn past_due_time_activates_at_once() {
    let mut s = State::new();
    s.register_job(job(1, 3, vec![], Some(100))).unwrap();
    let w = Workflow { jobs: vec![1] };
    w.queue_queuable(&mut s, 100);
    assert_eq!(state_of(&s, 1), JobState::Waiting);
}

#[test]
fn pop_reports_queue_empty_only_without_any_work() {
    let mut s = State::new();
    assert_eq!(s.pop(0), Err(SchedulerError::QueueEmpty));
    s.register_job(job(1, 3, vec![], Some(50))).unwrap();
    let w = Workflow { jobs: vec![1] };
    w.queue_queuable(&mut s, 0);
    assert_eq!(s.pop(10), Ok(None));
    assert_eq!(s.pop(50), Ok(Some(1)));
    assert_eq!(s.pop(60), Err(SchedulerError::QueueEmpty));
}

#[test]
fn second_scan_changes_nothing() {
    let mut s = State::new();
    s.register_job(job(1, 1, vec![], None)).unwrap();
    s.register_job(job(2, 1, vec![Parameter::Reference(1)], None)).unwrap();
    let w = Workflow { jobs: vec![1, 2] };
    w.queue_queuable(&mut s, 5);
    w.queue_queuable(&mut s, 5);
    assert_eq!(state_of(&s, 1), JobState::Waiting);
    assert_eq!(state_of(&s, 2), JobState::NotStarted);
    assert_eq!(s.pop(5), Ok(Some(1)));
    assert_eq!(s.pop(5), Err(SchedulerError::QueueEmpty));
}

#[test]
fn job_waits_for_every_dependency() {
    let mut s = State::new();
    s.register_job(job(1, 1, vec![], None)).unwrap();
    s.register_job(job(2, 1, vec![], None)).unwrap();
    s.register_job(job(
        3,
        1,
        vec![Parameter::Reference(1), Parameter::Literal(String::from("x")), Parameter::Reference(2)],
        None,
    ))
    .unwrap();
    let w = Workflow { jobs: vec![1, 2, 3] };
    w.queue_queuable(&mut s, 0);
    assert_eq!(state_of(&s, 3), JobState::NotStarted);
    s.finish_job(1).unwrap();
    w.queue_queuable(&mut s, 0);
    assert_eq!(state_of(&s, 3), JobState::NotStarted);
    s.finish_job(2).unwrap();
    w.queue_queuable(&mut s, 0);
    assert_eq!(state_of(&s, 3), JobState::Waiting);
}

#[test]
fn register_rejects_duplicate_ids() {
    let mut s = State::new();
    s.register_job(job(4, 1, vec![], None)).unwrap();
    assert_eq!(s.register_job(job(4, 2, vec![], None)), Err(SchedulerError::DuplicateIdentifier));
    assert_eq!(s.get_job(4).unwrap().priority, 1);
}

#[test]
fn register_rejects_unknown_references() {
    let mut s = State::new();
    assert_eq!(
        s.register_job(job(1, 1, vec![Parameter::Reference(9)], None)),
        Err(SchedulerError::JobNotFound)
    );
    assert_eq!(
        s.register_job(job(1, 1, vec![Parameter::Reference(1)], None)),
        Err(SchedulerError::JobNotFound)
    );
    assert!(s.get_job(1).is_none());
}

#[test]
fn register_records_a_fresh_job_as_not_started() {
    let mut s = State::new();
    let mut j = job(2, 1, vec![], None);
    j.state = JobState::Finished;
    assert_eq!(s.register_job(j), Ok(2));
    assert_eq!(state_of(&s, 2), JobState::NotStarted);
}

#[test]
fn finish_of_unknown_job_fails() {
    let mut s = State::new();
    assert_eq!(s.finish_job(3), Err(SchedulerError::JobNotFound));
}

#[test]
fn allocated_ids_are_fresh_and_increasing() {
    let mut s = State::new();
    assert_eq!(s.allocate_id(), Ok(1));
    s.register_job(job(10, 1, vec![], None)).unwrap();
    assert_eq!(s.allocate_id(), Ok(11));
    s.register_job(job(u128::MAX, 1, vec![], None)).unwrap();
    assert_eq!(s.allocate_id(), Err(SchedulerError::IdsExhausted));
}

fn input(name: &str, parameters: Vec<InputParam>, priority: u8, delay_until: Option<u64>) -> InputJob {
    InputJob { job_name: String::from(name), parameters, priority, delay_until }
}

#[test]
fn build_registers_children_before_the_root() {
    let mut s = State::new();
    let mut w = Workflow::new();
    let tree = input(
        "root",
        vec![
            InputParam::Job(input("a", vec![InputParam::Literal(String::from("boop"))], 1, None)),
            InputParam::Literal(String::from("k")),
        ],
        9,
        None,
    );
    let root = build_workflow_from_job(&mut s, &tree, &mut w).unwrap();
    assert_eq!(root, 1);
    assert_eq!(w.jobs, vec![2, 1]);
    let r = s.get_job(1).unwrap();
    assert_eq!(r.job_name, "root");
    assert_eq!(r.priority, 9);
    assert!(matches!(r.arguments[0], Parameter::Reference(2)));
    assert!(matches!(&r.arguments[1], Parameter::Literal(t) if t == "k"));
    let a = s.get_job(2).unwrap();
    assert_eq!(a.job_name, "a");
    assert!(matches!(&a.arguments[0], Parameter::Literal(t) if t == "boop"));
}

#[test]
fn parent_with_two_children_end_to_end() {
    let now: u64 = 1_000;
    let mut s = State::new();
    let mut w = Workflow::new();
    let tree = input(
        "p",
        vec![
            InputParam::Job(input("a", vec![InputParam::Literal(String::from("boop"))], 1, None)),
            InputParam::Job(input("b", vec![InputParam::Literal(String::from("boop"))], 2, Some(now + 100))),
        ],
        9,
        None,
    );
    let p = build_workflow_from_job(&mut s, &tree, &mut w).unwrap();
    let a = match s.get_job(p).unwrap().arguments[0] {
        Parameter::Reference(id) => id,
        _ => panic!("expected a reference"),
    };
    let b = match s.get_job(p).unwrap().arguments[1] {
        Parameter::Reference(id) => id,
        _ => panic!("expected a reference"),
    };
    w.queue_queuable(&mut s, now);
    assert_eq!(state_of(&s, a), JobState::Waiting);
    assert_eq!(state_of(&s, b), JobState::Delayed);
    assert_eq!(s.pop(now), Ok(Some(a)));
    s.finish_job(a).unwrap();
    w.queue_queuable(&mut s, now);
    assert_eq!(state_of(&s, p), JobState::NotStarted);
    assert_eq!(s.pop(now + 100), Ok(Some(b)));
    assert_eq!(state_of(&s, b), JobState::Waiting);
    s.finish_job(b).unwrap();
    w.queue_queuable(&mut s, now + 100);
    assert_eq!(state_of(&s, p), JobState::Waiting);
    assert_eq!(s.pop(now + 100), Ok(Some(p)));
    assert_eq!(s.pop(now + 100), Err(SchedulerError::QueueEmpty));
}

#[test]
fn build_fails_when_fresh_ids_run_out() {
    let mut s = State::new();
    s.register_job(job(u128::MAX - 1, 1, vec![], None)).unwrap();
    let mut w = Workflow::new();
    let pair = input("p", vec![InputParam::Job(input("c", vec![], 1, None))], 2, None);
    assert_eq!(build_workflow_from_job(&mut s, &pair, &mut w), Err(SchedulerError::IdsExhausted));
    let mut s = State::new();
    s.register_job(job(u128::MAX - 1, 1, vec![], None)).unwrap();
    let mut w = Workflow::new();
    let single = input("q", vec![], 2, None);
    assert_eq!(build_workflow_from_job(&mut s, &single, &mut w), Ok(u128::MAX));
    assert_eq!(w.jobs.last(), Some(&u128::MAX));
}

#[test]
fn one_scan_activates_equal_priority_jobs_in_workflow_order() {
    let mut s = State::new();
    s.register_job(job(3, 2, vec![], None)).unwrap();
    s.register_job(job(1, 2, vec![], None)).unwrap();
    s.register_job(job(2, 2, vec![], None)).unwrap();
    let w = Workflow { jobs: vec![3, 1, 2] };
    w.queue_queuable(&mut s, 7);
    assert_eq!(s.pop(7), Ok(Some(3)));
    assert_eq!(s.pop(7), Ok(Some(1)));
    assert_eq!(s.pop(7), Ok(Some(2)));
}
