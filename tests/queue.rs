use job_scheduler::queue::Queue;

#[test]
fn respects_priorities() {
    let mut queue: Queue = Default::default();
    queue.add_job(2, 2, 1).unwrap();
    queue.add_job(1, 3, 1).unwrap();
    queue.add_job(3, 1, 1).unwrap();
    assert!(matches!(queue.pop(), Some(1)));
    assert!(matches!(queue.pop(), Some(2)));
    assert!(matches!(queue.pop(), Some(3)));
}

#[test]
fn respects_priorities_when_dequeueing_delayed() {
    let mut queue: Queue = Default::default();
    queue.add_job(3, 3, 1).unwrap();
    queue.add_job(1, 4, 1).unwrap();
    queue.add_job(5, 1, 1).unwrap();
    queue.delay_job(2, 9, 1).unwrap();
    queue.delay_job(4, 2, 2).unwrap();
    assert!(matches!(queue.pop(), Some(1)));

    queue.enqueue_from_delayed(2);
    assert!(matches!(queue.pop(), Some(2)));
    assert!(matches!(queue.pop(), Some(3)));
    assert!(matches!(queue.pop(), Some(4)));
    assert!(matches!(queue.pop(), Some(5)));
}

#[test]
fn equal_priority_pops_earliest_enqueued_first() {
    let mut queue = Queue::new();
    queue.add_job(1, 5, 10).unwrap();
    queue.add_job(2, 5, 5).unwrap();
    queue.add_job(3, 5, 7).unwrap();
    assert_eq!(queue.pop(), Some(2));
    assert_eq!(queue.pop(), Some(3));
    assert_eq!(queue.pop(), Some(1));
    assert_eq!(queue.pop(), None);
}

#[test]
fn promotion_follows_due_time_not_priority() {
    let mut queue = Queue::new();
    queue.delay_job(1, 9, 2).unwrap();
    queue.delay_job(2, 1, 1).unwrap();
    queue.delay_job(3, 5, 3).unwrap();
    assert_eq!(queue.enqueue_from_delayed(2), vec![2, 1]);
    assert!(!queue.is_empty());
    assert_eq!(queue.pop(), Some(1));
    assert_eq!(queue.pop(), Some(2));
    assert_eq!(queue.pop(), None);
    assert_eq!(queue.enqueue_from_delayed(3), vec![3]);
    assert_eq!(queue.pop(), Some(3));
    assert!(queue.is_empty());
}

#[test]
fn promotion_enqueues_at_the_promotion_time() {
    let mut queue = Queue::new();
    queue.add_job(1, 4, 6).unwrap();
    queue.delay_job(2, 4, 1).unwrap();
    assert_eq!(queue.enqueue_from_delayed(5), vec![2]);
    assert_eq!(queue.pop(), Some(2));
    assert_eq!(queue.pop(), Some(1));
}

#[test]
fn nothing_due_promotes_nothing() {
    let mut queue = Queue::new();
    assert_eq!(queue.enqueue_from_delayed(100), Vec::<u128>::new());
    queue.delay_job(7, 1, 50).unwrap();
    assert_eq!(queue.enqueue_from_delayed(49), Vec::<u128>::new());
    assert_eq!(queue.pop(), None);
    assert_eq!(queue.enqueue_from_delayed(50), vec![7]);
}

#[test]
fn empty_only_when_both_queues_are_empty() {
    let mut queue = Queue::new();
    assert!(queue.is_empty());
    queue.delay_job(1, 1, 10).unwrap();
    assert!(!queue.is_empty());
    assert_eq!(queue.pop(), None);
    queue.enqueue_from_delayed(10);
    assert!(!queue.is_empty());
    assert_eq!(queue.pop(), Some(1));
    assert!(queue.is_empty());
}

#[test]
fn readding_a_job_replaces_its_priority() {
    let mut queue = Queue::new();
    queue.add_job(1, 1, 1).unwrap();
    queue.add_job(2, 2, 1).unwrap();
    queue.add_job(1, 3, 1).unwrap();
    assert_eq!(queue.pop(), Some(1));
    assert_eq!(queue.pop(), Some(2));
    assert_eq!(queue.pop(), None);
}

#[test]
fn equal_priority_and_time_pops_in_push_order() {
    let mut queue: Queue = Default::default();
    queue.add_job(7, 5, 10).unwrap();
    queue.add_job(8, 5, 10).unwrap();
    assert_eq!(queue.pop(), Some(7));
    assert_eq!(queue.pop(), Some(8));

    queue.add_job(8, 5, 10).unwrap();
    queue.add_job(7, 5, 10).unwrap();
    queue.add_job(9, 5, 10).unwrap();
    assert_eq!(queue.pop(), Some(8));
    assert_eq!(queue.pop(), Some(7));
    assert_eq!(queue.pop(), Some(9));
}

#[test]
fn promoted_entries_keep_due_order_on_equal_priority() {
    let mut queue = Queue::new();
    queue.delay_job(1, 4, 3).unwrap();
    queue.delay_job(2, 4, 2).unwrap();
    assert_eq!(queue.enqueue_from_delayed(5), vec![2, 1]);
    assert_eq!(queue.pop(), Some(2));
    assert_eq!(queue.pop(), Some(1));
}
