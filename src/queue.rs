//! The ready queue (priority first, then earliest enqueue time) and the
//! delayed queue (earliest due time first), with promotion between them.
use std::cmp::Reverse;

use priority_queue::PriorityQueue;
use vstd::prelude::*;

use crate::{JobId, Priority, TimeStamp};

verus! {

#[verifier::external_type_specification]
#[verifier::external_body]
#[verifier::reject_recursive_types(I)]
#[verifier::reject_recursive_types(P)]
#[verifier::reject_recursive_types(H)]
pub struct ExPriorityQueue<I, P, H>(PriorityQueue<I, P, H>);

#[verifier::external_type_specification]
#[verifier::external_body]
#[verifier::reject_recursive_types(T)]
pub struct ExReverse<T>(Reverse<T>);

/// The heap behind the ready queue.
pub type ReadyHeap = PriorityQueue<JobId, (Priority, Reverse<TimeStamp>, Reverse<u64>)>;

/// The heap behind the delayed queue.
pub type DelayedHeap = PriorityQueue<(Priority, JobId), Reverse<TimeStamp>>;

/// Ready entries: job id to (priority, enqueue time).
pub type ReadyMap = Map<JobId, (Priority, TimeStamp)>;

/// Push numbers of ready entries: job id to push number.
pub type SeqMap = Map<JobId, u64>;

/// Delayed entries: (priority, job id) to due time.
pub type DelayedMap = Map<(Priority, JobId), TimeStamp>;

/// What a ready heap holds: each job id with its priority and enqueue time.
pub uninterp spec fn ready_entries(q: PriorityQueue<u128, (u8, Reverse<u64>, Reverse<u64>)>) -> Map<u128, (u8, u64)>;

/// The push number that a ready heap holds for each job id: among entries of
/// equal priority and enqueue time, the lowest push number is greatest.
pub uninterp spec fn ready_seqs(q: PriorityQueue<u128, (u8, Reverse<u64>, Reverse<u64>)>) -> Map<u128, u64>;

/// What a delayed heap holds: each (priority, job id) key with its due time.
pub uninterp spec fn delayed_entries(q: PriorityQueue<(u8, u128), Reverse<u64>>) -> Map<(u8, u128), u64>;

/// Ready-queue order: `a` pops strictly before `b` when its priority is higher,
/// or when the priorities are equal and it was enqueued earlier.
pub open spec fn ready_before(a: (Priority, TimeStamp), b: (Priority, TimeStamp)) -> bool {
    a.0 > b.0 || (a.0 == b.0 && a.1 < b.1)
}

/// Relies on PriorityQueue::new: the new queue holds nothing.
#[verifier::external_body]
fn new_ready_heap() -> (r: ReadyHeap)
    ensures
        ready_entries(r) == ReadyMap::empty(),
        ready_seqs(r) == SeqMap::empty(),
{
    PriorityQueue::new()
}

/// Relies on PriorityQueue::new: the new queue holds nothing.
#[verifier::external_body]
fn new_delayed_heap() -> (r: DelayedHeap)
    ensures
        delayed_entries(r) == DelayedMap::empty(),
{
    PriorityQueue::new()
}

/// Relies on PriorityQueue::push: the item is inserted, or its priority replaced.
#[verifier::external_body]
fn push_ready(
    q: &mut ReadyHeap,
    id: JobId,
    priority: Priority,
    at: TimeStamp,
    seq: u64,
)
    ensures
        ready_entries(*final(q)) == ready_entries(*old(q)).insert(id, (priority, at)),
        ready_seqs(*final(q)) == ready_seqs(*old(q)).insert(id, seq),
{
    q.push(id, (priority, Reverse(at), Reverse(seq)));
}

/// Relies on PriorityQueue::push: the item is inserted, or its priority replaced.
#[verifier::external_body]
fn push_delayed(
    q: &mut DelayedHeap,
    key: (Priority, JobId),
    due: TimeStamp,
)
    ensures
        delayed_entries(*final(q)) == delayed_entries(*old(q)).insert(key, due),
{
    q.push(key, Reverse(due));
}

/// Relies on PriorityQueue::pop: removes an item of greatest priority, where
/// `(p, Reverse(t), Reverse(n))` is greatest for the highest `p`, then the
/// lowest `t`, then the lowest `n`.
#[verifier::external_body]
fn pop_ready(q: &mut ReadyHeap) -> (r: Option<
    (JobId, (Priority, TimeStamp)),
>)
    ensures
        ({
            let m = ready_entries(*old(q));
            let n = ready_seqs(*old(q));
            match r {
                None => m == ReadyMap::empty() && ready_entries(*final(q)) == m && ready_seqs(*final(q))
                    == n,
                Some((id, e)) => {
                    &&& m.contains_key(id)
                    &&& m[id] == e
                    &&& forall|k: JobId| #[trigger] m.contains_key(k) ==> !ready_before(m[k], e)
                    &&& forall|k: JobId| #[trigger] m.contains_key(k) && m[k] == e ==> n[id] <= n[k]
                    &&& ready_entries(*final(q)) == m.remove(id)
                    &&& ready_seqs(*final(q)) == n.remove(id)
                },
            }
        }),
{
    q.pop().map(|(id, (p, t, _))| (id, (p, t.0)))
}

/// Relies on PriorityQueue::is_empty.
#[verifier::external_body]
fn ready_heap_is_empty(q: &ReadyHeap) -> (r: bool)
    ensures
        r == (ready_entries(*q) == ReadyMap::empty()),
{
    q.is_empty()
}

/// Relies on PriorityQueue::peek: the due time of an item of greatest
/// priority, that is of earliest due time.
#[verifier::external_body]
fn peek_delayed(q: &DelayedHeap) -> (r: Option<TimeStamp>)
    ensures
        ({
            let m = delayed_entries(*q);
            match r {
                None => m == DelayedMap::empty(),
                Some(t) => {
                    &&& exists|k: (Priority, JobId)| #[trigger] m.contains_key(k) && m[k] == t
                    &&& forall|k: (Priority, JobId)| #[trigger] m.contains_key(k) ==> t <= m[k]
                },
            }
        }),
{
    q.peek().map(|(_, t)| t.0)
}

/// Relies on PriorityQueue::pop: removes an item of earliest due time.
#[verifier::external_body]
fn pop_delayed(q: &mut DelayedHeap) -> (r: Option<
    ((Priority, JobId), TimeStamp),
>)
    ensures
        ({
            let m = delayed_entries(*old(q));
            match r {
                None => m == DelayedMap::empty() && delayed_entries(
                    *final(q),
                ) == m,
                Some((key, t)) => {
                    &&& m.contains_key(key)
                    &&& m[key] == t
                    &&& forall|k: (Priority, JobId)| #[trigger] m.contains_key(k) ==> t <= m[k]
                    &&& delayed_entries(*final(q)) == m.remove(key)
                },
            }
        }),
{
    q.pop().map(|(key, t)| (key, t.0))
}

/// Relies on PriorityQueue::is_empty.
#[verifier::external_body]
fn delayed_heap_is_empty(q: &DelayedHeap) -> (r: bool)
    ensures
        r == (delayed_entries(*q) == DelayedMap::empty()),
{
    q.is_empty()
}

/// `ks` lists each key of `d` that is due at `until` exactly once, in order
/// of due time.
pub open spec fn promotion_order(d: DelayedMap, until: TimeStamp, ks: Seq<(Priority, JobId)>) -> bool {
    &&& ks.no_duplicates()
    &&& forall|i: int| 0 <= i < ks.len() ==> d.contains_key(#[trigger] ks[i]) && d[ks[i]] <= until
    &&& forall|k: (Priority, JobId)| #[trigger] d.contains_key(k) && d[k] <= until ==> ks.contains(k)
    &&& forall|i: int, j: int| 0 <= i < j < ks.len() ==> d[#[trigger] ks[i]] <= d[#[trigger] ks[j]]
}

/// The delayed entries of `d` that are not yet due at `until`.
pub open spec fn not_due(d: DelayedMap, until: TimeStamp) -> DelayedMap {
    Map::new(|k: (Priority, JobId)| d.contains_key(k) && d[k] > until, |k: (Priority, JobId)| d[k])
}

/// The ready entries `r` after the keys `ks` are made ready, in order, at `now`.
pub open spec fn promoted(r: ReadyMap, ks: Seq<(Priority, JobId)>, now: TimeStamp) -> ReadyMap
    decreases ks.len(),
{
    if ks.len() == 0 {
        r
    } else {
        promoted(r, ks.drop_last(), now).insert(ks.last().1, (ks.last().0, now))
    }
}

/// `r` is what a pop of the ready entries `before` may return, leaving `after`.
pub open spec fn pop_result(before: ReadyMap, r: Option<JobId>, after: ReadyMap) -> bool {
    match r {
        None => before == ReadyMap::empty() && after == before,
        Some(id) => {
            &&& before.contains_key(id)
            &&& forall|k: JobId| #[trigger] before.contains_key(k) ==> !ready_before(before[k], before[id])
            &&& after == before.remove(id)
        },
    }
}

/// A popped entry `r` has the lowest push number among the entries of
/// `before` with its priority and enqueue time.
pub open spec fn pop_tie_break(before: ReadyMap, seqs: SeqMap, r: Option<JobId>) -> bool {
    match r {
        None => true,
        Some(id) => forall|k: JobId| #[trigger]
            before.contains_key(k) && before[k] == before[id] ==> seqs[id] <= seqs[k],
    }
}

/// The push number after `n`; the count stops at `u64::MAX`.
pub open spec fn next_push_number(n: u64) -> u64 {
    if n < u64::MAX {
        (n + 1) as u64
    } else {
        n
    }
}

/// The two queues of the scheduler. Neither holds job content: only ids and
/// the keys that order them.
pub struct Queue {
    queue: ReadyHeap,
    delayed_queue: DelayedHeap,
    pushes: u64,
}

impl Queue {
    /// The ready entries: job id to (priority, enqueue time).
    pub closed spec fn ready(&self) -> ReadyMap {
        ready_entries(self.queue)
    }

    /// The delayed entries: (priority, job id) to due time.
    pub closed spec fn delayed(&self) -> DelayedMap {
        delayed_entries(self.delayed_queue)
    }

    /// The push number of each ready entry.
    pub closed spec fn seqs(&self) -> SeqMap {
        ready_seqs(self.queue)
    }

    /// The push number that the next ready entry takes.
    pub closed spec fn pushes(&self) -> u64 {
        self.pushes
    }

    /// Both queues hold finitely many entries.
    pub open spec fn wf(&self) -> bool {
        self.ready().dom().finite() && self.delayed().dom().finite()
    }

    /// An empty pair of queues.
    pub fn new() -> (r: Queue)
        ensures
            r.wf(),
            r.ready() == ReadyMap::empty(),
            r.delayed() == DelayedMap::empty(),
            r.seqs() == SeqMap::empty(),
            r.pushes() == 0,
    {
        Queue { queue: new_ready_heap(), delayed_queue: new_delayed_heap(), pushes: 0 }
    }

    /// Hands out the next push number; the count stops at `u64::MAX`.
    fn next_push(&mut self) -> (r: u64)
        ensures
            r == old(self).pushes,
            final(self).pushes == next_push_number(old(self).pushes),
            final(self).queue == old(self).queue,
            final(self).delayed_queue == old(self).delayed_queue,
    {
        let n = self.pushes;
        if self.pushes < u64::MAX {
            self.pushes = self.pushes + 1;
        }
        n
    }

    /// Makes `job_id` ready with `priority`, enqueued at `execute_at`.
    pub fn add_job(&mut self, job_id: JobId, priority: Priority, execute_at: TimeStamp) -> (r:
        Result<(), ()>)
        requires
            old(self).wf(),
        ensures
            r == Ok::<(), ()>(()),
            final(self).wf(),
            final(self).ready() == old(self).ready().insert(job_id, (priority, execute_at)),
            final(self).delayed() == old(self).delayed(),
            final(self).seqs() == old(self).seqs().insert(job_id, old(self).pushes()),
            final(self).pushes() == next_push_number(old(self).pushes()),
    {
        let seq = self.next_push();
        push_ready(&mut self.queue, job_id, priority, execute_at, seq);
        Ok(())
    }

    /// Holds `job_id` back until `execute_at`.
    pub fn delay_job(&mut self, job_id: JobId, priority: Priority, execute_at: TimeStamp) -> (r:
        Result<(), ()>)
        requires
            old(self).wf(),
        ensures
            r == Ok::<(), ()>(()),
            final(self).wf(),
            final(self).ready() == old(self).ready(),
            final(self).delayed() == old(self).delayed().insert((priority, job_id), execute_at),
            final(self).seqs() == old(self).seqs(),
            final(self).pushes() == old(self).pushes(),
    {
        push_delayed(&mut self.delayed_queue, (priority, job_id), execute_at);
        Ok(())
    }

    /// Moves every delayed entry that is due at `until` to the ready queue,
    /// enqueued at `until`, earliest due time first, and returns their ids in
    /// that order.
    pub fn enqueue_from_delayed(&mut self, until: TimeStamp) -> (r: Vec<JobId>)
        requires
            old(self).wf(),
        ensures
            final(self).wf(),
            final(self).delayed() == not_due(old(self).delayed(), until),
            exists|ks: Seq<(Priority, JobId)>|
                {
                    &&& #[trigger] promotion_order(old(self).delayed(), until, ks)
                    &&& r@ == ks.map_values(|k: (Priority, JobId)| k.1)
                    &&& final(self).ready() == promoted(old(self).ready(), ks, until)
                },
            forall|id: JobId| #[trigger]
                final(self).ready().contains_key(id) ==> old(self).ready().contains_key(id)
                    || r@.contains(id),
            forall|id: JobId| #[trigger]
                r@.contains(id) <==> exists|p: Priority| #[trigger]
                    old(self).delayed().contains_key((p, id)) && old(self).delayed()[(p, id)] <= until,
    {
        let ghost d0 = self.delayed();
        let ghost r0 = self.ready();
        let ghost mut ks: Seq<(Priority, JobId)> = Seq::empty();
        let mut ret: Vec<JobId> = Vec::new();
        loop
            invariant
                self.wf(),
                ks.no_duplicates(),
                forall|i: int| 0 <= i < ks.len() ==> d0.contains_key(#[trigger] ks[i]) && d0[ks[i]] <= until,
                forall|i: int, j: int| 0 <= i < j < ks.len() ==> d0[#[trigger] ks[i]] <= d0[#[trigger] ks[j]],
                forall|k: (Priority, JobId)| #[trigger] self.delayed().contains_key(k) <==> d0.contains_key(k) && !ks.contains(k),
                forall|k: (Priority, JobId)| #[trigger] self.delayed().contains_key(k) ==> self.delayed()[k] == d0[k],
                forall|i: int, k: (Priority, JobId)| 0 <= i < ks.len() && #[trigger] self.delayed().contains_key(k) ==> d0[#[trigger] ks[i]] <= d0[k],
                ret@ == ks.map_values(|k: (Priority, JobId)| k.1),
                self.ready() == promoted(r0, ks, until),
                forall|id: JobId| #[trigger] self.ready().contains_key(id) ==> r0.contains_key(id) || ret@.contains(id),
            ensures
                forall|k: (Priority, JobId)| #[trigger] self.delayed().contains_key(k) ==> self.delayed()[k] > until,
            decreases self.delayed().len(),
        {
            match peek_delayed(&self.delayed_queue) {
                None => break,
                Some(t) => {
                    if t > until {
                        break;
                    }
                },
            }
            let popped = pop_delayed(&mut self.delayed_queue);
            let ((priority, key), due) = match popped {
                Some(entry) => entry,
                None => break,
            };
            let ghost prev = ks;
            proof {
                ks = ks.push((priority, key));
                assert(ks.drop_last() =~= prev);
                assert forall|k: (Priority, JobId)| ks.contains(k) <==> prev.contains(k) || k == (priority, key) by {
                    if prev.contains(k) {
                        let i = choose|i: int| 0 <= i < prev.len() && prev[i] == k;
                        assert(ks[i] == k);
                    }
                    if k == (priority, key) {
                        assert(ks[ks.len() - 1] == k);
                    }
                }
            }
            let ghost prev_ret = ret@;
            ret.push(key);
            let seq = self.next_push();
            push_ready(&mut self.queue, key, priority, until, seq);
            proof {
                assert(ret@ =~= ks.map_values(|k: (Priority, JobId)| k.1));
                assert(ks.drop_last() == ks.take(ks.len() - 1));
                assert(ret@[ret@.len() - 1] == key);
                assert forall|id: JobId| #[trigger] prev_ret.contains(id) implies ret@.contains(id) by {
                    let i = choose|i: int| 0 <= i < prev_ret.len() && prev_ret[i] == id;
                    assert(ret@[i] == id);
                }
            }
        }
        proof {
            assert forall|k: (Priority, JobId)| #[trigger] d0.contains_key(k) && d0[k] <= until implies ks.contains(k) by {
                if !ks.contains(k) {
                    assert(self.delayed().contains_key(k));
                }
            }
            assert(promotion_order(d0, until, ks));
            assert(self.delayed() =~= not_due(d0, until));
            assert forall|id: JobId| #[trigger] ret@.contains(id) <==> exists|p: Priority| #[trigger] d0.contains_key((p, id)) && d0[(p, id)] <= until by {
                if ret@.contains(id) {
                    let i = choose|i: int| 0 <= i < ret@.len() && ret@[i] == id;
                    assert(d0.contains_key((ks[i].0, id)));
                }
                if exists|p: Priority| #[trigger] d0.contains_key((p, id)) && d0[(p, id)] <= until {
                    let p = choose|p: Priority| #[trigger] d0.contains_key((p, id)) && d0[(p, id)] <= until;
                    assert(ks.contains((p, id)));
                    let i = choose|i: int| 0 <= i < ks.len() && ks[i] == (p, id);
                    assert(ret@[i] == id);
                }
            }
        }
        ret
    }

    /// True iff both queues are empty.
    pub fn is_empty(&self) -> (r: bool)
        ensures
            r == (self.ready() == ReadyMap::empty() && self.delayed()
                == DelayedMap::empty()),
    {
        ready_heap_is_empty(&self.queue) && delayed_heap_is_empty(&self.delayed_queue)
    }

    /// Takes the ready entry that comes first: highest priority, then
    /// earliest enqueue time, then earliest push. `None` when no entry is
    /// ready.
    pub fn pop(&mut self) -> (r: Option<JobId>)
        requires
            old(self).wf(),
        ensures
            final(self).wf(),
            final(self).delayed() == old(self).delayed(),
            pop_result(old(self).ready(), r, final(self).ready()),
            pop_tie_break(old(self).ready(), old(self).seqs(), r),
            final(self).seqs() == match r {
                Some(id) => old(self).seqs().remove(id),
                None => old(self).seqs(),
            },
            final(self).pushes() == old(self).pushes(),
    {
        match pop_ready(&mut self.queue) {
            Some((key, _)) => Some(key),
            None => None,
        }
    }
}

impl Default for Queue {
    fn default() -> (r: Queue)
        ensures
            r.wf(),
            r.ready() == ReadyMap::empty(),
            r.delayed() == DelayedMap::empty(),
    {
        Queue::new()
    }
}

} // verus!
