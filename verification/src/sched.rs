//! The scheduler's decision core: admission control under a fixed worker
//! budget with a FIFO overflow queue, job-id allocation, cost estimation,
//! and the delivered per-job result.
//!
//! The surrounding event loop (channels, spawned workers) lives outside the
//! library; it owns a [`SchedCore`] and feeds it one event at a time, as a
//! single serialized coordinator. Everything the coordinator decides —
//! spawn now or queue, whom to promote on completion — is decided here and
//! proved.

use crate::parser::{parse_query, spec_parse_query, QueryPlan};
use std::collections::VecDeque;
use vstd::prelude::*;

verus! {

broadcast use vstd::set::group_set_axioms;

/// Relies on `Duration::clone`: `Duration` is a plain `Copy` value, so its
/// clone is the value itself.
pub assume_specification[ <core::time::Duration as Clone>::clone ](
    d: &core::time::Duration,
) -> (r: core::time::Duration)
    ensures
        r == *d,
;

/// The fixed number of workers that may run at once.
pub const WORKER_LIMIT: usize = 4;

/// The result delivered for one job: inline compressed bytes or a spilled
/// file path (at most one of the two; neither on failure), with the job's
/// running time and its cost estimate.
#[derive(Debug, Clone)]
pub struct JobResult {
    pub bytes: Option<Vec<u8>>,
    pub path: Option<String>,
    pub duration: core::time::Duration,
    pub cost: usize,
}

/// Cost estimate of a plan: a fixed weight of 10 per step.
pub fn estimate_cost(plan: &[QueryPlan]) -> (c: usize)
    requires
        plan@.len() * 10 <= usize::MAX,
    ensures
        c == plan@.len() * 10,
{
    plan.len() * 10
}

/// The plan recorded at enqueue time: an unparseable query is recorded as
/// the empty plan, which later fails at execution (`NoTableBuilt`) instead
/// of aborting the enqueue.
pub fn plan_for_enqueue(query: &str) -> (r: Vec<QueryPlan>)
    ensures
        match spec_parse_query(query@) {
            Ok(s) => r@.map_values(|p: QueryPlan| p@) == s,
            Err(_) => r@.len() == 0,
        },
{
    match parse_query(query) {
        Ok(p) => p,
        Err(_) => Vec::new(),
    }
}

/// The optimistic status reported at enqueue time for a given active-worker
/// count: advisory only, the admission decision itself is the coordinator's.
pub fn admission_status(active: usize) -> (s: &'static str)
    ensures
        active < WORKER_LIMIT ==> s@ == "running"@,
        active >= WORKER_LIMIT ==> s@ == "queued"@,
{
    if active < WORKER_LIMIT {
        "running"
    } else {
        "queued"
    }
}

/// The coordinator's state: how many workers run now, and the jobs waiting
/// in arrival order. The coordinator alone mutates it.
pub struct SchedCore<J> {
    pub active: usize,
    pub queue: VecDeque<J>,
}

impl<J> SchedCore<J> {
    /// The state invariant: never more than the worker budget active, and
    /// jobs wait only while the budget is exhausted.
    pub open spec fn wf(&self) -> bool {
        self.active <= WORKER_LIMIT && (self.queue@.len() > 0 ==> self.active == WORKER_LIMIT)
    }

    pub fn new() -> (s: Self)
        ensures
            s.wf(),
            s.active == 0,
            s.queue@ =~= Seq::<J>::empty(),
    {
        SchedCore { active: 0, queue: VecDeque::new() }
    }

    /// A new job arrives: start it at once when a worker slot is free
    /// (the returned job is to be spawned), else append it to the queue.
    pub fn on_arrival(&mut self, job: J) -> (now: Option<J>)
        requires
            old(self).wf(),
        ensures
            final(self).wf(),
            old(self).active < WORKER_LIMIT ==> now == Some(job)
                && final(self).active == old(self).active + 1
                && final(self).queue@ == old(self).queue@,
            old(self).active >= WORKER_LIMIT ==> now is None
                && final(self).active == old(self).active
                && final(self).queue@ == old(self).queue@.push(job),
    {
        if self.active < WORKER_LIMIT {
            self.active = self.active + 1;
            Some(job)
        } else {
            self.queue.push_back(job);
            None
        }
    }

    /// A worker finished: free its slot, and when jobs are waiting, hand
    /// back the head of the queue (to be spawned, taking the slot again).
    pub fn on_completion(&mut self) -> (next: Option<J>)
        requires
            old(self).wf(),
            old(self).active >= 1,
        ensures
            final(self).wf(),
            old(self).queue@.len() == 0 ==> next is None
                && final(self).active == old(self).active - 1
                && final(self).queue@ == old(self).queue@,
            old(self).queue@.len() > 0 ==> next == Some(old(self).queue@[0])
                && final(self).active == old(self).active
                && final(self).queue@ == old(self).queue@.drop_first(),
    {
        self.active = self.active - 1;
        match self.queue.pop_front() {
            Some(job) => {
                self.active = self.active + 1;
                Some(job)
            },
            None => None,
        }
    }
}

/// One event the coordinator reacts to: a job arrives, or the worker
/// running a job reports completion.
pub enum SchedEvent {
    Arrive(u64),
    Complete(u64),
}

/// The coordinator's history, by job id: which jobs run, wait (in arrival
/// order) and are finished. It follows the same admission policy as
/// [`SchedCore`], stated over job ids so that whole histories can be
/// reasoned about.
pub struct SchedModel {
    pub running: Set<u64>,
    pub queued: Seq<u64>,
    pub done: Set<u64>,
}

pub open spec fn sched_init() -> SchedModel {
    SchedModel { running: Set::empty(), queued: Seq::empty(), done: Set::empty() }
}

/// Every job the scheduler has ever seen.
pub open spec fn arrived(s: SchedModel) -> Set<u64> {
    s.running.union(s.queued.to_set()).union(s.done)
}

/// An event the state admits: arrivals are fresh jobs, completions come
/// only from running jobs.
pub open spec fn valid_event(s: SchedModel, e: SchedEvent) -> bool {
    match e {
        SchedEvent::Arrive(id) => !arrived(s).contains(id),
        SchedEvent::Complete(id) => s.running.contains(id),
    }
}

/// The coordinator's reaction: an arrival runs at once when a slot is free,
/// else waits; a completion frees its slot and promotes the queue head.
pub open spec fn sched_step(s: SchedModel, e: SchedEvent) -> SchedModel {
    match e {
        SchedEvent::Arrive(id) => if s.running.len() < WORKER_LIMIT {
            SchedModel { running: s.running.insert(id), ..s }
        } else {
            SchedModel { queued: s.queued.push(id), ..s }
        },
        SchedEvent::Complete(id) => {
            let r = s.running.remove(id);
            if s.queued.len() > 0 {
                SchedModel {
                    running: r.insert(s.queued[0]),
                    queued: s.queued.drop_first(),
                    done: s.done.insert(id),
                }
            } else {
                SchedModel { running: r, queued: s.queued, done: s.done.insert(id) }
            }
        },
    }
}

/// The invariant of every reachable state: the worker budget is respected,
/// jobs wait only while it is exhausted, no job is in two places at once,
/// and the queue holds no duplicates.
pub open spec fn sched_inv(s: SchedModel) -> bool {
    &&& s.running.finite()
    &&& s.done.finite()
    &&& s.running.len() <= WORKER_LIMIT
    &&& (s.queued.len() > 0 ==> s.running.len() == WORKER_LIMIT)
    &&& s.running.disjoint(s.done)
    &&& (forall|i: int|
        0 <= i < s.queued.len() ==> !s.running.contains(s.queued[i]) && !s.done.contains(
            s.queued[i],
        ))
    &&& (forall|i: int, j: int|
        0 <= i < j < s.queued.len() ==> s.queued[i] != s.queued[j])
}

pub proof fn lemma_step_preserves_inv(s: SchedModel, e: SchedEvent)
    requires
        sched_inv(s),
        valid_event(s, e),
    ensures
        sched_inv(sched_step(s, e)),
{
    let s2 = sched_step(s, e);
    match e {
        SchedEvent::Arrive(id) => {
            assert(!s.queued.to_set().contains(id));
            if s.running.len() >= WORKER_LIMIT {
                assert(forall|i: int|
                    0 <= i < s.queued.len() ==> s2.queued[i] == s.queued[i]);
                assert(forall|i: int|
                    0 <= i < s.queued.len() ==> s.queued.to_set().contains(s.queued[i]));
            }
        },
        SchedEvent::Complete(id) => {
            if s.queued.len() > 0 {
                let h = s.queued[0];
                assert(forall|i: int|
                    0 <= i < s2.queued.len() ==> s2.queued[i] == s.queued[i + 1]);
                assert(s.running.remove(id).len() == s.running.len() - 1);
                assert(s.running.remove(id).insert(h).len() <= s.running.len());
            }
        },
    }
}

/// The state after a sequence of events, from the empty scheduler.
pub open spec fn sched_run(events: Seq<SchedEvent>) -> SchedModel
    decreases events.len(),
{
    if events.len() == 0 {
        sched_init()
    } else {
        sched_step(sched_run(events.drop_last()), events.last())
    }
}

/// A history the scheduler can actually see: each event is admitted by the
/// state the earlier events produced.
pub open spec fn valid_run(events: Seq<SchedEvent>) -> bool {
    forall|k: int|
        0 <= k < events.len() ==> valid_event(sched_run(events.subrange(0, k)), events[k])
}

proof fn lemma_valid_run_prefix(events: Seq<SchedEvent>)
    requires
        valid_run(events),
        events.len() > 0,
    ensures
        valid_run(events.drop_last()),
        valid_event(sched_run(events.drop_last()), events.last()),
{
    let p = events.drop_last();
    assert(forall|k: int| 0 <= k < p.len() ==> p.subrange(0, k) =~= events.subrange(0, k));
    assert(forall|k: int| 0 <= k < p.len() ==> p[k] == events[k]);
    assert(events.subrange(0, events.len() - 1) =~= p);
}

/// Law: over any history the scheduler admits, every reachable state keeps
/// the invariant — in particular, at no instant do more than
/// `WORKER_LIMIT` jobs run concurrently.
pub proof fn lemma_worker_limit(events: Seq<SchedEvent>)
    requires
        valid_run(events),
    ensures
        sched_inv(sched_run(events)),
        sched_run(events).running.len() <= WORKER_LIMIT,
    decreases events.len(),
{
    if events.len() == 0 {
        assert(sched_init().running.len() == 0);
    } else {
        lemma_valid_run_prefix(events);
        lemma_worker_limit(events.drop_last());
        lemma_step_preserves_inv(sched_run(events.drop_last()), events.last());
    }
}

/// The ids of the arrival events of a history.
pub open spec fn arrival_ids(events: Seq<SchedEvent>) -> Set<u64> {
    Set::new(|id: u64| exists|k: int| 0 <= k < events.len() && events[k] == SchedEvent::Arrive(id))
}

proof fn lemma_arrival_ids_snoc(events: Seq<SchedEvent>)
    requires
        events.len() > 0,
    ensures
        arrival_ids(events) == (match events.last() {
            SchedEvent::Arrive(id) => arrival_ids(events.drop_last()).insert(id),
            SchedEvent::Complete(_) => arrival_ids(events.drop_last()),
        }),
{
    let p = events.drop_last();
    let n = events.len() - 1;
    assert forall|x: u64| arrival_ids(p).contains(x) implies arrival_ids(events).contains(x) by {
        let k = choose|k: int| 0 <= k < p.len() && p[k] == SchedEvent::Arrive(x);
        assert(events[k] == SchedEvent::Arrive(x));
    }
    match events.last() {
        SchedEvent::Arrive(id) => {
            assert(events[n] == SchedEvent::Arrive(id));
            assert forall|x: u64| arrival_ids(events).contains(x) implies arrival_ids(p).insert(
                id,
            ).contains(x) by {
                let k = choose|k: int|
                    0 <= k < events.len() && events[k] == SchedEvent::Arrive(x);
                if k < n {
                    assert(p[k] == SchedEvent::Arrive(x));
                }
            }
            assert(arrival_ids(events) =~= arrival_ids(p).insert(id));
        },
        SchedEvent::Complete(_) => {
            assert forall|x: u64| arrival_ids(events).contains(x) implies arrival_ids(p).contains(
                x,
            ) by {
                let k = choose|k: int|
                    0 <= k < events.len() && events[k] == SchedEvent::Arrive(x);
                assert(k != n);
                assert(p[k] == SchedEvent::Arrive(x));
            }
            assert(arrival_ids(events) =~= arrival_ids(p));
        },
    }
}

proof fn lemma_to_set_drop_first(q: Seq<u64>)
    requires
        q.len() > 0,
    ensures
        q.to_set() == q.drop_first().to_set().insert(q[0]),
{
    let d = q.drop_first();
    assert forall|x: u64| q.to_set().contains(x) implies d.to_set().insert(q[0]).contains(x) by {
        let k = choose|k: int| 0 <= k < q.len() && q[k] == x;
        if k > 0 {
            assert(d[k - 1] == x);
            assert(d.contains(x));
        }
    }
    assert forall|x: u64| d.to_set().insert(q[0]).contains(x) implies q.to_set().contains(x) by {
        if x == q[0] {
            assert(q[0] == x);
            assert(q.contains(x));
        } else {
            let k = choose|k: int| 0 <= k < d.len() && d[k] == x;
            assert(q[k + 1] == x);
            assert(q.contains(x));
        }
    }
    assert(q.to_set() =~= d.to_set().insert(q[0]));
}

/// Law (no loss): over any history the scheduler admits, every job that
/// ever arrived is accounted for in exactly one place -- still running,
/// still queued, or finished.
pub proof fn lemma_no_loss(events: Seq<SchedEvent>)
    requires
        valid_run(events),
    ensures
        arrived(sched_run(events)) == arrival_ids(events),
        sched_inv(sched_run(events)),
    decreases events.len(),
{
    lemma_worker_limit(events);
    if events.len() == 0 {
        assert(arrived(sched_init()) =~= arrival_ids(events));
    } else {
        lemma_valid_run_prefix(events);
        lemma_no_loss(events.drop_last());
        lemma_arrival_ids_snoc(events);
        let p = events.drop_last();
        let s = sched_run(p);
        let s2 = sched_run(events);
        match events.last() {
            SchedEvent::Arrive(id) => {
                if s.running.len() < WORKER_LIMIT {
                    assert(arrived(s2) =~= arrived(s).insert(id));
                } else {
                    s.queued.lemma_push_to_set_commute(id);
                    assert(arrived(s2) =~= arrived(s).insert(id));
                }
            },
            SchedEvent::Complete(id) => {
                if s.queued.len() > 0 {
                    lemma_to_set_drop_first(s.queued);
                    assert(arrived(s2) =~= arrived(s));
                } else {
                    assert(arrived(s2) =~= arrived(s));
                }
            },
        }
    }
}

/// Law (exactly one place): a job that ever arrived is, at every reachable
/// state, in exactly one of the three dispositions: running, waiting in
/// the queue, or finished.
pub proof fn lemma_job_in_one_place(events: Seq<SchedEvent>, id: u64)
    requires
        valid_run(events),
        arrival_ids(events).contains(id),
    ensures
        ({
            let s = sched_run(events);
            let r = s.running.contains(id);
            let q = s.queued.contains(id);
            let d = s.done.contains(id);
            (r || q || d) && !(r && q) && !(r && d) && !(q && d)
        }),
{
    lemma_no_loss(events);
    let s = sched_run(events);
    assert(arrived(s).contains(id));
    assert(s.queued.to_set().contains(id) == s.queued.contains(id));
    if s.queued.contains(id) {
        let k = choose|k: int| 0 <= k < s.queued.len() && s.queued[k] == id;
        assert(!s.running.contains(s.queued[k]) && !s.done.contains(s.queued[k]));
    }
}

/// Completed jobs stay completed: the done set only grows.
proof fn lemma_done_monotone(events: Seq<SchedEvent>, k: int)
    requires
        0 <= k <= events.len(),
    ensures
        sched_run(events.subrange(0, k)).done.subset_of(sched_run(events).done),
    decreases events.len() - k,
{
    if k < events.len() {
        lemma_done_monotone(events.drop_last(), k);
        assert(events.drop_last().subrange(0, k) =~= events.subrange(0, k));
        assert(events.drop_last() =~= events.subrange(0, events.len() - 1));
    } else {
        assert(events.subrange(0, k) =~= events);
    }
}

/// Law (no duplicate delivery): over any history the scheduler admits, no
/// job completes twice — two completion events always name different jobs.
pub proof fn lemma_exactly_once(events: Seq<SchedEvent>, i: int, j: int)
    requires
        valid_run(events),
        0 <= i < j < events.len(),
        events[i] is Complete,
        events[j] is Complete,
    ensures
        events[i]->Complete_0 != events[j]->Complete_0,
{
    let a = events[i]->Complete_0;
    let b = events[j]->Complete_0;
    let pi = events.subrange(0, i + 1);
    let pj = events.subrange(0, j);
    assert(valid_run(pi)) by {
        assert(forall|k: int| 0 <= k < pi.len() ==> pi.subrange(0, k) =~= events.subrange(0, k));
        assert(forall|k: int| 0 <= k < pi.len() ==> pi[k] == events[k]);
    }
    assert(valid_run(pj)) by {
        assert(forall|k: int| 0 <= k < pj.len() ==> pj.subrange(0, k) =~= events.subrange(0, k));
        assert(forall|k: int| 0 <= k < pj.len() ==> pj[k] == events[k]);
    }
    // after event i, job a is done
    assert(pi.drop_last() =~= events.subrange(0, i));
    assert(pi.last() == events[i]);
    assert(sched_run(pi).done.contains(a));
    // done sets only grow, so a is still done before event j
    lemma_done_monotone(pj, i + 1);
    assert(pj.subrange(0, i + 1) =~= pi);
    assert(sched_run(pj).done.contains(a));
    // event j is admitted, so b is running before it, and running jobs are
    // never done
    assert(valid_event(sched_run(events.subrange(0, j)), events[j]));
    lemma_worker_limit(pj);
    assert(sched_run(pj).running.contains(b));
}

/// The job-id counter: process-wide, monotonically increasing.
pub struct JobIds {
    pub next: u64,
}

/// One allocation: `id` is handed out and the counter moves past it.
pub open spec fn alloc_spec(pre: JobIds, post: JobIds, id: u64) -> bool {
    pre.next < u64::MAX && id == pre.next && post.next == pre.next + 1
}

impl JobIds {
    /// Ids start at 1.
    pub fn new() -> (s: Self)
        ensures
            s.next == 1,
    {
        JobIds { next: 1 }
    }

    /// Hand out the next id.
    pub fn take_next(&mut self) -> (id: u64)
        requires
            old(self).next < u64::MAX,
        ensures
            alloc_spec(*old(self), *final(self), id),
    {
        let id = self.next;
        self.next = self.next + 1;
        id
    }
}

/// A chain of allocations: `ids[k]` was allocated in state `states[k]`,
/// leading to `states[k + 1]`.
pub open spec fn alloc_chain(states: Seq<JobIds>, ids: Seq<u64>) -> bool {
    states.len() == ids.len() + 1 && forall|k: int|
        0 <= k < ids.len() ==> alloc_spec(states[k], states[k + 1], ids[k])
}

proof fn lemma_chain_counter(states: Seq<JobIds>, ids: Seq<u64>, i: int, j: int)
    requires
        alloc_chain(states, ids),
        0 <= i <= j < states.len(),
    ensures
        states[j].next - states[i].next == j - i,
    decreases j - i,
{
    if i < j {
        lemma_chain_counter(states, ids, i, j - 1);
        assert(alloc_spec(states[j - 1], states[j], ids[j - 1]));
    }
}

/// Law: job ids are strictly increasing — of two jobs allocated in order,
/// the later one always has the numerically greater id.
pub proof fn lemma_job_ids_increase(states: Seq<JobIds>, ids: Seq<u64>, i: int, j: int)
    requires
        alloc_chain(states, ids),
        0 <= i < j < ids.len(),
    ensures
        ids[i] < ids[j],
{
    lemma_chain_counter(states, ids, i, j);
    assert(alloc_spec(states[i], states[i + 1], ids[i]));
    assert(alloc_spec(states[j], states[j + 1], ids[j]));
}

} // verus!
