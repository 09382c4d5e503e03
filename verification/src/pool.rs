//! The bookkeeping of a bounded worker pool.
//!
//! A pool has a fixed number of workers and one queue of pending jobs. Jobs
//! are handed out in the order in which they were submitted, each to exactly
//! one worker, and a worker holds at most one job at a time. The pool itself
//! starts no thread: the caller keeps it behind a lock, has each of its
//! worker threads ask for the next job in a loop, and runs what is handed
//! out.

use std::collections::VecDeque;
use vstd::prelude::*;

verus! {

/// Why a pool could not be made.
#[derive(Debug, Clone, Copy, PartialEq, Eq, Structural)]
pub enum PoolError {
    /// A pool needs at least one worker.
    InvalidPoolSize,
}

/// What a worker that asks for work is told.
#[derive(Debug, PartialEq, Eq)]
pub enum Dispatch<J> {
    /// Run this job to completion, then ask again.
    Run(J),
    /// Nothing is pending: wait until something is submitted or the pool is
    /// shut down, then ask again.
    Wait,
    /// The pool is shut down and nothing is pending: stop.
    Exit,
}

/// The state of a pool: for each worker whether it holds a job, the jobs
/// that are pending in submission order, and whether jobs are still taken.
pub ghost struct PoolState<J> {
    pub busy: Seq<bool>,
    pub pending: Seq<J>,
    pub open: bool,
}

/// One operation on a pool.
pub ghost enum PoolEvent<J> {
    /// A job is submitted.
    Execute(J),
    /// The worker of this number asks for work, having finished the job it
    /// held, if any.
    NextJob(int),
    /// The pool is shut down.
    Shutdown,
}

impl<J> PoolState<J> {
    /// A fresh pool of `size` workers.
    pub open spec fn initial(size: nat) -> Self {
        PoolState { busy: Seq::new(size, |w: int| false), pending: Seq::empty(), open: true }
    }

    /// The number of workers.
    pub open spec fn size(self) -> nat {
        self.busy.len()
    }

    /// Whether `worker` is one of the pool's workers.
    pub open spec fn has_worker(self, worker: int) -> bool {
        0 <= worker < self.busy.len()
    }

    /// The state after `job` was submitted: it is pending behind all others,
    /// unless the pool is shut down, which leaves the state as it is.
    pub open spec fn execute(self, job: J) -> Self {
        if self.open {
            PoolState { pending: self.pending.push(job), ..self }
        } else {
            self
        }
    }

    /// What `worker` is told when it asks for work: the oldest pending job
    /// if there is one; else to wait, or to stop once the pool is shut down.
    /// A number that is not a worker's is told to stop.
    pub open spec fn dispatch(self, worker: int) -> Dispatch<J> {
        if !self.has_worker(worker) {
            Dispatch::Exit
        } else if self.pending.len() > 0 {
            Dispatch::Run(self.pending[0])
        } else if self.open {
            Dispatch::Wait
        } else {
            Dispatch::Exit
        }
    }

    /// The state after `worker` asked for work: the job it was told to run
    /// is no longer pending, and the worker holds a job exactly if it was
    /// given one.
    pub open spec fn next_job(self, worker: int) -> Self {
        if !self.has_worker(worker) {
            self
        } else if self.pending.len() > 0 {
            PoolState {
                busy: self.busy.update(worker, true),
                pending: self.pending.drop_first(),
                ..self
            }
        } else {
            PoolState { busy: self.busy.update(worker, false), ..self }
        }
    }

    /// The state after shutdown: no job is taken any more; what is pending
    /// stays pending.
    pub open spec fn shutdown(self) -> Self {
        PoolState { open: false, ..self }
    }

    /// The state after `event`.
    pub open spec fn apply(self, event: PoolEvent<J>) -> Self {
        match event {
            PoolEvent::Execute(job) => self.execute(job),
            PoolEvent::NextJob(worker) => self.next_job(worker),
            PoolEvent::Shutdown => self.shutdown(),
        }
    }

    /// Whether no worker holds a job.
    pub open spec fn all_idle(self) -> bool {
        forall|w: int| 0 <= w < self.busy.len() ==> !self.busy[w]
    }

    /// Whether the pool has come to rest after shutdown: nothing is taken,
    /// nothing is pending and no worker holds a job.
    pub open spec fn is_drained(self) -> bool {
        !self.open && self.pending.len() == 0 && self.all_idle()
    }
}

/// The state that `events` lead to from `start`.
pub open spec fn run<J>(start: PoolState<J>, events: Seq<PoolEvent<J>>) -> PoolState<J>
    decreases events.len(),
{
    if events.len() == 0 {
        start
    } else {
        run(start, events.drop_last()).apply(events.last())
    }
}

/// The jobs that `events` submit, in order, whether taken or not.
pub open spec fn submitted<J>(events: Seq<PoolEvent<J>>) -> Seq<J>
    decreases events.len(),
{
    if events.len() == 0 {
        Seq::empty()
    } else {
        let before = submitted(events.drop_last());
        match events.last() {
            PoolEvent::Execute(job) => before.push(job),
            _ => before,
        }
    }
}

/// The jobs that the pool takes into its queue along `events`, in order.
pub open spec fn accepted<J>(start: PoolState<J>, events: Seq<PoolEvent<J>>) -> Seq<J>
    decreases events.len(),
{
    if events.len() == 0 {
        Seq::empty()
    } else {
        let before = accepted(start, events.drop_last());
        match events.last() {
            PoolEvent::Execute(job) => if run(start, events.drop_last()).open {
                before.push(job)
            } else {
                before
            },
            _ => before,
        }
    }
}

/// The jobs that the pool hands to workers along `events`, in order.
pub open spec fn started<J>(start: PoolState<J>, events: Seq<PoolEvent<J>>) -> Seq<J>
    decreases events.len(),
{
    if events.len() == 0 {
        Seq::empty()
    } else {
        let before = started(start, events.drop_last());
        match events.last() {
            PoolEvent::NextJob(worker) => match run(start, events.drop_last()).dispatch(worker) {
                Dispatch::Run(job) => before.push(job),
                _ => before,
            },
            _ => before,
        }
    }
}

/// The number of jobs that workers have come back from along `events`.
pub open spec fn finished<J>(start: PoolState<J>, events: Seq<PoolEvent<J>>) -> nat
    decreases events.len(),
{
    if events.len() == 0 {
        0
    } else {
        let before = finished(start, events.drop_last());
        let state = run(start, events.drop_last());
        match events.last() {
            PoolEvent::NextJob(worker) => if state.has_worker(worker) && state.busy[worker] {
                before + 1
            } else {
                before
            },
            _ => before,
        }
    }
}

/// The number of workers that hold a job.
pub open spec fn busy_count(busy: Seq<bool>) -> nat
    decreases busy.len(),
{
    if busy.len() == 0 {
        0
    } else {
        busy_count(busy.drop_last()) + if busy.last() {
            1nat
        } else {
            0nat
        }
    }
}

proof fn lemma_busy_count_update(busy: Seq<bool>, worker: int, holds: bool)
    requires
        0 <= worker < busy.len(),
    ensures
        busy_count(busy.update(worker, holds)) + (if busy[worker] {
            1nat
        } else {
            0nat
        }) == busy_count(busy) + (if holds {
            1nat
        } else {
            0nat
        }),
    decreases busy.len(),
{
    let front = busy.drop_last();
    if worker == busy.len() - 1 {
        assert(busy.update(worker, holds).drop_last() == front);
    } else {
        lemma_busy_count_update(front, worker, holds);
        assert(busy.update(worker, holds).drop_last() == front.update(worker, holds));
    }
}

/// No worker holds a job exactly when the count of those that do is zero;
/// the count never exceeds the number of workers.
pub proof fn lemma_busy_count_bounds(busy: Seq<bool>)
    ensures
        busy_count(busy) <= busy.len(),
        busy_count(busy) == 0 <==> (forall|w: int| 0 <= w < busy.len() ==> !busy[w]),
    decreases busy.len(),
{
    if busy.len() > 0 {
        let front = busy.drop_last();
        lemma_busy_count_bounds(front);
        if busy_count(busy) == 0 {
            assert forall|w: int| 0 <= w < busy.len() implies !busy[w] by {
                if w < front.len() {
                    assert(front[w] == busy[w]);
                }
            }
        } else if !busy.last() {
            let w = choose|w: int| 0 <= w < front.len() && front[w];
            assert(busy[w]);
        }
    }
}

/// Whatever happens to a pool, it keeps its workers, and once shut down it
/// stays shut down.
pub proof fn lemma_pool_keeps_its_workers<J>(start: PoolState<J>, events: Seq<PoolEvent<J>>)
    ensures
        run(start, events).size() == start.size(),
        run(start, events).open ==> start.open,
    decreases events.len(),
{
    if events.len() > 0 {
        lemma_pool_keeps_its_workers(start, events.drop_last());
    }
}

/// Jobs are handed out in the order of their submission, each once and
/// none lost: at any time the jobs handed out so far, followed by those
/// still pending, are the jobs that were pending at the start followed by
/// those taken since.
pub proof fn lemma_jobs_start_in_submission_order<J>(
    start: PoolState<J>,
    events: Seq<PoolEvent<J>>,
)
    ensures
        started(start, events) + run(start, events).pending == start.pending + accepted(
            start,
            events,
        ),
    decreases events.len(),
{
    if events.len() > 0 {
        let before = events.drop_last();
        let state = run(start, before);
        lemma_jobs_start_in_submission_order(start, before);
        match events.last() {
            PoolEvent::Execute(job) => {
                if state.open {
                    assert(started(start, before) + state.pending.push(job) == (started(
                        start,
                        before,
                    ) + state.pending).push(job));
                    assert(start.pending + accepted(start, before).push(job) == (start.pending
                        + accepted(start, before)).push(job));
                }
            },
            PoolEvent::NextJob(worker) => {
                if state.has_worker(worker) && state.pending.len() > 0 {
                    assert(started(start, before).push(state.pending[0])
                        + state.pending.drop_first() == started(start, before) + state.pending);
                }
            },
            PoolEvent::Shutdown => {},
        }
    } else {
        assert(started(start, events) + start.pending == start.pending);
        assert(start.pending + accepted(start, events) == start.pending);
    }
}

/// Every job handed out is either held by a worker or finished: the jobs
/// handed out so far, with those held at the start, are as many as the jobs
/// come back from and those held now.
pub proof fn lemma_started_jobs_are_held_or_finished<J>(
    start: PoolState<J>,
    events: Seq<PoolEvent<J>>,
)
    ensures
        started(start, events).len() + busy_count(start.busy) == finished(start, events)
            + busy_count(run(start, events).busy),
    decreases events.len(),
{
    if events.len() > 0 {
        let before = events.drop_last();
        let state = run(start, before);
        lemma_started_jobs_are_held_or_finished(start, before);
        match events.last() {
            PoolEvent::NextJob(worker) => {
                if state.has_worker(worker) {
                    lemma_busy_count_update(state.busy, worker, state.pending.len() > 0);
                }
            },
            _ => {},
        }
    }
}

/// A pool that is still open has taken every job submitted to it.
pub proof fn lemma_open_pool_takes_every_job<J>(start: PoolState<J>, events: Seq<PoolEvent<J>>)
    requires
        run(start, events).open,
    ensures
        accepted(start, events) == submitted(events),
    decreases events.len(),
{
    if events.len() > 0 {
        let before = events.drop_last();
        assert(run(start, before).open);
        lemma_open_pool_takes_every_job(start, before);
    }
}

/// Every job runs exactly once. Whatever the order in which jobs were
/// submitted and workers asked for work on a fresh pool, once nothing is
/// pending the jobs handed out are the jobs taken, each once and in the
/// order of submission; and once no worker holds a job either, as many jobs
/// have been finished as were taken.
pub proof fn lemma_every_job_runs_exactly_once<J>(size: nat, events: Seq<PoolEvent<J>>)
    requires
        run(PoolState::<J>::initial(size), events).pending.len() == 0,
    ensures
        started(PoolState::<J>::initial(size), events) == accepted(
            PoolState::<J>::initial(size),
            events,
        ),
        run(PoolState::<J>::initial(size), events).all_idle() ==> finished(
            PoolState::<J>::initial(size),
            events,
        ) == accepted(PoolState::<J>::initial(size), events).len(),
{
    let start = PoolState::<J>::initial(size);
    let end = run(start, events);
    lemma_jobs_start_in_submission_order(start, events);
    lemma_started_jobs_are_held_or_finished(start, events);
    lemma_busy_count_bounds(start.busy);
    lemma_busy_count_bounds(end.busy);
    assert(started(start, events) + end.pending == started(start, events));
    assert(start.pending + accepted(start, events) == accepted(start, events));
}

/// A bounded pool of workers with one queue of jobs of type `J`.
pub struct ThreadPool<J> {
    busy: Vec<bool>,
    queue: VecDeque<J>,
    open: bool,
}

impl<J> View for ThreadPool<J> {
    type V = PoolState<J>;

    closed spec fn view(&self) -> PoolState<J> {
        PoolState { busy: self.busy@, pending: self.queue@, open: self.open }
    }
}

impl<J> ThreadPool<J> {
    /// Makes a pool of `size` workers, none of which holds a job, with
    /// nothing pending.
    ///
    /// Fails with `InvalidPoolSize` exactly when `size` is zero.
    pub fn new(size: usize) -> (pool: Result<ThreadPool<J>, PoolError>)
        ensures
            match pool {
                Ok(p) => size > 0 && p@ == PoolState::<J>::initial(size as nat),
                Err(e) => size == 0 && e == PoolError::InvalidPoolSize,
            },
    {
        if size == 0 {
            return Err(PoolError::InvalidPoolSize);
        }
        let mut busy: Vec<bool> = Vec::new();
        let mut w: usize = 0;
        while w < size
            invariant
                w <= size,
                busy@.len() == w,
                forall|i: int| 0 <= i < w ==> !busy@[i],
            decreases size - w,
        {
            busy.push(false);
            w = w + 1;
        }
        let pool = ThreadPool { busy, queue: VecDeque::new(), open: true };
        assert(pool@.busy =~= PoolState::<J>::initial(size as nat).busy);
        Ok(pool)
    }

    /// Submits `job`: it will be handed to a worker after all jobs
    /// submitted before it. A pool that is shut down hands the job back.
    pub fn execute(&mut self, job: J) -> (refused: Result<(), J>)
        ensures
            final(self)@ == old(self)@.execute(job),
            match refused {
                Ok(_) => old(self)@.open,
                Err(back) => !old(self)@.open && back == job,
            },
    {
        if self.open {
            self.queue.push_back(job);
            Ok(())
        } else {
            Err(job)
        }
    }

    /// Asks for work on behalf of `worker`, which has finished the job it
    /// held, if any.
    pub fn next_job(&mut self, worker: usize) -> (told: Dispatch<J>)
        ensures
            told == old(self)@.dispatch(worker as int),
            final(self)@ == old(self)@.next_job(worker as int),
    {
        if worker >= self.busy.len() {
            return Dispatch::Exit;
        }
        match self.queue.pop_front() {
            Some(job) => {
                self.busy.set(worker, true);
                Dispatch::Run(job)
            },
            None => {
                self.busy.set(worker, false);
                if self.open {
                    Dispatch::Wait
                } else {
                    Dispatch::Exit
                }
            },
        }
    }

    /// The number of workers.
    pub fn size(&self) -> (n: usize)
        ensures
            n == self@.size(),
    {
        self.busy.len()
    }

    /// The number of jobs that wait for a worker.
    pub fn pending(&self) -> (n: usize)
        ensures
            n == self@.pending.len(),
    {
        self.queue.len()
    }

    /// Whether the pool has come to rest after shutdown, so that every job
    /// it ever took has been run to its end.
    pub fn is_drained(&self) -> (drained: bool)
        ensures
            drained == self@.is_drained(),
    {
        if self.open || self.queue.len() > 0 {
            return false;
        }
        let mut w: usize = 0;
        while w < self.busy.len()
            invariant
                w <= self.busy.len(),
                forall|i: int| 0 <= i < w ==> !self.busy@[i],
            decreases self.busy.len() - w,
        {
            if self.busy[w] {
                assert(self@.busy[w as int]);
                return false;
            }
            w = w + 1;
        }
        true
    }

    /// Stops taking jobs. What is pending is still handed out; once nothing
    /// is, every worker that asks is told to stop.
    pub fn shutdown(&mut self)
        ensures
            final(self)@ == old(self)@.shutdown(),
    {
        self.open = false;
    }
}

} // verus!
