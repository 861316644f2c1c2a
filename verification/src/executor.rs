//! The bounded executor: which job starts next, and how many run at once.
//!
//! The executor decides; it runs nothing itself. Its caller starts the job
//! that `dispatch` names and reports each job that ends with `complete`.

use crate::count::{lemma_occurrences_none, lemma_occurrences_update, occurrences};
use crate::error::ConfigError;
use vstd::prelude::*;

verus! {

/// Where a job stands.
#[derive(Clone, Copy, Debug, PartialEq, Eq, Structural)]
pub enum Status {
    /// Waiting in the queue.
    Queued,
    /// Started and not yet ended.
    Running,
    /// Ended, with success or failure.
    Finished,
}

/// The state of a run: the limit, the jobs in queue order, and how many of
/// them have left the queue.
pub struct Pool {
    pub limit: nat,
    pub next: nat,
    pub jobs: Seq<Status>,
}

impl Pool {
    /// The state before anything has started.
    pub open spec fn fresh(limit: nat, total: nat) -> Pool {
        Pool { limit, next: 0, jobs: Seq::new(total, |i: int| Status::Queued) }
    }

    /// How many jobs are running.
    pub open spec fn running(self) -> nat {
        occurrences(self.jobs, Status::Running)
    }

    /// Whether job `job` is running.
    pub open spec fn is_running(self, job: int) -> bool {
        0 <= job < self.jobs.len() && self.jobs[job] == Status::Running
    }

    /// Whether another job may start: one is waiting and fewer than the
    /// limit are running.
    pub open spec fn can_dispatch(self) -> bool {
        self.running() < self.limit && self.next < self.jobs.len()
    }

    /// The state after the head of the queue has started, if it may.
    pub open spec fn dispatch(self) -> Pool {
        if self.can_dispatch() {
            Pool {
                limit: self.limit,
                next: self.next + 1,
                jobs: self.jobs.update(self.next as int, Status::Running),
            }
        } else {
            self
        }
    }

    /// The state after job `job` has ended, if it was running.
    pub open spec fn complete(self, job: int) -> Pool {
        if self.is_running(job) {
            Pool { limit: self.limit, next: self.next, jobs: self.jobs.update(job, Status::Finished) }
        } else {
            self
        }
    }

    /// Whether the run is over: every job has ended.
    pub open spec fn done(self) -> bool {
        forall|j: int| 0 <= j < self.jobs.len() ==> self.jobs[j] == Status::Finished
    }

    /// The limit is at least one and is kept, and the jobs leave the queue
    /// in order.
    pub open spec fn wf(self) -> bool {
        &&& self.limit >= 1
        &&& self.next <= self.jobs.len()
        &&& self.running() <= self.limit
        &&& forall|j: int|
            0 <= j < self.jobs.len() ==> ((self.jobs[j] == Status::Queued) <==> j >= self.next)
    }

    /// The state after a sequence of steps.
    pub open spec fn run(self, steps: Seq<Step>) -> Pool
        decreases steps.len(),
    {
        if steps.len() == 0 {
            self
        } else {
            self.run(steps.drop_last()).step(steps.last())
        }
    }

    /// The state after one step.
    pub open spec fn step(self, step: Step) -> Pool {
        match step {
            Step::Dispatch => self.dispatch(),
            Step::Complete(job) => self.complete(job as int),
        }
    }
}

/// What can happen in a run: the executor starts the head of the queue, or
/// a job ends.
pub enum Step {
    Dispatch,
    Complete(nat),
}

/// The bounded executor of one run.
pub struct Executor {
    limit: usize,
    next: usize,
    running: usize,
    jobs: Vec<Status>,
}

impl View for Executor {
    type V = Pool;

    closed spec fn view(&self) -> Pool {
        Pool { limit: self.limit as nat, next: self.next as nat, jobs: self.jobs@ }
    }
}

impl Executor {
    #[verifier::type_invariant]
    spec fn inv(&self) -> bool {
        self@.wf() && self.running == self@.running()
    }

    /// An executor for `total` queued jobs of which at most `limit` run at
    /// once. A limit of zero is refused.
    pub fn new(limit: usize, total: usize) -> (r: Result<Executor, ConfigError>)
        ensures
            match r {
                Ok(e) => limit >= 1 && e@ == Pool::fresh(limit as nat, total as nat),
                Err(e) => limit == 0 && e == ConfigError::ZeroParallel,
            },
    {
        if limit == 0 {
            return Err(ConfigError::ZeroParallel);
        }
        let mut jobs: Vec<Status> = Vec::new();
        while jobs.len() < total
            invariant
                jobs.len() <= total,
                forall|j: int| 0 <= j < jobs.len() ==> jobs[j] == Status::Queued,
                occurrences(jobs@, Status::Running) == 0,
            decreases total - jobs.len(),
        {
            let ghost before = jobs@;
            jobs.push(Status::Queued);
            assert(jobs@.drop_last() =~= before);
        }
        assert(jobs@ =~= Seq::new(total as nat, |i: int| Status::Queued));
        Ok(Executor { limit, next: 0, running: 0, jobs })
    }

    /// Starts the head of the queue if fewer than the limit are running,
    /// and returns its position in the queue; `None` where the limit is
    /// reached or the queue is empty.
    pub fn dispatch(&mut self) -> (r: Option<usize>)
        ensures
            final(self)@ == old(self)@.dispatch(),
            final(self)@.wf(),
            r == if old(self)@.can_dispatch() {
                Some(old(self)@.next as usize)
            } else {
                None
            },
    {
        proof {
            use_type_invariant(&*self);
        }
        if self.running < self.limit && self.next < self.jobs.len() {
            let job = self.next;
            proof {
                lemma_occurrences_update(self.jobs@, job as int, Status::Running, Status::Running);
            }
            let mut taken = Executor { limit: self.limit, next: 0, running: 0, jobs: Vec::new() };
            std::mem::swap(self, &mut taken);
            let Executor { limit, next, running, mut jobs } = taken;
            jobs.set(job, Status::Running);
            *self = Executor { limit, next: next + 1, running: running + 1, jobs };
            Some(job)
        } else {
            None
        }
    }

    /// Records that job `job` has ended, so that its place is free for the
    /// next. Returns whether the job was running; otherwise nothing changes.
    pub fn complete(&mut self, job: usize) -> (r: bool)
        ensures
            final(self)@ == old(self)@.complete(job as int),
            final(self)@.wf(),
            r == old(self)@.is_running(job as int),
    {
        proof {
            use_type_invariant(&*self);
        }
        if job < self.jobs.len() && self.jobs[job] == Status::Running {
            proof {
                lemma_occurrences_update(self.jobs@, job as int, Status::Finished, Status::Running);
            }
            let mut taken = Executor { limit: self.limit, next: 0, running: 0, jobs: Vec::new() };
            std::mem::swap(self, &mut taken);
            let Executor { limit, next, running, mut jobs } = taken;
            jobs.set(job, Status::Finished);
            *self = Executor { limit, next, running: running - 1, jobs };
            true
        } else {
            false
        }
    }

    /// Whether the run is over: the queue is empty and no job is running.
    pub fn is_done(&self) -> (r: bool)
        ensures
            r == self@.done(),
            r == (self@.next == self@.jobs.len() && self@.running() == 0),
    {
        proof {
            use_type_invariant(self);
            lemma_done(self@);
        }
        self.next == self.jobs.len() && self.running == 0
    }

    /// How many jobs are running.
    pub fn running(&self) -> (n: usize)
        ensures
            n == self@.running(),
            n <= self@.limit,
    {
        proof {
            use_type_invariant(self);
        }
        self.running
    }

    /// How many jobs may run at once.
    pub fn limit(&self) -> (n: usize)
        ensures
            n == self@.limit,
            n >= 1,
    {
        proof {
            use_type_invariant(self);
        }
        self.limit
    }

    /// How many jobs the run has.
    pub fn total(&self) -> (n: usize)
        ensures
            n == self@.jobs.len(),
    {
        self.jobs.len()
    }

    /// Where job `job` stands.
    pub fn status(&self, job: usize) -> (r: Option<Status>)
        ensures
            r == if job < self@.jobs.len() {
                Some(self@.jobs[job as int])
            } else {
                None
            },
    {
        if job < self.jobs.len() {
            Some(self.jobs[job])
        } else {
            None
        }
    }
}

/// A run is over exactly if the queue is empty and nothing is running.
pub proof fn lemma_done(p: Pool)
    requires
        p.wf(),
    ensures
        p.done() <==> (p.next == p.jobs.len() && p.running() == 0),
{
    lemma_occurrences_none(p.jobs, Status::Running);
    if p.done() {
        if p.next < p.jobs.len() {
            assert(p.jobs[p.next as int] == Status::Queued);
        }
        if p.jobs.contains(Status::Running) {
            let j = choose|j: int| 0 <= j < p.jobs.len() && p.jobs[j] == Status::Running;
            assert(p.jobs[j] == Status::Finished);
        }
    }
    if p.next == p.jobs.len() && p.running() == 0 {
        assert forall|j: int| 0 <= j < p.jobs.len() implies p.jobs[j] == Status::Finished by {
            if p.jobs[j] == Status::Running {
                assert(p.jobs.contains(Status::Running));
            }
        }
    }
}

/// The state before anything has started is well formed.
pub proof fn lemma_fresh_wf(limit: nat, total: nat)
    requires
        limit >= 1,
    ensures
        Pool::fresh(limit, total).wf(),
        Pool::fresh(limit, total).running() == 0,
{
    let p = Pool::fresh(limit, total);
    lemma_occurrences_none(p.jobs, Status::Running);
    if p.jobs.contains(Status::Running) {
        let j = choose|j: int| 0 <= j < p.jobs.len() && p.jobs[j] == Status::Running;
        assert(p.jobs[j] == Status::Queued);
    }
}

/// Every step keeps the state well formed: in particular no step lets more
/// jobs run than the limit.
pub proof fn lemma_step_wf(p: Pool, step: Step)
    requires
        p.wf(),
    ensures
        p.step(step).wf(),
{
    match step {
        Step::Dispatch => {
            if p.can_dispatch() {
                lemma_occurrences_update(p.jobs, p.next as int, Status::Running, Status::Running);
            }
        },
        Step::Complete(job) => {
            if p.is_running(job as int) {
                lemma_occurrences_update(p.jobs, job as int, Status::Finished, Status::Running);
            }
        },
    }
}

/// A job moves forward only: one that has left the queue never waits
/// again, and one that has ended stays ended, so no job runs twice.
pub proof fn lemma_jobs_move_forward(p: Pool, step: Step, job: int)
    requires
        p.wf(),
        0 <= job < p.jobs.len(),
    ensures
        p.step(step).jobs.len() == p.jobs.len(),
        p.jobs[job] != Status::Queued ==> p.step(step).jobs[job] != Status::Queued,
        p.jobs[job] == Status::Finished ==> p.step(step).jobs[job] == Status::Finished,
{
}

/// Whatever the order in which jobs are started and end, at no point do
/// more jobs run than the limit.
pub proof fn lemma_never_over_limit(limit: nat, total: nat, steps: Seq<Step>)
    requires
        limit >= 1,
    ensures
        Pool::fresh(limit, total).run(steps).wf(),
        Pool::fresh(limit, total).run(steps).running() <= limit,
        Pool::fresh(limit, total).run(steps).limit == limit,
    decreases steps.len(),
{
    if steps.len() == 0 {
        lemma_fresh_wf(limit, total);
    } else {
        lemma_never_over_limit(limit, total, steps.drop_last());
        lemma_step_wf(Pool::fresh(limit, total).run(steps.drop_last()), steps.last());
    }
}

/// When a running job ends while another waits, the waiting one may start
/// at once.
pub proof fn lemma_free_place_is_filled(p: Pool, job: int)
    requires
        p.wf(),
        p.is_running(job),
        p.next < p.jobs.len(),
    ensures
        p.complete(job).can_dispatch(),
        p.complete(job).dispatch().is_running(p.next as int),
{
    lemma_occurrences_update(p.jobs, job, Status::Finished, Status::Running);
}

/// With a limit of one the jobs run one after the other: a job starts only
/// while none is running.
pub proof fn lemma_limit_one_is_sequential(p: Pool)
    requires
        p.wf(),
        p.limit == 1,
        p.can_dispatch(),
    ensures
        p.running() == 0,
        p.dispatch().running() == 1,
        !p.dispatch().can_dispatch(),
{
    lemma_occurrences_update(p.jobs, p.next as int, Status::Running, Status::Running);
}

} // verus!
