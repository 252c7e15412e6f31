use vstd::multiset::Multiset;
use vstd::prelude::*;

use crate::runtime_state::BlockingId;

verus! {

/// What a worker is to do next.
#[derive(PartialEq, Eq, Debug)]
pub enum Next<J> {
    /// Run this job.
    Run(J),
    /// Wait until there is something to do.
    Wait,
    /// Stop: there will be no more jobs.
    Exit,
}

/// The jobs that a fixed number of workers share, and the closures that they
/// are through with.
pub struct WorkerPool<J> {
    jobs: Vec<J>,
    open: bool,
    workers: usize,
    completed: Vec<BlockingId>,
}

impl<J> WorkerPool<J> {
    /// The jobs that no worker has taken, in the order in which they came.
    pub closed spec fn spec_jobs(&self) -> Seq<J> {
        self.jobs@
    }

    /// Whether the pool takes jobs.
    pub closed spec fn spec_open(&self) -> bool {
        self.open
    }

    /// How many workers share the jobs.
    pub closed spec fn spec_workers(&self) -> usize {
        self.workers
    }

    /// The closures that the workers are through with, in the order in which
    /// they came through.
    pub closed spec fn spec_completed(&self) -> Seq<BlockingId> {
        self.completed@
    }

    /// A pool with one worker.
    pub fn new() -> (pool: Self)
        ensures
            pool.spec_workers() == 1,
            pool.spec_open(),
            pool.spec_jobs() == Seq::<J>::empty(),
            pool.spec_completed() == Seq::<BlockingId>::empty(),
    {
        Self::with_count(1)
    }

    /// A pool with `n` workers.
    pub fn with_count(n: usize) -> (pool: Self)
        ensures
            pool.spec_workers() == n,
            pool.spec_open(),
            pool.spec_jobs() == Seq::<J>::empty(),
            pool.spec_completed() == Seq::<BlockingId>::empty(),
    {
        WorkerPool { jobs: Vec::new(), open: true, workers: n, completed: Vec::new() }
    }

    /// How many workers share the jobs.
    pub fn workers(&self) -> (n: usize)
        ensures
            n == self.spec_workers(),
    {
        self.workers
    }

    /// Whether the pool takes jobs.
    pub fn is_open(&self) -> (open: bool)
        ensures
            open == self.spec_open(),
    {
        self.open
    }

    /// Adds a job, behind those that are there.
    pub fn submit(&mut self, job: J)
        requires
            old(self).spec_open(),
        ensures
            final(self).spec_jobs() == submitted(old(self).spec_jobs(), job),
            final(self).spec_open(),
            final(self).spec_workers() == old(self).spec_workers(),
            final(self).spec_completed() == old(self).spec_completed(),
    {
        self.jobs.push(job);
    }

    /// What a worker that is free does next: the first job if there is one, and
    /// otherwise it waits while the pool takes jobs and stops when it does not.
    pub fn next(&mut self) -> (next: Next<J>)
        ensures
            next == next_of(old(self).spec_jobs(), old(self).spec_open()),
            final(self).spec_jobs() == jobs_after_next(old(self).spec_jobs()),
            final(self).spec_open() == old(self).spec_open(),
            final(self).spec_workers() == old(self).spec_workers(),
            final(self).spec_completed() == old(self).spec_completed(),
    {
        if self.jobs.len() > 0 {
            let job = self.jobs.remove(0);
            assert(self.jobs@ == old(self).jobs@.skip(1));
            Next::Run(job)
        } else if self.open {
            Next::Wait
        } else {
            Next::Exit
        }
    }

    /// Notes that a worker is through with a closure.
    pub fn finish(&mut self, id: BlockingId)
        ensures
            final(self).spec_completed() == announced(old(self).spec_completed(), id),
            final(self).spec_jobs() == old(self).spec_jobs(),
            final(self).spec_open() == old(self).spec_open(),
            final(self).spec_workers() == old(self).spec_workers(),
    {
        self.completed.push(id);
    }

    /// Hands over the closures that the workers have come through with since
    /// the last time.
    pub fn drain_completed(&mut self) -> (completed: Vec<BlockingId>)
        ensures
            completed@ == old(self).spec_completed(),
            final(self).spec_completed() == Seq::<BlockingId>::empty(),
            final(self).spec_jobs() == old(self).spec_jobs(),
            final(self).spec_open() == old(self).spec_open(),
            final(self).spec_workers() == old(self).spec_workers(),
    {
        let mut completed: Vec<BlockingId> = Vec::new();
        std::mem::swap(&mut self.completed, &mut completed);
        completed
    }

    /// Takes no more jobs. Those that are there are still run.
    pub fn shutdown(&mut self)
        ensures
            !final(self).spec_open(),
            final(self).spec_jobs() == old(self).spec_jobs(),
            final(self).spec_workers() == old(self).spec_workers(),
            final(self).spec_completed() == old(self).spec_completed(),
    {
        self.open = false;
    }
}

/// What a worker is doing.
#[derive(Clone, Copy, PartialEq, Eq, Structural, Debug)]
pub enum Worker {
    /// Nothing: it is free for a job.
    Free,
    /// It runs a job.
    Busy,
    /// It has stopped.
    Stopped,
}

/// What a worker has to do after it was asked.
#[derive(PartialEq, Eq, Debug)]
pub enum Order<J> {
    /// Run this job.
    Run(J),
    /// Wake the runtime: a job has ended.
    Wake,
    /// Wait until there is something to do.
    Wait,
    /// Stop.
    Stop,
}

impl Worker {
    /// What the worker has to do next. A free worker takes a job or waits, and
    /// stops when there will be no more. A worker whose job has ended, be it by a
    /// panic or not, wakes the runtime and is free again.
    pub fn advance<J>(&mut self, pool: &mut WorkerPool<J>) -> (order: Order<J>)
        ensures
            final(pool).spec_open() == old(pool).spec_open(),
            final(pool).spec_workers() == old(pool).spec_workers(),
            final(pool).spec_completed() == old(pool).spec_completed(),
            (*final(self), final(pool).spec_jobs(), order) == advanced(
                *old(self),
                old(pool).spec_jobs(),
                old(pool).spec_open(),
            ),
    {
        match *self {
            Worker::Busy => {
                *self = Worker::Free;
                Order::Wake
            },
            Worker::Free => match pool.next() {
                Next::Run(job) => {
                    *self = Worker::Busy;
                    Order::Run(job)
                },
                Next::Wait => Order::Wait,
                Next::Exit => {
                    *self = Worker::Stopped;
                    Order::Stop
                },
            },
            Worker::Stopped => Order::Stop,
        }
    }
}

/// The jobs that wait when one more has been submitted.
pub open spec fn submitted<J>(jobs: Seq<J>, job: J) -> Seq<J> {
    jobs.push(job)
}

/// The closures that workers are through with when one more is.
pub open spec fn announced(completed: Seq<BlockingId>, id: BlockingId) -> Seq<BlockingId> {
    completed.push(id)
}

/// The closures that workers are through with after all of these, in order.
pub open spec fn announced_all(completed: Seq<BlockingId>, ids: Seq<BlockingId>) -> Seq<BlockingId>
    decreases ids.len(),
{
    if ids.len() == 0 {
        completed
    } else {
        announced(announced_all(completed, ids.drop_last()), ids.last())
    }
}

/// No announcement is lost: the closures that workers announce, one after the other,
/// are those that the runtime finds, in that order, behind those that were announced
/// before.
pub proof fn law_announcements_are_kept(completed: Seq<BlockingId>, ids: Seq<BlockingId>)
    ensures
        announced_all(completed, ids) == completed + ids,
    decreases ids.len(),
{
    if ids.len() == 0 {
        assert(completed + ids == completed);
    } else {
        law_announcements_are_kept(completed, ids.drop_last());
        assert(completed + ids == (completed + ids.drop_last()).push(ids.last()));
    }
}

/// What a free worker does next, given the jobs and whether more are taken.
pub open spec fn next_of<J>(jobs: Seq<J>, open: bool) -> Next<J> {
    if jobs.len() > 0 {
        Next::Run(jobs[0])
    } else if open {
        Next::Wait
    } else {
        Next::Exit
    }
}

/// The jobs that are left when a free worker has been told what to do next.
pub open spec fn jobs_after_next<J>(jobs: Seq<J>) -> Seq<J> {
    if jobs.len() > 0 {
        jobs.skip(1)
    } else {
        jobs
    }
}

/// What becomes of a worker that is asked, which jobs are left then, and what the
/// worker has to do.
pub open spec fn advanced<J>(worker: Worker, jobs: Seq<J>, open: bool) -> (
    Worker,
    Seq<J>,
    Order<J>,
) {
    match worker {
        Worker::Busy => (Worker::Free, jobs, Order::Wake),
        Worker::Free => match next_of(jobs, open) {
            Next::Run(job) => (Worker::Busy, jobs_after_next(jobs), Order::Run(job)),
            Next::Wait => (Worker::Free, jobs, Order::Wait),
            Next::Exit => (Worker::Stopped, jobs, Order::Stop),
        },
        Worker::Stopped => (Worker::Stopped, jobs, Order::Stop),
    }
}

/// What free workers do next, one after another, once no more jobs are taken:
/// the first `n` answers.
pub open spec fn answers<J>(jobs: Seq<J>, n: nat) -> Seq<Next<J>>
    decreases n,
{
    if n == 0 {
        Seq::empty()
    } else {
        seq![next_of(jobs, false)] + answers(jobs_after_next(jobs), (n - 1) as nat)
    }
}

/// Jobs that came before the pool was shut down are all run, each once and in
/// the order in which they came, before any worker stops; then every worker
/// stops.
pub proof fn law_jobs_before_shutdown_run<J>(jobs: Seq<J>, n: nat)
    ensures
        answers(jobs, n).len() == n,
        forall|i: int|
            0 <= i < n ==> #[trigger] answers(jobs, n)[i] == (if i < jobs.len() {
                Next::Run(jobs[i])
            } else {
                Next::Exit
            }),
    decreases n,
{
    if n > 0 {
        let rest = jobs_after_next(jobs);
        law_jobs_before_shutdown_run(rest, (n - 1) as nat);
        assert forall|i: int| 0 <= i < n implies #[trigger] answers(jobs, n)[i] == (if i
            < jobs.len() {
            Next::Run(jobs[i])
        } else {
            Next::Exit
        }) by {
            if i > 0 {
                assert(answers(jobs, n)[i] == answers(rest, (n - 1) as nat)[i - 1]);
                if jobs.len() > 0 && i < jobs.len() {
                    assert(rest[i - 1] == jobs[i]);
                }
            }
        }
    }
}

/// What can happen to a pool and its workers.
pub enum Happening<J> {
    /// A job is submitted.
    Submit(J),
    /// The pool is shut down.
    Shutdown,
    /// The worker of this number is asked what it has to do next, and does it.
    Turn(int),
}

/// A pool and its workers, with what they have done so far.
pub struct History<J> {
    /// The jobs that no worker has taken.
    pub jobs: Seq<J>,
    /// Whether the pool takes jobs.
    pub open: bool,
    /// The workers.
    pub workers: Seq<Worker>,
    /// The jobs that were submitted, in order.
    pub submitted: Seq<J>,
    /// The jobs that were run, in order.
    pub run: Seq<J>,
    /// The workers that ran them, once for each job.
    pub ran: Multiset<int>,
    /// The workers that woke the runtime, once for each time.
    pub woke: Multiset<int>,
}

/// A pool with `n` workers to which nothing has happened.
pub open spec fn beginning<J>(n: nat) -> History<J> {
    History {
        jobs: Seq::empty(),
        open: true,
        workers: Seq::new(n, |w: int| Worker::Free),
        submitted: Seq::empty(),
        run: Seq::empty(),
        ran: Multiset::empty(),
        woke: Multiset::empty(),
    }
}

/// Whether this can happen: jobs are submitted only while the pool takes them, and
/// the worker that has its turn is one of the pool's.
pub open spec fn can_happen<J>(before: History<J>, what: Happening<J>) -> bool {
    match what {
        Happening::Submit(_) => before.open,
        Happening::Shutdown => true,
        Happening::Turn(w) => 0 <= w < before.workers.len(),
    }
}

/// A pool and its workers after something has happened. How a job ends, by a panic
/// or not, makes no difference.
pub open spec fn happened<J>(before: History<J>, what: Happening<J>) -> History<J> {
    match what {
        Happening::Submit(job) => History {
            jobs: submitted(before.jobs, job),
            submitted: before.submitted.push(job),
            ..before
        },
        Happening::Shutdown => History { open: false, ..before },
        Happening::Turn(w) => {
            let (worker, jobs, order) = advanced(before.workers[w], before.jobs, before.open);
            History {
                jobs,
                workers: before.workers.update(w, worker),
                run: match order {
                    Order::Run(job) => before.run.push(job),
                    _ => before.run,
                },
                ran: if order is Run {
                    before.ran.insert(w)
                } else {
                    before.ran
                },
                woke: if order is Wake {
                    before.woke.insert(w)
                } else {
                    before.woke
                },
                ..before
            }
        },
    }
}

/// A pool with `n` workers after all of this has happened, in order.
pub open spec fn history<J>(n: nat, all: Seq<Happening<J>>) -> History<J>
    decreases all.len(),
{
    if all.len() == 0 {
        beginning(n)
    } else {
        happened(history(n, all.drop_last()), all.last())
    }
}

/// Whether all of this can happen to a pool with `n` workers, in order.
pub open spec fn possible<J>(n: nat, all: Seq<Happening<J>>) -> bool
    decreases all.len(),
{
    all.len() > 0 ==> {
        &&& possible(n, all.drop_last())
        &&& can_happen(history(n, all.drop_last()), all.last())
    }
}

/// No job is lost, run twice or run out of turn, at any time and whichever workers
/// have their turns: those that were run, and behind them those that wait, are those
/// that were submitted. A worker has woken the runtime once for each job that it has
/// run, but for the one that it is running. No worker stops while the pool takes
/// jobs or a job waits.
pub proof fn law_no_job_is_lost<J>(n: nat, all: Seq<Happening<J>>)
    requires
        possible(n, all),
    ensures
        ({
            let end = history(n, all);
            &&& end.workers.len() == n
            &&& end.run + end.jobs == end.submitted
            &&& forall|w: int|
                0 <= w < n ==> #[trigger] end.ran.count(w) == end.woke.count(w) + (
                if end.workers[w] is Busy {
                    1nat
                } else {
                    0
                })
            &&& forall|w: int|
                0 <= w < n && (#[trigger] end.workers[w]) is Stopped ==> !end.open
                    && end.jobs.len() == 0
        }),
    decreases all.len(),
{
    if all.len() == 0 {
        assert(Seq::<J>::empty() + Seq::<J>::empty() == Seq::<J>::empty());
    } else {
        law_no_job_is_lost(n, all.drop_last());
        let before = history(n, all.drop_last());
        let end = history(n, all);
        assert(end == happened(before, all.last()));
        assert(end.run + end.jobs == end.submitted) by {
            match all.last() {
                Happening::Submit(job) => {
                    assert(before.run + before.jobs.push(job) == (before.run + before.jobs).push(
                        job,
                    ));
                },
                Happening::Shutdown => {},
                Happening::Turn(w) => {
                    if before.workers[w] is Free && before.jobs.len() > 0 {
                        assert(before.run.push(before.jobs[0]) + before.jobs.skip(1) == before.run
                            + before.jobs);
                    }
                },
            }
        }
        assert forall|w: int| 0 <= w < n implies #[trigger] end.ran.count(w) == end.woke.count(w)
            + (if end.workers[w] is Busy {
            1nat
        } else {
            0
        }) by {
            assert(before.ran.count(w) == before.woke.count(w) + (if before.workers[w] is Busy {
                1nat
            } else {
                0
            }));
        }
    }
}

/// When all workers of a pool with at least one have stopped, which is what dropping
/// the pool waits for, every job that was submitted has been run exactly once, in the
/// order of submitting, and each worker has woken the runtime once for every job that
/// it ran.
pub proof fn law_stopped_workers_ran_all_jobs<J>(n: nat, all: Seq<Happening<J>>)
    requires
        n > 0,
        possible(n, all),
        forall|w: int| 0 <= w < n ==> (#[trigger] history(n, all).workers[w]) is Stopped,
    ensures
        history(n, all).run == history(n, all).submitted,
        forall|w: int|
            0 <= w < n ==> #[trigger] history(n, all).ran.count(w) == history(n, all).woke.count(w),
{
    law_no_job_is_lost(n, all);
    let end = history(n, all);
    assert(end.workers[0] is Stopped);
    assert(end.run + end.jobs == end.run);
    assert forall|w: int| 0 <= w < n implies #[trigger] end.ran.count(w) == end.woke.count(w) by {
        assert(end.workers[w] is Stopped);
    }
}

/// A job is never left waiting for want of workers that can take it: as long as one
/// waits, any worker runs one with its next turn if it is free, and with the turn
/// after that if it is busy. So a panic, which ends a job but not its worker, keeps no
/// later job from running.
pub proof fn law_workers_go_on<J>(worker: Worker, jobs: Seq<J>, open: bool)
    requires
        jobs.len() > 0,
        !(worker is Stopped),
    ensures
        worker is Free ==> advanced(worker, jobs, open) == (
            Worker::Busy,
            jobs.skip(1),
            Order::Run(jobs[0]),
        ),
        worker is Busy ==> advanced(worker, jobs, open) == (Worker::Free, jobs, Order::<J>::Wake),
{
}

/// A worker takes jobs from the front, one at a time, and only when it is free; it stops
/// only when it is free, no job is left and none will come, and then for good; and it
/// wakes the runtime whenever, and only when, a job has ended.
pub proof fn law_worker_takes_turns<J>(worker: Worker, jobs: Seq<J>, open: bool)
    ensures
        ({
            let (after, left, order) = advanced(worker, jobs, open);
            &&& after is Stopped <==> worker is Stopped || (worker is Free && jobs.len() == 0
                && !open)
            &&& order is Stop <==> after is Stopped
            &&& after is Busy <==> worker is Free && jobs.len() > 0
            &&& order is Wake <==> worker is Busy
            &&& worker is Busy ==> after is Free
            &&& after is Busy ==> (order matches Order::Run(job) && jobs == seq![job] + left)
            &&& order is Run <==> after is Busy
            &&& !(after is Busy) ==> left == jobs
        }),
{
    if worker is Free && jobs.len() > 0 {
        assert(jobs == seq![jobs[0]] + jobs.skip(1));
    }
}

} // verus!
