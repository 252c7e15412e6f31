use std::cell::{Cell, RefCell};
use std::rc::Rc;

use mar::context::{Context, ContextSlot};
use mar::future::{Future, Poll};
use mar::mar::{compute_timeout, spawn_root, wake_completed_blocking, Action, Event, Mar};
use mar::reactor::WAKEN_TOKEN;
use mar::runtime_state::{BlockingId, TaskId};
use mar::task::all::JoinAll;
use mar::task::blocking::{conclude, BlockingTask, Inbox, Outcome, Received, ResultSlot};
use mar::task::worker_pool::{Next, WorkerPool};
use mar::task::yield_now::{yield_now, YieldNow};
use mar::task::{all, spawn_blocking};
use mar::time::sleep::{Sleep as RegistrySleep, SleepContext};
use mar::time::timer_registry::TimerRegistry;
use mar::time::{sleep, Sleep, TimerHeap};
use mar::waker::TaskWaker;

const MILLI: u128 = 1_000_000;

// A future made of a closure.
struct Root(Box<dyn FnMut(&mut Context) -> Poll<()>>);

impl Future for Root {
    type Context = Context;
    type Output = ();

    fn poll(&mut self, cx: &mut Context) -> Poll<()> {
        (self.0)(cx)
    }
}

fn root(f: impl FnMut(&mut Context) -> Poll<()> + 'static) -> Root {
    Root(Box::new(f))
}

// Closures that wait for a worker.
type Job = Box<dyn FnOnce() -> BlockingId>;
type Jobs = Rc<RefCell<WorkerPool<Job>>>;

fn jobs() -> Jobs {
    Rc::new(RefCell::new(WorkerPool::new()))
}

// A pool for jobs that do not matter.
fn no_jobs() -> WorkerPool<()> {
    WorkerPool::new()
}

// Runs a runtime until it is done and returns what the clock shows then. Parking
// moves the clock on by just the timeout; without one a worker runs a job.
fn drive(runtime: &mut Mar<Root>, jobs: &Jobs) -> u128 {
    let mut now: u128 = 1000;
    loop {
        let action = runtime.run(Event::Resumed { now });
        let timeout = match action {
            Action::Resume => continue,
            Action::Done => return now,
            Action::Park(timeout) => timeout,
        };
        let mut tokens = Vec::new();
        let mut completed = Vec::new();
        let next = jobs.borrow_mut().next();
        if let Next::Run(job) = next {
            completed.push(job());
            tokens.push(WAKEN_TOKEN);
        } else {
            now += timeout.expect("nothing will ever happen");
        }
        assert_eq!(runtime.run(Event::Parked { now, tokens, completed }), Action::Resume);
    }
}

fn run(future: Root) -> u128 {
    let mut runtime = Mar::new();
    spawn_root(&mut runtime, future);
    let end = drive(&mut runtime, &jobs());
    assert!(runtime.state.queue.is_empty());
    assert!(runtime.state.tasks.is_empty());
    end
}

fn run_with_jobs(future: Root, jobs: &Jobs) {
    let mut runtime = Mar::new();
    spawn_root(&mut runtime, future);
    drive(&mut runtime, jobs);
    assert!(runtime.state.tasks.is_empty());
    assert!(runtime.state.blocking_wakers.is_empty());
}

// A slot that the task and the worker share.
struct Shared<R>(Rc<RefCell<ResultSlot<R, String>>>);

impl<R> Inbox for Shared<R> {
    type Value = R;
    type Payload = String;

    fn take(&mut self) -> Received<R, String> {
        self.0.borrow_mut().take()
    }
}

fn submit<R: 'static>(
    cx: &mut Context,
    jobs: &Jobs,
    f: impl FnOnce() -> R + 'static,
) -> BlockingTask<Shared<R>> {
    let slot = Rc::new(RefCell::new(ResultSlot::new()));
    let id = cx.next_blocking_id;
    let inbox = Shared(slot.clone());
    let job: Job = Box::new(move || {
        slot.borrow_mut().complete(Ok(f()));
        id
    });
    let task = spawn_blocking(cx, &mut jobs.borrow_mut(), job, inbox);
    assert_eq!(BlockingId(task.id()), id);
    task
}

#[test]
fn mar_new_runtime_has_empty_queue_and_task_map() {
    let runtime: Mar<Root> = Mar::new();
    let state = &runtime.state;
    assert!(state.queue.is_empty());
    assert!(state.tasks.is_empty());
    assert_eq!(state.next_id, TaskId(0));
}

#[test]
fn run_returns_immediately_with_empty_future() {
    run(root(|_| Poll::Ready(())));
}

#[test]
fn run_completes_task_and_leaves_empty_state() {
    let polls = Rc::new(Cell::new(0usize));
    {
        let polls = polls.clone();
        run(root(move |_| {
            polls.set(polls.get() + 1);
            Poll::Ready(())
        }));
    }

    assert_eq!(polls.get(), 1);
}

fn probe(target: usize, polls: Rc<Cell<usize>>) -> Root {
    root(move |cx| {
        polls.set(polls.get() + 1);
        if polls.get() >= target {
            Poll::Ready(())
        } else {
            cx.wake_by_ref();
            Poll::Pending
        }
    })
}

#[test]
fn mar_probe_future_re_polls_until_ready() {
    let polls = Rc::new(Cell::new(0usize));
    run(probe(3, polls.clone()));

    assert_eq!(polls.get(), 3);
}

#[test]
fn mar_spawn_blocking_smoke() {
    let done = Rc::new(Cell::new(false));
    let jobs = jobs();
    {
        let done = done.clone();
        let pool = jobs.clone();
        let mut task: Option<BlockingTask<Shared<()>>> = None;
        run_with_jobs(
            root(move |cx| {
                if task.is_none() {
                    task = Some(submit(cx, &pool, || {}));
                }
                match task.as_mut().unwrap().poll(cx) {
                    Poll::Ready(outcome) => {
                        assert_eq!(outcome, Outcome::Value(()));
                        done.set(true);
                        Poll::Ready(())
                    }
                    Poll::Pending => Poll::Pending,
                }
            }),
            &jobs,
        );
    }
    assert!(done.get());
}

#[test]
fn mar_dropped_spawn_blocking_leaves_blocking_map_empty() {
    let waker = TaskWaker::new(TaskId(999));
    let mut cx = Context::new(waker, 0);
    let mut fut = spawn_blocking(&mut cx, &mut no_jobs(), (), ResultSlot::<u32, String>::new());
    let id = fut.id();

    assert!(fut.poll(&mut cx).is_pending());
    assert!(cx.blocking_wakers.contains_key(&id));

    fut.cancel(&mut cx.blocking_wakers);
    assert!(cx.blocking_wakers.is_empty());
}

#[test]
fn all_with_spawn_blocking() {
    let jobs = jobs();
    let pool = jobs.clone();
    let mut join: Option<JoinAll<BlockingTask<Shared<&'static str>>, 3>> = None;
    let seen = Rc::new(Cell::new(false));
    let seen_in = seen.clone();
    run_with_jobs(
        root(move |cx| {
            if join.is_none() {
                join = Some(all([
                    submit(cx, &pool, || "first"),
                    submit(cx, &pool, || "second"),
                    submit(cx, &pool, || "third"),
                ]));
            }
            match join.as_mut().unwrap().poll(cx) {
                Poll::Ready([a, b, c]) => {
                    assert_eq!(a, Outcome::Value("first"));
                    assert_eq!(b, Outcome::Value("second"));
                    assert_eq!(c, Outcome::Value("third"));
                    seen_in.set(true);
                    Poll::Ready(())
                }
                Poll::Pending => Poll::Pending,
            }
        }),
        &jobs,
    );
    assert!(seen.get());
}

#[test]
fn all_with_sleep_concurrent() {
    let mut join: Option<JoinAll<Sleep, 2>> = None;
    let end = run(root(move |cx| {
        if join.is_none() {
            join = Some(all([sleep(50 * MILLI, cx.now), sleep(50 * MILLI, cx.now)]));
        }
        match join.as_mut().unwrap().poll(cx) {
            Poll::Ready([(), ()]) => Poll::Ready(()),
            Poll::Pending => Poll::Pending,
        }
    }));

    let t = end - 1000;
    assert!(t >= 50 * MILLI);
    assert!(t < 90 * MILLI);
}

#[test]
fn yield_now_yield_now_returns_pending_then_ready() {
    let flag = Rc::new(Cell::new(false));
    {
        let flag = flag.clone();
        let mut future: YieldNow = yield_now();
        run(root(move |cx| match future.poll(cx) {
            Poll::Ready(()) => {
                flag.set(true);
                Poll::Ready(())
            }
            Poll::Pending => Poll::Pending,
        }));
    }
    assert!(flag.get());
}

#[test]
fn time_sleep_zero_completes_in_runtime() {
    let flag = Rc::new(Cell::new(false));
    {
        let flag = flag.clone();
        let mut future: Option<Sleep> = None;
        let end = run(root(move |cx| {
            if future.is_none() {
                future = Some(sleep(0, cx.now));
            }
            match future.as_mut().unwrap().poll(cx) {
                Poll::Ready(()) => {
                    flag.set(true);
                    Poll::Ready(())
                }
                Poll::Pending => Poll::Pending,
            }
        }));
        assert_eq!(end, 1000);
    }
    assert!(flag.get());
}

#[test]
fn sleep_sleep_zero_completes_in_runtime() {
    let flag = Rc::new(Cell::new(false));
    {
        let flag = flag.clone();
        let mut future: Option<RegistrySleep> = None;
        let mut timers = Some(TimerRegistry::new());
        run(root(move |cx| {
            let future = future.get_or_insert_with(|| mar::time::sleep::sleep(0, cx.now));
            let mut timer_cx = SleepContext {
                waker: cx.waker,
                now: cx.now,
                registry: timers.take().unwrap(),
            };
            let outcome = future.poll(&mut timer_cx);
            assert!(timer_cx.registry.is_empty());
            timers = Some(timer_cx.registry);
            if outcome.is_ready() {
                flag.set(true);
            }
            outcome
        }));
    }
    assert!(flag.get());
}

// Once nothing is left to do, a pool that is shut down lets its workers go.
#[test]
fn mar_runtime_drop_joins_workers_promptly_after_run() {
    let start = std::time::Instant::now();
    let mut pool: WorkerPool<Job> = WorkerPool::new();
    let mut cx = Context::new(TaskWaker::new(TaskId(0)), 0);
    let slot = Rc::new(RefCell::new(ResultSlot::new()));
    let id = cx.next_blocking_id;
    let inbox = Shared(slot.clone());
    let job: Job = Box::new(move || {
        slot.borrow_mut().complete(Ok(21 * 2));
        id
    });
    let mut task = spawn_blocking(&mut cx, &mut pool, job, inbox);
    assert!(task.poll(&mut cx).is_pending());
    match pool.next() {
        Next::Run(job) => pool.finish(job()),
        _ => panic!("there is a job"),
    }
    assert_eq!(pool.drain_completed(), vec![BlockingId(0)]);
    assert_eq!(task.poll(&mut cx), Poll::Ready(Outcome::Value(42)));
    pool.shutdown();
    assert!(matches!(pool.next(), Next::Exit));
    assert!(start.elapsed() < std::time::Duration::from_millis(500));
}

// The first queued task that has not finished is polled; ids of finished tasks
// are skipped.
#[test]
fn stale_ids_are_skipped() {
    let order = Rc::new(RefCell::new(Vec::new()));
    let mut runtime = Mar::new();
    for name in ["a", "b"] {
        let order = order.clone();
        spawn_root(
            &mut runtime,
            root(move |_| {
                order.borrow_mut().push(name);
                Poll::Ready(())
            }),
        );
    }
    runtime.state.queue.insert(0, TaskId(77));
    runtime.state.queue.push(TaskId(0));
    assert_eq!(runtime.run(Event::Resumed { now: 0 }), Action::Resume);
    assert_eq!(runtime.state.queue, vec![TaskId(1), TaskId(0)]);
    assert_eq!(runtime.run(Event::Resumed { now: 0 }), Action::Resume);
    assert_eq!(runtime.run(Event::Resumed { now: 0 }), Action::Done);
    assert_eq!(*order.borrow(), vec!["a", "b"]);
    assert!(runtime.state.queue.is_empty());
}

// A task that yields goes behind the others.
#[test]
fn yielding_tasks_take_turns() {
    let order = Rc::new(RefCell::new(Vec::new()));
    let mut runtime = Mar::new();
    for name in ["a", "b"] {
        let order = order.clone();
        let mut future = yield_now();
        spawn_root(
            &mut runtime,
            root(move |cx| {
                order.borrow_mut().push(name);
                future.poll(cx)
            }),
        );
    }
    drive(&mut runtime, &jobs());
    assert_eq!(*order.borrow(), vec!["a", "b", "a", "b"]);
}

#[test]
fn runtime_parks_until_the_earliest_deadline() {
    let mut wheel = TimerHeap::new();
    assert_eq!(compute_timeout(&wheel, 5), None);
    wheel.push(30, TaskWaker::new(TaskId(0)));
    wheel.push(20, TaskWaker::new(TaskId(1)));
    assert_eq!(compute_timeout(&wheel, 5), Some(15));
    assert_eq!(compute_timeout(&wheel, 20), Some(0));
    assert_eq!(compute_timeout(&wheel, 25), Some(0));
}

#[test]
fn completion_wakes_only_its_task() {
    let mut runtime: Mar<Root> = Mar::new();
    runtime.state.blocking_wakers.insert(4, TaskWaker::new(TaskId(40)));
    runtime.state.blocking_wakers.insert(5, TaskWaker::new(TaskId(50)));
    let done = vec![BlockingId(5), BlockingId(9)];
    wake_completed_blocking(&mut runtime, &vec![3], &done);
    assert!(runtime.state.queue.is_empty());
    wake_completed_blocking(&mut runtime, &vec![3, WAKEN_TOKEN], &done);
    assert_eq!(runtime.state.queue, vec![TaskId(50)]);
    assert_eq!(runtime.state.blocking_wakers.len(), 2);
}

// Something that is waited for keeps a runtime without tasks from being done.
#[test]
fn runtime_is_not_done_while_something_is_waited_for() {
    let mut runtime: Mar<Root> = Mar::new();
    runtime.wheel.push(10, TaskWaker::new(TaskId(0)));
    assert_eq!(runtime.run(Event::Resumed { now: 4 }), Action::Park(Some(6)));
    let parked = Event::Parked { now: 10, tokens: Vec::new(), completed: Vec::new() };
    assert_eq!(runtime.run(parked), Action::Resume);
    assert_eq!(runtime.state.queue, vec![TaskId(0)]);
    runtime.state.blocking_wakers.insert(0, TaskWaker::new(TaskId(0)));
    assert_eq!(runtime.run(Event::Resumed { now: 10 }), Action::Park(None));
    runtime.state.blocking_wakers.remove(&0);
    assert_eq!(runtime.run(Event::Resumed { now: 10 }), Action::Done);
}

#[test]
fn blocking_task_goes_by_what_it_finds() {
    let mut cx = Context::new(TaskWaker::new(TaskId(3)), 0);
    cx.blocking_wakers.insert(90, TaskWaker::new(TaskId(9)));
    let mut task = spawn_blocking(&mut cx, &mut no_jobs(), (), ResultSlot::<u8, &str>::new());
    assert_eq!(task.id(), 0);
    assert_eq!(cx.next_blocking_id, BlockingId(1));
    let wakers = &mut cx.blocking_wakers;

    assert!(task.settle(wakers, cx.waker, Received::Empty).is_pending());
    assert_eq!(wakers.get(&0), Some(&TaskWaker::new(TaskId(3))));
    let other = TaskWaker::new(TaskId(4));
    assert_eq!(
        task.settle(wakers, other, Received::Disconnected),
        Poll::Ready(Outcome::Disconnected)
    );
    assert_eq!(wakers.get(&0), Some(&other));
    assert_eq!(
        task.settle(wakers, other, Received::Panicked("boom")),
        Poll::Ready(Outcome::Panicked("boom"))
    );
    assert_eq!(wakers.len(), 1);
    task.cancel(wakers);
    assert_eq!(wakers.len(), 1);

    let mut task = spawn_blocking(&mut cx, &mut no_jobs(), (), ResultSlot::<u8, &str>::new());
    let wakers = &mut cx.blocking_wakers;
    assert_eq!(
        task.settle(wakers, cx.waker, Received::Value(8)),
        Poll::Ready(Outcome::Value(8))
    );
    assert_eq!(wakers.len(), 1);
}

#[test]
fn blocking_task_learns_of_panics_and_lost_workers() {
    let mut cx = Context::new(TaskWaker::new(TaskId(3)), 0);
    let mut slot: ResultSlot<u8, &str> = ResultSlot::new();
    slot.complete(Err("boom"));
    slot.close();
    let mut task = spawn_blocking(&mut cx, &mut no_jobs(), (), slot);
    assert_eq!(task.poll(&mut cx), Poll::Ready(Outcome::Panicked("boom")));

    let mut slot: ResultSlot<u8, &str> = ResultSlot::new();
    slot.close();
    let mut task = spawn_blocking(&mut cx, &mut no_jobs(), (), slot);
    assert_eq!(task.poll(&mut cx), Poll::Ready(Outcome::Disconnected));
}

// A job that ends leaves word first, and the runtime is told: be it by a value or by a
// panic.
#[test]
fn ended_job_leaves_word_and_is_announced() {
    for result in [Ok(7), Err("boom")] {
        let mut pool: WorkerPool<()> = WorkerPool::new();
        pool.finish(BlockingId(1));
        pool.submit(());
        let mut slot: ResultSlot<u8, &str> = ResultSlot::new();
        conclude(&mut slot, &mut pool, BlockingId(4), result);
        match (slot.take(), result) {
            (Received::Value(value), Ok(expected)) => assert_eq!(value, expected),
            (Received::Panicked(payload), Err(expected)) => assert_eq!(payload, expected),
            _ => panic!("other word than was left"),
        }
        assert_eq!(pool.drain_completed(), vec![BlockingId(1), BlockingId(4)]);
        assert!(matches!(pool.next(), Next::Run(())));
    }
}

// Word of how a closure ended is taken once.
#[test]
fn slot_gives_its_word_once() {
    let mut slot: ResultSlot<u8, &str> = ResultSlot::new();
    assert!(matches!(slot.take(), Received::Empty));
    slot.complete(Ok(7));
    assert!(matches!(slot.take(), Received::Value(7)));
    assert!(matches!(slot.take(), Received::Disconnected));
}

// Every poll leaves its waker in the map.
#[test]
fn blocking_task_comes_back() {
    let mut cx = Context::new(TaskWaker::new(TaskId(3)), 0);
    let mut task = spawn_blocking(&mut cx, &mut no_jobs(), (), ResultSlot::<u8, &str>::new());
    assert!(task.poll(&mut cx).is_pending());
    cx.blocking_wakers.clear();
    cx.waker = TaskWaker::new(TaskId(4));
    assert!(task.poll(&mut cx).is_pending());
    assert_eq!(cx.blocking_wakers[&0], TaskWaker::new(TaskId(4)));
}

#[test]
fn slot_holds_what_was_installed_last() {
    let mut slot = ContextSlot::new();
    assert!(!slot.is_installed());
    slot.install(1);
    slot.install(2);
    assert_eq!(slot.with(|handle| *handle + 40), 42);
    slot.uninstall();
    assert!(!slot.is_installed());
}

// Spawning submits the job by itself, once, behind those that wait, and gives out ids
// one after the other.
#[test]
fn spawning_submits_the_job_before_any_poll() {
    let mut cx = Context::new(TaskWaker::new(TaskId(3)), 0);
    let mut pool = WorkerPool::new();
    pool.submit("first");
    let a = spawn_blocking(&mut cx, &mut pool, "second", ResultSlot::<u8, &str>::new());
    let b = spawn_blocking(&mut cx, &mut pool, "third", ResultSlot::<u8, &str>::new());
    assert_eq!((a.id(), b.id()), (0, 1));
    assert!(cx.blocking_wakers.is_empty());
    assert_eq!(pool.next(), Next::Run("first"));
    assert_eq!(pool.next(), Next::Run("second"));
    assert_eq!(pool.next(), Next::Run("third"));
    assert_eq!(pool.next(), Next::Wait);
}
