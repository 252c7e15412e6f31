use std::cell::{Cell, RefCell};
use std::rc::Rc;

use mar::blocking::{spawn_blocking, BlockingTask, WorkerPool};
use mar::executor::{Context, Event, Runtime};
use mar::future::{Future, Poll};
use mar::io::{read, ReadAttempt, Readable, Writable, WriteAttempt};
use mar::mar::Action;
use mar::reactor::WAKEN_TOKEN;
use mar::runtime_state::{BlockingId, TaskId};
use mar::task::all;
use mar::task::blocking::{Inbox, Outcome, Received, ResultSlot};
use mar::task::worker_pool::Next;
use mar::timer_wheel::{sleep, yield_now, Sleep, YieldNow};
use mar::waker::TaskWaker;

const MILLI: u128 = 1_000_000;

// A future made of a closure.
struct Root(Box<dyn FnMut(&mut Context) -> Poll<()>>);

impl Future for Root {
    type Context = Context;
    type Output = ();

    fn poll(&mut self, cx: &mut Context) -> Poll<()> {
        (self.0)(cx)
    }
}

fn root(f: impl FnMut(&mut Context) -> Poll<()> + 'static) -> Root {
    Root(Box::new(f))
}

// What happens while the thread is parked: events come under tokens, and jobs,
// which are through at a certain time, end on a worker.
struct World {
    jobs: WorkerPool<(u128, Job)>,
    running: Option<(u128, Job)>,
    tokens: Vec<usize>,
}

type Job = Box<dyn FnOnce()>;

impl World {
    // When the job that a worker runs is through.
    fn job_at(&mut self) -> Option<u128> {
        if self.running.is_none() {
            if let Next::Run(job) = self.jobs.next() {
                self.running = Some(job);
            }
        }
        self.running.as_ref().map(|job| job.0)
    }
}

type Shared = Rc<RefCell<World>>;

fn drive(runtime: &mut Runtime<Root>, world: &Shared) -> u128 {
    let mut now: u128 = 1000;
    loop {
        let timeout = match runtime.run(Event::Resumed { now }).expect("run should not fail") {
            Action::Resume => continue,
            Action::Done => return now,
            Action::Park(timeout) => timeout,
        };
        let mut tokens = std::mem::take(&mut world.borrow_mut().tokens);
        if tokens.is_empty() {
            let timer_at = timeout.map(|timeout| now + timeout);
            let job_at = world.borrow_mut().job_at();
            now = match (timer_at, job_at) {
                (Some(timer), Some(job)) => now.max(timer.min(job)),
                (Some(at), None) | (None, Some(at)) => now.max(at),
                (None, None) => panic!("nothing will ever happen"),
            };
            if job_at.is_some_and(|at| at <= now) {
                let running = world.borrow_mut().running.take();
                (running.expect("a job ends").1)();
                tokens.push(WAKEN_TOKEN);
            }
        }
        runtime.run(Event::Parked { now, tokens }).expect("run should not fail");
    }
}

fn world() -> Shared {
    Rc::new(RefCell::new(World { jobs: WorkerPool::new(), running: None, tokens: Vec::new() }))
}

// A slot that the task and the worker share.
struct Word<R>(Rc<RefCell<ResultSlot<R, String>>>);

impl<R> Inbox for Word<R> {
    type Value = R;
    type Payload = String;

    fn take(&mut self) -> Received<R, String> {
        self.0.borrow_mut().take()
    }
}

fn submit_long<R: 'static>(
    cx: &mut Context,
    world: &Shared,
    duration: u128,
    f: impl FnOnce() -> Result<R, String> + 'static,
) -> BlockingTask<Word<R>> {
    let slot = Rc::new(RefCell::new(ResultSlot::new()));
    let inbox = Word(slot.clone());
    let job: Job = Box::new(move || slot.borrow_mut().complete(f()));
    let end = cx.now + duration;
    spawn_blocking(cx, &mut world.borrow_mut().jobs, (end, job), inbox)
}

// A pool for jobs that do not matter.
fn pool() -> WorkerPool<()> {
    WorkerPool::new()
}

fn submit<R: 'static>(
    cx: &mut Context,
    world: &Shared,
    f: impl FnOnce() -> Result<R, String> + 'static,
) -> BlockingTask<Word<R>> {
    submit_long(cx, world, 0, f)
}

#[test]
fn executor_new_runtime_has_empty_queue_and_task_map() {
    let runtime: Runtime<Root> = Runtime::new();
    let state = &runtime.state;
    assert!(state.queue.is_empty());
    assert!(state.tasks.is_empty());
    assert_eq!(state.next_id, TaskId(0));
}

#[test]
fn spawn_assigns_id_and_registers_the_future() {
    let mut runtime = Runtime::new();
    runtime.spawn(root(|_| Poll::Ready(())));
    runtime.spawn(root(|_| Poll::Ready(())));

    let state = &runtime.state;
    assert_eq!(state.next_id, TaskId(2));
    assert_eq!(state.queue, [TaskId(0), TaskId(1)]);
    assert_eq!(state.tasks[&0].id(), TaskId(0));
    assert_eq!(state.tasks[&1].id(), TaskId(1));
}

#[test]
fn run_returns_immediately_when_nothing_is_spawned() {
    let mut runtime: Runtime<Root> = Runtime::default();
    assert_eq!(
        runtime.run(Event::Resumed { now: 0 }).expect("run should not fail"),
        Action::Done
    );
    let state = &runtime.state;
    assert!(state.queue.is_empty());
    assert!(state.tasks.is_empty());
}

#[test]
fn run_completes_spawned_tasks_and_leaves_empty_state() {
    let polls = Rc::new(Cell::new(0usize));
    let mut runtime = Runtime::new();
    for _ in 0..3 {
        let polls = polls.clone();
        runtime.spawn(root(move |_| {
            polls.set(polls.get() + 1);
            Poll::Ready(())
        }));
    }

    drive(&mut runtime, &world());

    assert_eq!(polls.get(), 3);
    let state = &runtime.state;
    assert!(state.queue.is_empty());
    assert!(state.tasks.is_empty());
}

#[test]
fn executor_probe_future_re_polls_until_ready() {
    let polls = Rc::new(Cell::new(0usize));
    let mut runtime = Runtime::new();
    let target = 3;
    let counter = polls.clone();
    runtime.spawn(root(move |cx| {
        counter.set(counter.get() + 1);
        if counter.get() >= target {
            Poll::Ready(())
        } else {
            cx.waker.wake_by_ref(&mut cx.queue);
            Poll::Pending
        }
    }));

    drive(&mut runtime, &world());

    assert_eq!(polls.get(), 3);
    let state = &runtime.state;
    assert!(state.queue.is_empty());
    assert!(state.tasks.is_empty());
}

// A pipe in memory that takes so many bytes at a time.
#[derive(Default)]
struct Pipe {
    bytes: Vec<u8>,
    waiting: Option<usize>,
}

fn reader(pipe: Rc<RefCell<Pipe>>, got: Rc<RefCell<Vec<u8>>>) -> Root {
    let mut future: Option<Readable> = None;
    root(move |cx| {
        let future = future.get_or_insert_with(|| read(&mut cx.reactor));
        let attempt = if pipe.borrow().bytes.is_empty() {
            pipe.borrow_mut().waiting = Some(future.token);
            ReadAttempt::WouldBlock
        } else {
            let mut buf = Readable::buffer();
            let n = pipe.borrow().bytes.len();
            buf[..n].copy_from_slice(&pipe.borrow().bytes);
            ReadAttempt::Read { buf, n }
        };
        match future.poll(&mut cx.reactor, cx.waker, attempt).0 {
            Poll::Ready(bytes) => {
                *got.borrow_mut() = bytes;
                Poll::Ready(())
            }
            Poll::Pending => Poll::Pending,
        }
    })
}

fn writer(pipe: Rc<RefCell<Pipe>>, world: Shared, buf: Vec<u8>) -> Root {
    let mut future: Option<Writable> = None;
    root(move |cx| {
        let future = future.get_or_insert_with(|| mar::io::write(&mut cx.reactor, buf.clone()));
        pipe.borrow_mut().bytes.extend_from_slice(future.remaining());
        if let Some(token) = pipe.borrow_mut().waiting.take() {
            world.borrow_mut().tokens.push(token);
        }
        let attempt = WriteAttempt::Wrote(future.remaining().len());
        future.poll(&mut cx.reactor, cx.waker, attempt).0
    })
}

#[test]
fn run_wakes_a_task_parked_on_io_readiness() {
    let pipe = Rc::new(RefCell::new(Pipe::default()));
    let got = Rc::new(RefCell::new(Vec::new()));
    let mut runtime = Runtime::new();
    runtime.spawn(reader(pipe.clone(), got.clone()));

    assert_eq!(runtime.run(Event::Resumed { now: 0 }), Ok(Action::Resume));
    assert_eq!(runtime.run(Event::Resumed { now: 0 }), Ok(Action::Park(None)));
    pipe.borrow_mut().bytes.extend_from_slice(b"x");
    let token = pipe.borrow().waiting.unwrap();
    assert_eq!(
        runtime.run(Event::Parked { now: 20, tokens: vec![token] }),
        Ok(Action::Resume)
    );
    drive(&mut runtime, &world());

    assert_eq!(got.borrow().as_slice(), b"x");
    let state = &runtime.state;
    assert!(state.queue.is_empty());
    assert!(state.tasks.is_empty());
    assert!(runtime.reactor.is_empty());
}

#[test]
fn two_tasks_exchange_bytes_over_a_socket_pipe() {
    let pipe = Rc::new(RefCell::new(Pipe::default()));
    let shared = world();
    let mut runtime = Runtime::new();

    runtime.spawn(writer(pipe.clone(), shared.clone(), b"ping".to_vec()));

    let got = Rc::new(RefCell::new(Vec::new()));
    runtime.spawn(reader(pipe, got.clone()));

    drive(&mut runtime, &shared);

    assert_eq!(got.borrow().as_slice(), b"ping");
    assert!(runtime.reactor.is_empty());
}

#[test]
fn echo_demo_reader_and_writer_over_socket_pair() {
    let pipe = Rc::new(RefCell::new(Pipe::default()));
    let shared = world();
    let mut runtime = Runtime::new();

    // The reader comes first, so it has to park.
    let got = Rc::new(RefCell::new(Vec::new()));
    runtime.spawn(reader(pipe.clone(), got.clone()));
    runtime.spawn(writer(pipe, shared.clone(), b"hello echo".to_vec()));

    drive(&mut runtime, &shared);

    assert_eq!(got.borrow().as_slice(), b"hello echo");
}

#[test]
fn executor_spawn_blocking_smoke() {
    let mut runtime = Runtime::new();
    let shared = world();
    let done = Rc::new(Cell::new(false));
    {
        let done = done.clone();
        let shared = shared.clone();
        let mut task = None;
        runtime.spawn(root(move |cx| {
            let task = task.get_or_insert_with(|| submit(cx, &shared, || Ok(())));
            match task.poll(cx) {
                Poll::Ready(_) => {
                    done.set(true);
                    Poll::Ready(())
                }
                Poll::Pending => Poll::Pending,
            }
        }));
    }
    drive(&mut runtime, &shared);
    assert!(done.get());
}

#[test]
fn executor_dropped_spawn_blocking_leaves_blocking_map_empty() {
    let mut runtime = Runtime::new();
    runtime.spawn(root(|cx| {
        let mut fut = spawn_blocking(cx, &mut pool(), (), ResultSlot::<u32, String>::new());
        let id = fut.id();

        assert!(fut.poll(cx).is_pending());
        assert!(cx.blocking.contains_key(&id));

        fut.cancel(cx);
        assert!(cx.blocking.is_empty());
        Poll::Ready(())
    }));

    drive(&mut runtime, &world());
}

// After a run nothing keeps the pool's jobs from running out: a pool that is shut
// down lets its workers go at once.
#[test]
fn executor_runtime_drop_joins_workers_promptly_after_run() {
    let mut runtime = Runtime::new();
    let shared = world();
    let got = Rc::new(Cell::new(0));
    {
        let got = got.clone();
        let shared = shared.clone();
        let mut task = None;
        runtime.spawn(root(move |cx| {
            let task = task.get_or_insert_with(|| submit(cx, &shared, || Ok(21 * 2)));
            match task.poll(cx) {
                Poll::Ready(Outcome::Value(result)) => {
                    got.set(result);
                    Poll::Ready(())
                }
                Poll::Ready(_) => panic!("the closure returned"),
                Poll::Pending => Poll::Pending,
            }
        }));
    }
    drive(&mut runtime, &shared);
    assert_eq!(got.get(), 42);

    let start = std::time::Instant::now();
    drop(runtime);
    let jobs = &mut shared.borrow_mut().jobs;
    jobs.shutdown();
    assert!(matches!(jobs.next(), Next::Exit));
    assert!(start.elapsed() < std::time::Duration::from_millis(500));
}

// Every poll leaves its waker in the map.
#[test]
fn executor_blocking_task_comes_back() {
    let mut runtime = Runtime::new();
    runtime.spawn(root(|cx| {
        let mut task = spawn_blocking(cx, &mut pool(), (), ResultSlot::<u8, String>::new());
        assert!(task.poll(cx).is_pending());
        assert_eq!(cx.blocking[&0], TaskWaker::new(TaskId(0)));
        cx.blocking.clear();
        assert!(task.poll(cx).is_pending());
        assert_eq!(cx.blocking[&0], TaskWaker::new(TaskId(0)));
        task.cancel(cx);
        assert!(cx.blocking.is_empty());
        Poll::Ready(())
    }));

    drive(&mut runtime, &world());
}

// Two closures of one task have an id each: when one is given up, the other waits on.
#[test]
fn executor_blocking_siblings_wait_on() {
    let mut runtime = Runtime::new();
    runtime.spawn(root(|cx| {
        let mut one = spawn_blocking(cx, &mut pool(), (), ResultSlot::<u8, String>::new());
        let mut other = spawn_blocking(cx, &mut pool(), (), ResultSlot::<u8, String>::new());
        assert_eq!((one.id(), other.id()), (0, 1));
        assert_eq!(cx.next_blocking_id, BlockingId(2));
        assert!(one.poll(cx).is_pending());
        assert!(other.poll(cx).is_pending());
        assert_eq!(cx.blocking.len(), 2);
        one.cancel(cx);
        assert_eq!(cx.blocking.len(), 1);
        assert_eq!(cx.blocking[&1], TaskWaker::new(TaskId(0)));
        other.cancel(cx);
        Poll::Ready(())
    }));

    drive(&mut runtime, &world());
    assert_eq!(runtime.state.next_blocking_id, BlockingId(2));
}

// A task that joins two closures comes through, though one ends before the other.
#[test]
fn executor_joined_closures_both_end() {
    let mut runtime = Runtime::new();
    let shared = world();
    let got = Rc::new(RefCell::new(Vec::new()));
    {
        let got = got.clone();
        let shared = shared.clone();
        let mut join = None;
        runtime.spawn(root(move |cx| {
            let join = join.get_or_insert_with(|| {
                all([
                    submit_long(cx, &shared, 30 * MILLI, || Ok("late")),
                    submit_long(cx, &shared, 10 * MILLI, || Ok("early")),
                ])
            });
            match join.poll(cx) {
                Poll::Ready(outcomes) => {
                    got.borrow_mut().extend(outcomes);
                    Poll::Ready(())
                }
                Poll::Pending => Poll::Pending,
            }
        }));
    }
    drive(&mut runtime, &shared);
    assert_eq!(*got.borrow(), vec![Outcome::Value("late"), Outcome::Value("early")]);
    assert!(runtime.state.blocking_wakers.is_empty());
}

#[test]
fn spawn_blocking_round_trip_value() {
    let mut runtime = Runtime::new();
    let shared = world();
    let got = Rc::new(RefCell::new(String::new()));
    {
        let got = got.clone();
        let shared = shared.clone();
        let mut task = None;
        runtime.spawn(root(move |cx| {
            let task = task
                .get_or_insert_with(|| submit(cx, &shared, || Ok("hello worker".to_string())));
            match task.poll(cx) {
                Poll::Ready(Outcome::Value(result)) => {
                    *got.borrow_mut() = result;
                    Poll::Ready(())
                }
                Poll::Ready(_) => panic!("the closure returned"),
                Poll::Pending => Poll::Pending,
            }
        }));
    }

    drive(&mut runtime, &shared);

    assert_eq!(got.borrow().as_str(), "hello worker");
}

#[test]
fn two_spawn_blockings_both_complete() {
    let mut runtime = Runtime::new();
    let shared = world();
    let completed = Rc::new(Cell::new(0usize));
    for i in 0..2usize {
        let completed = completed.clone();
        let shared = shared.clone();
        let mut task = None;
        runtime.spawn(root(move |cx| {
            let task = task.get_or_insert_with(|| submit(cx, &shared, move || Ok(i * 10)));
            match task.poll(cx) {
                Poll::Ready(result) => {
                    assert_eq!(result, Outcome::Value(i * 10));
                    completed.set(completed.get() + 1);
                    Poll::Ready(())
                }
                Poll::Pending => Poll::Pending,
            }
        }));
    }

    drive(&mut runtime, &shared);

    assert_eq!(completed.get(), 2);
}

// The payload of a closure that panics comes back to the task that waits, which
// throws it again.
#[test]
#[should_panic(expected = "blocking closure exploded")]
fn panicking_blocking_closure_makes_run_panic() {
    let mut runtime = Runtime::new();
    let shared = world();
    let pool = shared.clone();
    let mut task: Option<BlockingTask<Word<()>>> = None;
    runtime.spawn(root(move |cx| {
        let task = task.get_or_insert_with(|| {
            submit(cx, &pool, || Err("blocking closure exploded".to_string()))
        });
        match task.poll(cx) {
            Poll::Ready(Outcome::Panicked(payload)) => panic!("{payload}"),
            Poll::Ready(_) => Poll::Ready(()),
            Poll::Pending => Poll::Pending,
        }
    }));
    drive(&mut runtime, &shared);
}

// A timer task does not wait for a closure on a worker: both take as long as the
// longer of the two.
#[test]
fn spawn_blocking_interleaves_with_timer() {
    let mut runtime = Runtime::new();
    let shared = world();

    let blocking_done = Rc::new(Cell::new(false));
    let timer_fired = Rc::new(Cell::new(false));

    {
        let done = blocking_done.clone();
        let fired = timer_fired.clone();
        let pool = shared.clone();
        let mut task: Option<BlockingTask<Word<u32>>> = None;
        runtime.spawn(root(move |cx| {
            let task =
                task.get_or_insert_with(|| submit_long(cx, &pool, 200 * MILLI, || Ok(42u32)));
            match task.poll(cx) {
                Poll::Ready(result) => {
                    assert_eq!(result, Outcome::Value(42));
                    assert!(fired.get());
                    done.set(true);
                    Poll::Ready(())
                }
                Poll::Pending => Poll::Pending,
            }
        }));
    }

    {
        let fired = timer_fired.clone();
        runtime.spawn(sleeper(50 * MILLI, move || fired.set(true)));
    }

    let elapsed = drive(&mut runtime, &shared) - 1000;

    assert!(blocking_done.get());
    assert!(timer_fired.get());
    assert!(elapsed >= 200 * MILLI);
    assert!(elapsed < 240 * MILLI);
}

fn sleeper(duration: u128, then: impl FnMut() + 'static) -> Root {
    let mut then = then;
    let mut future: Option<Sleep> = None;
    root(move |cx| {
        let future = future.get_or_insert_with(|| sleep(cx, duration));
        match future.poll(cx) {
            Poll::Ready(()) => {
                then();
                Poll::Ready(())
            }
            Poll::Pending => Poll::Pending,
        }
    })
}

#[test]
fn timer_wheel_sleep_zero_completes_in_runtime() {
    let mut runtime = Runtime::new();
    let flag = Rc::new(Cell::new(false));
    {
        let flag = flag.clone();
        runtime.spawn(sleeper(0, move || flag.set(true)));
    }
    drive(&mut runtime, &world());
    assert!(flag.get());
}

#[test]
fn concurrent_sleeps_run_in_parallel() {
    let mut runtime = Runtime::new();
    let counter = Rc::new(Cell::new(0usize));
    for _ in 0..2 {
        let c = counter.clone();
        runtime.spawn(sleeper(100 * MILLI, move || c.set(c.get() + 1)));
    }

    let elapsed = drive(&mut runtime, &world()) - 1000;

    assert_eq!(counter.get(), 2);
    assert!(elapsed < 125 * MILLI);
}

#[test]
fn timer_wheel_yield_now_returns_pending_then_ready() {
    let mut runtime = Runtime::new();
    let flag = Rc::new(Cell::new(false));
    {
        let flag = flag.clone();
        let mut future: YieldNow = yield_now();
        runtime.spawn(root(move |cx| match future.poll(cx) {
            Poll::Ready(()) => {
                flag.set(true);
                Poll::Ready(())
            }
            Poll::Pending => Poll::Pending,
        }));
    }
    drive(&mut runtime, &world());
    assert!(flag.get());
}

#[test]
fn concurrent_sleeps_and_yield_counter() {
    let mut runtime = Runtime::new();

    let sleeps_completed = Rc::new(Cell::new(0usize));
    let durations = [50 * MILLI, 100 * MILLI];

    for &d in &durations {
        let sc = sleeps_completed.clone();
        runtime.spawn(sleeper(d, move || sc.set(sc.get() + 1)));
    }

    let yields = 5;
    let counter = Rc::new(Cell::new(0usize));
    {
        let c = counter.clone();
        let mut future = yield_now();
        runtime.spawn(root(move |cx| loop {
            if c.get() == yields {
                return Poll::Ready(());
            }
            match future.poll(cx) {
                Poll::Pending => return Poll::Pending,
                Poll::Ready(()) => {
                    c.set(c.get() + 1);
                    future = yield_now();
                }
            }
        }));
    }

    let elapsed = drive(&mut runtime, &world()) - 1000;

    assert_eq!(sleeps_completed.get(), durations.len());
    assert_eq!(counter.get(), yields);
    assert!(elapsed >= 100 * MILLI);
    assert!(elapsed < 200 * MILLI);
}

// An event of the workers wakes everyone who waits for a worker, once for each
// such event.
#[test]
fn worker_event_wakes_all_who_wait() {
    let mut runtime: Runtime<Root> = Runtime::new();
    runtime.state.blocking_wakers.insert(4, TaskWaker::new(TaskId(4)));
    runtime.state.blocking_wakers.insert(5, TaskWaker::new(TaskId(5)));
    let tokens = vec![WAKEN_TOKEN, WAKEN_TOKEN];
    assert_eq!(runtime.run(Event::Parked { now: 0, tokens }), Ok(Action::Resume));
    let mut woken = runtime.state.queue.clone();
    woken.sort_by_key(|id| id.0);
    assert_eq!(woken, vec![TaskId(4), TaskId(4), TaskId(5), TaskId(5)]);
}

#[test]
fn deadlines_come_before_other_events() {
    let mut runtime: Runtime<Root> = Runtime::new();
    runtime.handle.wheel.push(10, 1);
    runtime.handle.wheel.push(30, 2);
    runtime.reactor.register(7, TaskWaker::new(TaskId(3)));
    runtime.state.blocking_wakers.insert(4, TaskWaker::new(TaskId(4)));
    let tokens = vec![7, WAKEN_TOKEN];
    assert_eq!(runtime.run(Event::Parked { now: 20, tokens }), Ok(Action::Resume));
    assert_eq!(runtime.state.queue, vec![TaskId(1), TaskId(4), TaskId(3)]);
    assert_eq!(runtime.run(Event::Resumed { now: 20 }), Ok(Action::Park(Some(10))));
}

#[test]
fn event_that_nobody_waits_for_is_an_error() {
    let mut runtime: Runtime<Root> = Runtime::new();
    runtime.reactor.register(7, TaskWaker::new(TaskId(3)));
    let tokens = vec![7, 8, 7];
    assert_eq!(runtime.run(Event::Parked { now: 0, tokens }), Err(8));
    assert_eq!(runtime.state.queue, vec![TaskId(3)]);
}
