use mar::context::Context;
use mar::future::{Future, Poll};
use mar::runtime_state::TaskId;
use mar::task::all::JoinAll;
use mar::task::yield_now::yield_now;
use mar::task::{all, Task};
use mar::time::{sleep, Sleep};
use mar::waker::TaskWaker;

struct OnceReady<T>(Option<T>);

impl<T> Future for OnceReady<T> {
    type Context = ();
    type Output = T;

    fn poll(&mut self, _cx: &mut ()) -> Poll<T> {
        Poll::Ready(self.0.take().unwrap())
    }
}

#[derive(Debug)]
struct AlwaysPending;

impl Future for AlwaysPending {
    type Context = ();
    type Output = ();

    fn poll(&mut self, _cx: &mut ()) -> Poll<()> {
        Poll::Pending
    }
}

struct YieldTwice {
    yielded: usize,
}

impl Future for YieldTwice {
    type Context = ();
    type Output = u32;

    fn poll(&mut self, _cx: &mut ()) -> Poll<u32> {
        self.yielded += 1;
        if self.yielded < 2 {
            Poll::Pending
        } else {
            Poll::Ready(42)
        }
    }
}

#[test]
fn all_single_returns_value() {
    let mut join = JoinAll::new([OnceReady(Some(42u32))]);
    assert_eq!(join.poll(&mut ()), Poll::Ready([42]));
}

#[test]
fn all_zero_immediately_ready() {
    let mut join = JoinAll::<AlwaysPending, 0>::new([]);
    assert_eq!(join.poll(&mut ()), Poll::Ready([]));
}

#[test]
fn all_pending_then_ready_resumes() {
    let mut join = JoinAll::new([YieldTwice { yielded: 0 }]);
    assert_eq!(join.poll(&mut ()), Poll::Pending);
    assert_eq!(join.poll(&mut ()), Poll::Ready([42]));
}

#[test]
fn all_three_complete_in_order() {
    let mut join = JoinAll::new([
        OnceReady(Some(10u32)),
        OnceReady(Some(20u32)),
        OnceReady(Some(30u32)),
    ]);
    assert_eq!(join.poll(&mut ()), Poll::Ready([10, 20, 30]));
}

#[test]
fn all_unfinished_yields_pending() {
    let mut join = JoinAll::new([AlwaysPending, AlwaysPending]);
    assert_eq!(join.poll(&mut ()), Poll::Pending);
}

// A future that is ready after so many polls, and must not be polled again.
struct After {
    polls: usize,
    value: char,
    done: bool,
}

impl Future for After {
    type Context = Vec<char>;
    type Output = char;

    fn poll(&mut self, cx: &mut Vec<char>) -> Poll<char> {
        assert!(!self.done);
        cx.push(self.value);
        if self.polls == 0 {
            self.done = true;
            Poll::Ready(self.value)
        } else {
            self.polls -= 1;
            Poll::Pending
        }
    }
}

#[test]
fn all_keeps_outputs_in_their_places() {
    let mut polled = Vec::new();
    let mut join = all([
        After { polls: 1, value: 'a', done: false },
        After { polls: 0, value: 'b', done: false },
        After { polls: 2, value: 'c', done: false },
    ]);
    assert_eq!(join.poll(&mut polled), Poll::Pending);
    assert_eq!(join.poll(&mut polled), Poll::Pending);
    assert_eq!(join.poll(&mut polled), Poll::Ready(['a', 'b', 'c']));
    assert_eq!(polled, vec!['a', 'b', 'c', 'a', 'c', 'c']);
}

struct HugeFuture(Box<[u8; 64 * 1024]>);

impl Future for HugeFuture {
    type Context = ();
    type Output = ();

    fn poll(&mut self, _cx: &mut ()) -> Poll<()> {
        let _ = &self.0;
        Poll::Ready(())
    }
}

type Boxed = Box<dyn FnMut(&mut ()) -> Poll<()>>;

#[test]
fn new_wraps_future_with_id() {
    let huge_data = Box::new([0; 64 * 1024]);
    let mut huge = HugeFuture(huge_data);
    let boxed: Boxed = Box::new(move |cx| huge.poll(cx));
    let task = Task::new(TaskId(7), boxed, std::task::Waker::noop().clone());

    assert_eq!(task.id(), TaskId(7));

    let word = std::mem::size_of::<usize>();
    let data_ptr = word;
    let vtable_ptr = word;
    let id = word;
    let waker_ptr = word;
    let waker_vptr = word;
    let expected = data_ptr + vtable_ptr + id + waker_ptr + waker_vptr;
    assert_eq!(std::mem::size_of::<Task<std::task::Waker, Boxed>>(), expected);
}

struct Immediate;

impl Future for Immediate {
    type Context = ();
    type Output = ();

    fn poll(&mut self, _cx: &mut ()) -> Poll<()> {
        Poll::Ready(())
    }
}

#[test]
fn poll_returns_ready_when_future_completes() {
    let mut task = Task::new(TaskId(0), Immediate, std::task::Waker::noop().clone());
    assert_eq!(task.poll(&mut ()), Poll::Ready(()));
}

struct PollTwice {
    polled: usize,
}

impl Future for PollTwice {
    type Context = ();
    type Output = ();

    fn poll(&mut self, _cx: &mut ()) -> Poll<()> {
        self.polled += 1;
        if self.polled == 1 {
            Poll::Pending
        } else {
            Poll::Ready(())
        }
    }
}

#[test]
fn pending_then_ready_resumes_across_polls() {
    let mut task = Task::new(TaskId(0), PollTwice { polled: 0 }, std::task::Waker::noop().clone());

    assert_eq!(task.poll(&mut ()), Poll::Pending);
    assert_eq!(task.poll(&mut ()), Poll::Ready(()));
}

#[test]
fn task_keeps_its_waker() {
    let task = Task::new(TaskId(4), Immediate, TaskWaker::new(TaskId(4)));
    assert_eq!(*task.waker(), TaskWaker::new(TaskId(4)));
}

#[test]
fn yield_is_pending_once_and_queues_once() {
    let mut cx = Context::new(TaskWaker::new(TaskId(5)), 0);
    let mut future = yield_now();
    assert!(future.poll(&mut cx).is_pending());
    assert_eq!(cx.queue, vec![TaskId(5)]);
    assert!(future.poll(&mut cx).is_ready());
    assert!(future.poll(&mut cx).is_ready());
    assert_eq!(cx.queue, vec![TaskId(5)]);
}

#[test]
fn all_joins_sleeps_of_one_task() {
    let mut cx = Context::new(TaskWaker::new(TaskId(1)), 100);
    let mut join: JoinAll<Sleep, 2> = all([sleep(50, 100), sleep(20, 100)]);
    assert!(join.poll(&mut cx).is_pending());
    assert_eq!(mar::time::next_deadline(&cx.wheel), Some(120));
    cx.now = 130;
    assert!(join.poll(&mut cx).is_pending());
    cx.now = 150;
    assert_eq!(join.poll(&mut cx), Poll::Ready([(), ()]));
}
