use std::collections::HashMap;

use mar::executor::Context;
use mar::future::Future;
use mar::reactor::Reactor;
use mar::runtime_state::{BlockingId, TaskId};
use mar::timer_wheel::{self, sleep, yield_now, Sleep, TimerWheel, WheelHandle};
use mar::waker::TaskWaker;

const MILLI: u128 = 1_000_000;
const SECOND: u128 = 1000 * MILLI;

fn context(id: usize, now: u128) -> Context {
    let mut handle = WheelHandle::install(TimerWheel::new());
    handle.set_current_id(id);
    Context {
        waker: TaskWaker::new(TaskId(id)),
        now,
        queue: Vec::new(),
        handle,
        reactor: Reactor::new(),
        blocking: HashMap::new(),
        next_blocking_id: BlockingId(0),
    }
}

#[test]
fn wheel_is_min_heap_by_deadline() {
    let now: u128 = 5 * SECOND;
    let mut wheel = TimerWheel::new();
    wheel.push(now + 100 * MILLI, 1);
    wheel.push(now + 50 * MILLI, 2);
    wheel.push(now + 150 * MILLI, 3);

    assert_eq!(wheel.pop().unwrap().1, 2); // 50ms, the earliest
    assert_eq!(wheel.pop().unwrap().1, 1); // 100ms
    assert_eq!(wheel.pop().unwrap().1, 3); // 150ms, the latest
    assert!(wheel.is_empty());
}

#[test]
fn dropped_sleep_removes_itself_from_wheel() {
    let mut cx = context(1, 7 * SECOND);
    let mut sleep_val = Sleep {
        deadline: cx.now + 1000 * SECOND,
        id: 1,
        waker: None,
        done: false,
    };

    assert!(sleep_val.poll(&mut cx).is_pending());
    assert_eq!(cx.handle.wheel.peek().unwrap().1, 1);

    sleep_val.cancel(&mut cx.handle.wheel);
    assert!(cx.handle.wheel.is_empty());
}

#[test]
fn equal_deadlines_pass_by_task() {
    let mut wheel = TimerWheel::new();
    wheel.push(10, 8);
    wheel.push(10, 3);
    wheel.push(5, 9);
    wheel.push(11, 1);
    assert_eq!(timer_wheel::next_deadline(&wheel), Some(5));
    assert_eq!(timer_wheel::expire_due(&mut wheel, 10), vec![9, 3, 8]);
    assert_eq!(timer_wheel::next_deadline(&wheel), Some(11));
    assert_eq!(timer_wheel::expire_due(&mut wheel, 10), Vec::<usize>::new());
}

#[test]
fn sleep_belongs_to_the_task_that_is_polled() {
    let mut cx = context(6, 100);
    let mut future = sleep(&cx, 50);
    assert_eq!(future.id, 6);
    assert_eq!(future.deadline, 150);
    assert!(future.poll(&mut cx).is_pending());
    assert!(future.poll(&mut cx).is_pending());
    assert_eq!(timer_wheel::expire_due(&mut cx.handle.wheel, 149), Vec::<usize>::new());
    assert_eq!(timer_wheel::expire_due(&mut cx.handle.wheel, 150), vec![6]);
    cx.now = 150;
    assert!(future.poll(&mut cx).is_ready());
}

// Two sleeps of one task: giving one up leaves the other's deadline on the wheel,
// even where both have the same one.
#[test]
fn giving_a_sleep_up_leaves_other_sleeps_of_its_task() {
    let mut cx = context(1, 0);
    let mut short = sleep(&cx, 10);
    let mut long = sleep(&cx, 30);
    let mut twin = sleep(&cx, 30);
    cx.handle.wheel.push(20, 2);
    assert!(short.poll(&mut cx).is_pending());
    assert!(long.poll(&mut cx).is_pending());
    assert!(twin.poll(&mut cx).is_pending());
    short.cancel(&mut cx.handle.wheel);
    long.cancel(&mut cx.handle.wheel);
    assert_eq!(cx.handle.wheel.pop(), Some((20, 2)));
    assert_eq!(cx.handle.wheel.pop(), Some((30, 1)));
    assert_eq!(cx.handle.wheel.pop(), None);
}

// A sleep that was never polled has nothing on the wheel to take off.
#[test]
fn giving_up_an_unpolled_sleep_clears_nothing() {
    let mut wheel = TimerWheel::new();
    wheel.push(10, 1);
    Sleep { deadline: 10, id: 1, waker: None, done: false }.cancel(&mut wheel);
    assert_eq!(wheel.peek(), Some((10, 1)));
}

#[test]
fn sleep_that_is_over_clears_nothing() {
    let mut wheel = TimerWheel::new();
    wheel.push(10, 1);
    Sleep { deadline: 5, id: 1, waker: None, done: true }.cancel(&mut wheel);
    assert_eq!(wheel.peek(), Some((10, 1)));
}

#[test]
fn wheel_yield_is_pending_once() {
    let mut cx = context(2, 0);
    let mut future = yield_now();
    assert!(future.poll(&mut cx).is_pending());
    assert!(future.poll(&mut cx).is_ready());
    assert_eq!(cx.queue, vec![TaskId(2)]);
}

#[test]
fn handle_knows_the_task_that_is_polled() {
    let mut handle = WheelHandle::install(TimerWheel::new());
    assert_eq!(handle.current_id, None);
    handle.set_current_id(4);
    assert_eq!(handle.current_id(), 4);
    handle.clear_current_id();
    assert_eq!(handle.current_id, None);
}
