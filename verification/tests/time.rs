use mar::context::Context;
use mar::future::Future;
use mar::runtime_state::TaskId;
use mar::time;
use mar::time::sleep::{Sleep as RegistrySleep, SleepContext};
use mar::time::timer_registry::TimerRegistry;
use mar::time::{Sleep, TimerHeap};
use mar::waker::TaskWaker;

const MILLI: u128 = 1_000_000;
const SECOND: u128 = 1000 * MILLI;

#[test]
fn heap_is_min_heap_by_deadline() {
    let now: u128 = 5 * SECOND;
    let mut heap = TimerHeap::new();
    heap.push(now + 100 * MILLI, std::task::Waker::noop().clone());
    heap.push(now + 50 * MILLI, std::task::Waker::noop().clone());
    heap.push(now + 150 * MILLI, std::task::Waker::noop().clone());

    let first = heap.pop().unwrap();
    let second = heap.pop().unwrap();
    let third = heap.pop().unwrap();

    assert!(first.deadline <= second.deadline);
    assert!(second.deadline <= third.deadline);
    assert_eq!(first.deadline, now + 50 * MILLI);
    assert!(heap.pop().is_none());
}

#[test]
fn time_dropped_sleep_removes_itself_from_heap() {
    let mut cx = Context::new(TaskWaker::new(TaskId(1)), 7 * SECOND);
    let mut sleep_val = Sleep {
        deadline: cx.now + 1000 * SECOND,
        id: None,
        done: false,
    };

    assert!(sleep_val.poll(&mut cx).is_pending());
    assert!(!cx.wheel.is_empty());

    sleep_val.cancel(&mut cx.wheel);
    assert!(cx.wheel.is_empty());
}

#[test]
fn sleep_dropped_sleep_removes_itself_from_heap() {
    let mut cx = SleepContext {
        waker: TaskWaker::new(TaskId(1)),
        now: 7 * SECOND,
        registry: TimerRegistry::new(),
    };
    let mut sleep_val = RegistrySleep {
        deadline: cx.now + 1000 * SECOND,
        id: None,
        done: false,
    };

    assert!(sleep_val.poll(&mut cx).is_pending());
    assert!(!cx.registry.is_empty());

    sleep_val.cancel(&mut cx.registry);
    assert!(cx.registry.is_empty());
}

#[test]
fn next_deadline_finds_earliest() {
    let now: u128 = 5 * SECOND;
    let mut heap = TimerRegistry::new();
    heap.push(now + 100 * MILLI, std::task::Waker::noop().clone());
    heap.push(now + 50 * MILLI, std::task::Waker::noop().clone());
    heap.push(now + 150 * MILLI, std::task::Waker::noop().clone());

    assert_eq!(heap.next_deadline().unwrap(), now + 50 * MILLI);
}

#[test]
fn expire_due_wakes_only_expired_entries() {
    let now: u128 = 5 * SECOND;
    let mut queue = Vec::new();
    let mut heap = TimerRegistry::new();

    let waker_past = TaskWaker::new(TaskId(10));
    let waker_future = TaskWaker::new(TaskId(20));

    heap.push(now - SECOND, waker_past);
    heap.push(now + 1000 * SECOND, waker_future);

    heap.expire_due(now, &mut queue);

    assert_eq!(queue, vec![TaskId(10)]);
    assert!(!heap.is_empty());
    assert!(heap.next_deadline().is_some());
}

#[test]
fn registry_fires_in_the_order_of_adding() {
    let mut queue = vec![TaskId(9)];
    let mut registry = TimerRegistry::new();
    assert_eq!(registry.push(30, TaskWaker::new(TaskId(1))), 0);
    assert_eq!(registry.push(90, TaskWaker::new(TaskId(2))), 1);
    assert_eq!(registry.push(10, TaskWaker::new(TaskId(3))), 2);
    registry.expire_due(30, &mut queue);
    assert_eq!(queue, vec![TaskId(9), TaskId(1), TaskId(3)]);
    assert_eq!(registry.next_deadline(), Some(90));
}

#[test]
fn registry_removes_by_id() {
    let mut registry = TimerRegistry::new();
    let first = registry.push(30, TaskWaker::new(TaskId(1)));
    registry.push(20, TaskWaker::new(TaskId(1)));
    registry.remove(first);
    assert_eq!(registry.next_deadline(), Some(20));
    registry.remove(first);
    assert!(!registry.is_empty());
}

#[test]
fn heap_fires_the_earliest_first() {
    let mut queue = Vec::new();
    let mut heap = TimerHeap::new();
    heap.push(30, TaskWaker::new(TaskId(1)));
    heap.push(10, TaskWaker::new(TaskId(2)));
    heap.push(30, TaskWaker::new(TaskId(3)));
    heap.push(40, TaskWaker::new(TaskId(4)));
    time::expire_due(&mut heap, 9, &mut queue);
    assert!(queue.is_empty());
    time::expire_due(&mut heap, 30, &mut queue);
    assert_eq!(queue, vec![TaskId(2), TaskId(1), TaskId(3)]);
    assert_eq!(time::next_deadline(&heap), Some(40));
}

#[test]
fn heap_removes_only_the_given_timer() {
    let mut heap = TimerHeap::new();
    let a = heap.push(30, TaskWaker::new(TaskId(1)));
    let b = heap.push(10, TaskWaker::new(TaskId(1)));
    assert_ne!(a, b);
    heap.remove(b);
    assert_eq!(time::next_deadline(&heap), Some(30));
    heap.remove(a);
    assert!(heap.is_empty());
    assert_eq!(time::next_deadline(&heap), None);
}

#[test]
fn sleep_is_over_at_its_deadline_and_not_before() {
    let mut cx = Context::new(TaskWaker::new(TaskId(1)), 100);
    let mut future = time::sleep(50, cx.now);
    assert!(future.poll(&mut cx).is_pending());
    assert!(future.poll(&mut cx).is_pending());
    assert_eq!(future.id, Some(0));
    cx.now = 149;
    assert!(future.poll(&mut cx).is_pending());
    cx.now = 150;
    assert!(future.poll(&mut cx).is_ready());
    cx.now = 0;
    assert!(future.poll(&mut cx).is_ready());
    // Once over, giving the sleep up leaves the heap alone.
    future.cancel(&mut cx.wheel);
    assert!(!cx.wheel.is_empty());
}

#[test]
fn sleep_of_no_length_never_touches_the_heap() {
    let mut cx = Context::new(TaskWaker::new(TaskId(1)), 100);
    let mut future = time::sleep(0, cx.now);
    assert!(future.poll(&mut cx).is_ready());
    assert!(cx.wheel.is_empty());
}

#[test]
fn registry_sleep_is_over_at_its_deadline() {
    let mut cx = SleepContext {
        waker: TaskWaker::new(TaskId(1)),
        now: 100,
        registry: TimerRegistry::new(),
    };
    let mut future = time::sleep::sleep(50, cx.now);
    assert!(future.poll(&mut cx).is_pending());
    cx.now = 150;
    assert!(future.poll(&mut cx).is_ready());
}
