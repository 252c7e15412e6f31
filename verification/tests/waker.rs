use std::sync::{Arc, Mutex};

use mar::runtime_state::TaskId;
use mar::waker::TaskWaker;

#[test]
fn wake_pushes_id_to_queue() {
    let mut queue = Vec::new();
    let waker = TaskWaker::new(TaskId(7));
    waker.wake(&mut queue);
    assert_eq!(queue.clone(), vec![TaskId(7)]);
}

#[test]
fn wake_by_ref_is_reusable() {
    let mut queue = Vec::new();
    let waker = TaskWaker::new(TaskId(7));
    waker.wake_by_ref(&mut queue);
    waker.wake_by_ref(&mut queue);
    assert_eq!(queue.clone(), vec![TaskId(7), TaskId(7)]);
}

#[test]
fn clone_shares_identity() {
    let mut queue = Vec::new();
    let waker = TaskWaker::new(TaskId(7));
    let clone = waker.clone();
    waker.wake(&mut queue);
    clone.wake(&mut queue);
    assert_eq!(queue.clone(), vec![TaskId(7), TaskId(7)]);
}

#[test]
fn different_ids_share_queue() {
    let mut queue = Vec::new();
    let a = TaskWaker::new(TaskId(1));
    let b = TaskWaker::new(TaskId(2));
    a.wake(&mut queue);
    b.wake(&mut queue);
    let mut drained: Vec<_> = std::mem::take(&mut queue);
    drained.sort_by_key(|id| id.0);
    assert_eq!(drained, vec![TaskId(1), TaskId(2)]);
}

// Whoever holds a waker and a share of the queue can wake when the runtime's own share
// is gone.
#[test]
fn waker_keeps_queue_alive() {
    let queue = Arc::new(Mutex::new(Vec::new()));
    let (share, waker) = (queue.clone(), TaskWaker::new(TaskId(99)));
    drop(queue);
    waker.wake(&mut share.lock().unwrap());
    assert_eq!(*share.lock().unwrap(), vec![TaskId(99)]);
}

#[test]
fn wakers_of_one_task_are_equal() {
    assert_eq!(TaskWaker::new(TaskId(3)), TaskWaker::new(TaskId(3)));
    assert_ne!(TaskWaker::new(TaskId(3)), TaskWaker::new(TaskId(4)));
}
