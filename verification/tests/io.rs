use mar::future::Poll;
use mar::io::{read, ReadAttempt, Readable, SourceOp, WriteAttempt, READ_SIZE};
use mar::reactor::{dispatch, Interest, Reactor, WAKEN_TOKEN};
use mar::runtime_state::TaskId;
use mar::waker::TaskWaker;

fn some_bytes(bytes: &[u8]) -> ReadAttempt {
    let mut buf = Readable::buffer();
    buf[..bytes.len()].copy_from_slice(bytes);
    ReadAttempt::Read { buf, n: bytes.len() }
}

#[test]
fn readable_returns_bytes_from_pair() {
    let mut reactor = Reactor::new();
    let mut future = read(&mut reactor);
    let (outcome, op) = future.poll(&mut reactor, TaskWaker::new(TaskId(0)), some_bytes(b"hello"));
    assert_eq!(outcome, Poll::Ready(b"hello".to_vec()));
    assert_eq!(op, SourceOp::Deregister { token: 1 });
}

#[test]
fn readable_from_an_unparked_source_completes() {
    let mut reactor = Reactor::new();
    let mut future = read(&mut reactor);
    let (outcome, _) = future.poll(&mut reactor, TaskWaker::new(TaskId(0)), some_bytes(b"x"));
    assert_eq!(outcome, Poll::Ready(b"x".to_vec()));
    assert!(future.done);
    assert!(reactor.is_empty());
}

#[test]
fn writable_flushes_bytes_to_pair() {
    let mut reactor = Reactor::new();
    let mut future = mar::io::write(&mut reactor, b"world".to_vec());
    assert_eq!(future.remaining(), b"world");
    let (outcome, op) =
        future.poll(&mut reactor, TaskWaker::new(TaskId(0)), WriteAttempt::Wrote(5));
    assert_eq!(outcome, Poll::Ready(()));
    assert_eq!(op, SourceOp::Deregister { token: 1 });
    assert!(future.is_done());
    assert!(reactor.is_empty());
}

#[test]
fn readable_and_writable_coexist_on_separate_pairs() {
    let mut reactor = Reactor::new();
    let waker = TaskWaker::new(TaskId(0));
    let mut first = read(&mut reactor);
    let mut second = read(&mut reactor);
    assert_ne!(first.token, second.token);
    assert_eq!(
        first.poll(&mut reactor, waker, some_bytes(b"alpha")).0,
        Poll::Ready(b"alpha".to_vec())
    );
    assert_eq!(
        second.poll(&mut reactor, waker, some_bytes(b"beta")).0,
        Poll::Ready(b"beta".to_vec())
    );
}

#[test]
fn writable_partial_write_stores_waker() {
    let mut reactor = Reactor::new();
    let payload = vec![0xAB_u8; 1024 * 1024];
    let mut fut = mar::io::write(&mut reactor, payload);
    let result = fut
        .poll(&mut reactor, TaskWaker::new(TaskId(0)), WriteAttempt::Wrote(212_992))
        .0;
    assert_eq!(result, Poll::Pending);
    assert!(!reactor.is_empty(), "waker was not stored");
    assert_eq!(fut.remaining().len(), 1024 * 1024 - 212_992);
}

#[test]
fn read_waits_for_a_source_and_is_watched_once() {
    let mut reactor = Reactor::new();
    let waker = TaskWaker::new(TaskId(6));
    let mut future = read(&mut reactor);
    assert_eq!(
        future.poll(&mut reactor, waker, ReadAttempt::WouldBlock),
        (Poll::Pending, SourceOp::Register { token: 1, interest: Interest::Readable })
    );
    assert_eq!(
        future.poll(&mut reactor, waker, ReadAttempt::WouldBlock),
        (Poll::Pending, SourceOp::Keep)
    );
    let mut queue = Vec::new();
    assert_eq!(dispatch(&reactor, &vec![1], &mut queue), Ok(()));
    assert_eq!(queue, vec![TaskId(6)]);
    assert!(future.poll(&mut reactor, waker, some_bytes(b"ab")).0.is_ready());
    assert!(reactor.is_empty());
    assert_eq!(
        future.poll(&mut reactor, waker, some_bytes(b"more")),
        (Poll::Ready(Vec::new()), SourceOp::Keep)
    );
}

#[test]
fn source_takes_the_whole_buffer_go_by_go() {
    let mut reactor = Reactor::new();
    let waker = TaskWaker::new(TaskId(6));
    let mut future = mar::io::write(&mut reactor, b"abcdef".to_vec());
    let mut taken = Vec::new();
    for n in [2usize, 0, 3, 1] {
        taken.extend_from_slice(&future.remaining()[..n]);
        let (outcome, op) = future.poll(&mut reactor, waker, WriteAttempt::Wrote(n));
        assert_eq!(outcome.is_ready(), taken.len() == 6);
        if taken.len() == 2 && n == 2 {
            assert_eq!(op, SourceOp::Register { token: 1, interest: Interest::Writable });
        }
    }
    assert_eq!(taken, b"abcdef");
    assert_eq!(
        future.poll(&mut reactor, waker, WriteAttempt::WouldBlock),
        (Poll::Ready(()), SourceOp::Keep)
    );
}

#[test]
fn write_that_would_block_waits() {
    let mut reactor = Reactor::new();
    let waker = TaskWaker::new(TaskId(6));
    let mut future = mar::io::write(&mut reactor, b"ab".to_vec());
    assert_eq!(
        future.poll(&mut reactor, waker, WriteAttempt::WouldBlock),
        (Poll::Pending, SourceOp::Register { token: 1, interest: Interest::Writable })
    );
    assert_eq!(future.remaining(), b"ab");
    assert_eq!(future.cancel(&mut reactor), SourceOp::Deregister { token: 1 });
    assert!(reactor.is_empty());
}

#[test]
fn empty_write_is_done_at_once() {
    let mut reactor = Reactor::new();
    let mut future = mar::io::write(&mut reactor, Vec::new());
    let step = future.poll(&mut reactor, TaskWaker::new(TaskId(6)), WriteAttempt::Wrote(0));
    assert_eq!(step, (Poll::Ready(()), SourceOp::Deregister { token: 1 }));
}

#[test]
fn read_that_is_given_up_leaves_the_reactor() {
    let mut reactor = Reactor::new();
    let waker = TaskWaker::new(TaskId(6));
    let mut future = read(&mut reactor);
    let mut other = read(&mut reactor);
    future.poll(&mut reactor, waker, ReadAttempt::WouldBlock);
    other.poll(&mut reactor, waker, ReadAttempt::WouldBlock);
    assert_eq!(future.cancel(&mut reactor), SourceOp::Deregister { token: 1 });
    assert!(!reactor.is_empty());
    other.poll(&mut reactor, waker, some_bytes(b""));
    assert_eq!(other.cancel(&mut reactor), SourceOp::Keep);
    assert!(reactor.is_empty());
}

#[test]
fn tokens_are_all_different() {
    let mut reactor: Reactor<TaskWaker> = Reactor::new();
    let a = reactor.allocate_token();
    let b = reactor.allocate_token();
    assert_ne!(a, WAKEN_TOKEN);
    assert_ne!(a, b);
}

#[test]
fn dispatch_passes_over_the_workers() {
    let mut reactor = Reactor::new();
    reactor.register(2, TaskWaker::new(TaskId(20)));
    reactor.register(2, TaskWaker::new(TaskId(21)));
    reactor.register(3, TaskWaker::new(TaskId(30)));
    let mut queue = vec![TaskId(1)];
    assert_eq!(dispatch(&reactor, &vec![3, WAKEN_TOKEN, 2], &mut queue), Ok(()));
    assert_eq!(queue, vec![TaskId(1), TaskId(30), TaskId(21)]);
    reactor.deregister(3);
    assert_eq!(dispatch(&reactor, &vec![2, 3, 2], &mut queue), Err(3));
    assert_eq!(queue.len(), 4);
}

#[test]
fn read_buffer_has_its_size() {
    assert_eq!(Readable::buffer(), vec![0u8; READ_SIZE]);
    assert_eq!(READ_SIZE, 64);
}
