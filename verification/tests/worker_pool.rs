use std::cell::Cell;
use std::rc::Rc;

use mar::blocking::WorkerPool as BlockingPool;
use mar::runtime_state::BlockingId;
use mar::task::worker_pool::{Next, Order, Worker, WorkerPool};

type Job = Box<dyn FnOnce()>;

// What a worker does until it waits or stops.
fn work(pool: &mut WorkerPool<Job>) -> bool {
    loop {
        match pool.next() {
            Next::Run(job) => job(),
            Next::Wait => return false,
            Next::Exit => return true,
        }
    }
}

#[test]
fn blocking_worker_runs_a_closure() {
    let counter = Rc::new(Cell::new(0));
    let mut pool: BlockingPool<Job> = BlockingPool::new();

    let c = counter.clone();
    pool.submit(Box::new(move || c.set(42)));

    pool.shutdown();
    assert!(work(&mut pool));

    assert_eq!(counter.get(), 42);
}

#[test]
fn blocking_workers_exit_when_pool_is_dropped() {
    let mut pool: BlockingPool<Job> = BlockingPool::new();
    pool.shutdown();
    assert!(work(&mut pool));
}

#[test]
fn jobs_submitted_before_drop_complete() {
    let mut pool: BlockingPool<Job> = BlockingPool::new();
    let counter = Rc::new(Cell::new(0));

    for _ in 0..3 {
        let c = counter.clone();
        pool.submit(Box::new(move || c.set(c.get() + 1)));
    }

    pool.shutdown();
    assert!(work(&mut pool));
    assert_eq!(counter.get(), 3);
}

#[test]
fn worker_pool_worker_runs_a_closure() {
    let counter = Rc::new(Cell::new(0));
    let mut pool: WorkerPool<Job> = WorkerPool::new();

    let c = counter.clone();
    pool.submit(Box::new(move || c.set(42)));

    assert!(!work(&mut pool));
    pool.shutdown();
    assert!(work(&mut pool));

    assert_eq!(counter.get(), 42);
}

#[test]
fn worker_pool_workers_exit_when_pool_is_dropped() {
    let mut pool: WorkerPool<Job> = WorkerPool::new();
    assert!(!work(&mut pool));
    pool.shutdown();
    assert!(work(&mut pool));
}

#[test]
fn jobs_sent_before_drop_complete() {
    let mut pool: WorkerPool<Job> = WorkerPool::new();
    let counter = Rc::new(Cell::new(0));

    for _ in 0..3 {
        let c = counter.clone();
        pool.submit(Box::new(move || c.set(c.get() + 1)));
    }

    pool.shutdown();
    assert!(work(&mut pool));
    assert_eq!(counter.get(), 3);
}

#[test]
fn jobs_are_handed_out_in_turn() {
    let mut pool = WorkerPool::with_count(3);
    assert_eq!(pool.workers(), 3);
    assert!(pool.is_open());
    pool.submit('a');
    pool.submit('b');
    assert_eq!(pool.next(), Next::Run('a'));
    pool.shutdown();
    pool.shutdown();
    assert!(!pool.is_open());
    assert_eq!(pool.next(), Next::Run('b'));
    assert_eq!(pool.next(), Next::Exit);
    assert_eq!(pool.next(), Next::Exit);
}

#[test]
fn pool_has_one_worker_by_default() {
    let pool: WorkerPool<Job> = WorkerPool::new();
    assert_eq!(pool.workers(), 1);
}

#[test]
fn completed_closures_are_handed_over_once() {
    let mut pool: WorkerPool<Job> = WorkerPool::new();
    pool.finish(BlockingId(2));
    pool.finish(BlockingId(1));
    assert_eq!(pool.drain_completed(), vec![BlockingId(2), BlockingId(1)]);
    assert!(pool.drain_completed().is_empty());
}

// Whichever workers have their turns, every job is run once and in turn, each worker
// wakes the runtime once per job, and none stops before the jobs are gone.
#[test]
fn workers_share_the_jobs() {
    let mut pool = WorkerPool::with_count(3);
    let mut workers = vec![Worker::Free; pool.workers()];
    let (mut run, mut ran, mut woke) = (Vec::new(), vec![0; 3], vec![0; 3]);
    for job in 0..10 {
        pool.submit(job);
    }
    let mut turn = 0usize;
    while workers.iter().any(|worker| *worker != Worker::Stopped) {
        let w = (turn * turn + turn / 3) % 3;
        match workers[w].advance(&mut pool) {
            Order::Run(job) => {
                run.push(job);
                ran[w] += 1;
            }
            Order::Wake => woke[w] += 1,
            Order::Wait => panic!("there are jobs, or no more will come"),
            Order::Stop => assert_eq!(run.len(), 10),
        }
        turn += 1;
        if turn == 7 {
            pool.shutdown();
        }
    }
    assert_eq!(run, (0..10).collect::<Vec<_>>());
    assert_eq!(ran, woke);
}

// A worker wakes the runtime after every job, and goes on.
#[test]
fn worker_wakes_after_every_job() {
    let mut pool = WorkerPool::new();
    let mut worker = Worker::Free;
    assert_eq!(worker.advance(&mut pool), Order::Wait);
    pool.submit('a');
    pool.submit('b');
    pool.shutdown();
    assert_eq!(worker.advance(&mut pool), Order::Run('a'));
    assert_eq!(worker, Worker::Busy);
    assert_eq!(worker.advance(&mut pool), Order::Wake);
    assert_eq!(worker.advance(&mut pool), Order::Run('b'));
    assert_eq!(worker.advance(&mut pool), Order::Wake);
    assert_eq!(worker.advance(&mut pool), Order::Stop);
    assert_eq!(worker, Worker::Stopped);
    assert_eq!(worker.advance(&mut pool), Order::Stop);
}
