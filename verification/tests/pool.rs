use worker_pool::pool::{Polled, ThreadPool, ThreadPoolError};
use worker_pool::worker::{Worker, WorkerState};

#[test]
fn build_zero_is_error() {
    let r = ThreadPool::build(0);
    assert!(matches!(r, Err(ThreadPoolError::ZeroSizedPool)));
}

#[test]
fn build_positive_sizes() {
    for n in 1..=4 {
        let p = ThreadPool::build(n).unwrap();
        assert_eq!(p.worker_count(), n);
        assert!(p.is_open());
        assert_eq!(p.pending_count(), 0);
        for w in 0..n {
            assert_eq!(p.worker_state(w), WorkerState::Polling);
            assert_eq!(p.worker_id(w), w);
        }
    }
}

#[test]
fn new_makes_pool() {
    let p = ThreadPool::new(3);
    assert_eq!(p.worker_count(), 3);
    assert!(p.is_open());
}

#[test]
fn worker_new_starts_polling() {
    let w = Worker::new(5);
    assert_eq!(w.id, 5);
    assert_eq!(w.state, WorkerState::Polling);
}

#[test]
fn single_job_runs_once() {
    let mut p = ThreadPool::build(4).unwrap();
    p.execute(1);
    let got = p.poll(0);
    assert_eq!(got, Polled::Job { job: 1 });
    assert_eq!(p.worker_state(0), WorkerState::Executing { job: 1 });
    p.finish(0);
    assert_eq!(p.finished_jobs(), &vec![1]);
    p.shutdown();
    assert!(!p.is_open());
    assert_eq!(p.finished_jobs(), &vec![1]);
    for w in 0..4 {
        assert_eq!(p.worker_state(w), WorkerState::Terminated);
    }
}

#[test]
fn three_jobs_two_workers_all_finish_once() {
    let mut p = ThreadPool::build(2).unwrap();
    p.execute(10);
    p.execute(11);
    p.execute(12);
    p.shutdown();
    let fin = p.finished_jobs();
    assert_eq!(fin.len(), 3);
    for id in [10, 11, 12] {
        assert_eq!(fin.iter().filter(|&&x| x == id).count(), 1);
    }
    assert_eq!(p.delivered_jobs(), &vec![10, 11, 12]);
}

#[test]
fn teardown_waits_for_running_job() {
    let mut p = ThreadPool::build(2).unwrap();
    p.execute(42);
    let got = p.poll(0);
    assert_eq!(got, Polled::Job { job: 42 });
    assert_eq!(p.worker_state(0), WorkerState::Executing { job: 42 });
    p.shutdown();
    assert!(p.finished_jobs().contains(&42));
    for w in 0..2 {
        assert_eq!(p.worker_state(w), WorkerState::Terminated);
    }
    assert_eq!(p.pending_count(), 0);
}

#[test]
fn all_workers_execute_concurrently() {
    let mut p = ThreadPool::build(3).unwrap();
    p.execute(1);
    p.execute(2);
    p.execute(3);
    p.dispatch_to_all();
    assert_eq!(p.worker_state(0), WorkerState::Executing { job: 1 });
    assert_eq!(p.worker_state(1), WorkerState::Executing { job: 2 });
    assert_eq!(p.worker_state(2), WorkerState::Executing { job: 3 });
    assert_eq!(p.pending_count(), 0);
    p.shutdown();
    assert_eq!(p.finished_jobs().len(), 3);
}

#[test]
fn delivery_is_fifo() {
    let mut p = ThreadPool::build(1).unwrap();
    p.execute(5);
    p.execute(7);
    p.execute(9);
    for _ in 0..3 {
        let got = p.poll(0);
        assert!(matches!(got, Polled::Job { .. }));
        p.finish(0);
    }
    assert_eq!(p.finished_jobs(), &vec![5, 7, 9]);
    assert_eq!(p.delivered_jobs(), p.submitted_jobs());
}

#[test]
fn empty_open_queue_blocks_the_worker() {
    let mut p = ThreadPool::build(1).unwrap();
    let got = p.poll(0);
    assert_eq!(got, Polled::WouldBlock);
    assert_eq!(p.worker_state(0), WorkerState::Polling);
    assert!(p.is_open());
}

#[test]
fn teardown_of_idle_pool_returns() {
    let mut p = ThreadPool::build(2).unwrap();
    p.shutdown();
    assert!(!p.is_open());
    assert_eq!(p.pending_count(), 0);
    assert!(p.finished_jobs().is_empty());
    for w in 0..2 {
        assert_eq!(p.worker_state(w), WorkerState::Terminated);
    }
    p.shutdown();
    assert_eq!(p.worker_state(0), WorkerState::Terminated);
}
