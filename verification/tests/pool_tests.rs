use rws::threading::{Intake, PoolError, ThreadPool};

#[test]
fn pool_of_size_zero_is_rejected() {
    assert_eq!(ThreadPool::new(0).err(), Some(PoolError::SizeZero));
    assert!(ThreadPool::new(1).is_ok());
    assert!(ThreadPool::new(4).is_ok());
}

#[test]
fn every_job_runs_exactly_once() {
    let mut pool = ThreadPool::new(2).unwrap();
    for expected in 0u64..5 {
        assert_eq!(pool.execute(), Ok(expected));
    }
    pool.begin_shutdown();
    loop {
        match pool.take_job() {
            Intake::Job(id) => pool.complete(id),
            Intake::Closed => break,
            Intake::Wait => panic!("a retired empty intake never says wait"),
        }
    }
    assert!(pool.queue.is_empty());
    assert!(pool.active.is_empty());
    assert_eq!(pool.finished, vec![0, 1, 2, 3, 4]);
}

#[test]
fn jobs_are_delivered_in_submission_order() {
    let mut pool = ThreadPool::new(3).unwrap();
    assert_eq!(pool.execute(), Ok(0));
    assert_eq!(pool.execute(), Ok(1));
    assert_eq!(pool.execute(), Ok(2));
    assert_eq!(pool.take_job(), Intake::Job(0));
    assert_eq!(pool.take_job(), Intake::Job(1));
    assert_eq!(pool.take_job(), Intake::Job(2));
}

#[test]
fn two_workers_hold_two_jobs_at_once() {
    let mut pool = ThreadPool::new(2).unwrap();
    pool.execute().unwrap();
    pool.execute().unwrap();
    assert_eq!(pool.take_job(), Intake::Job(0));
    assert_eq!(pool.take_job(), Intake::Job(1));
    assert_eq!(pool.active, vec![0, 1]);
    pool.complete(0);
    pool.complete(1);
    assert_eq!(pool.finished, vec![0, 1]);
}

#[test]
fn one_worker_serves_jobs_one_after_another() {
    let mut pool = ThreadPool::new(1).unwrap();
    pool.execute().unwrap();
    pool.execute().unwrap();
    assert_eq!(pool.take_job(), Intake::Job(0));
    assert_eq!(pool.active.len(), pool.size);
    pool.complete(0);
    assert_eq!(pool.take_job(), Intake::Job(1));
    assert_eq!(pool.active, vec![1]);
    pool.complete(1);
    assert_eq!(pool.finished, vec![0, 1]);
}

#[test]
fn execute_after_shutdown_is_refused() {
    let mut pool = ThreadPool::new(2).unwrap();
    assert_eq!(pool.execute(), Ok(0));
    pool.begin_shutdown();
    assert_eq!(pool.execute(), Err(PoolError::ShutDown));
    assert_eq!(pool.queue, vec![0]);
}

#[test]
fn idle_worker_waits_then_exits() {
    let mut pool = ThreadPool::new(1).unwrap();
    assert_eq!(pool.take_job(), Intake::Wait);
    pool.begin_shutdown();
    assert_eq!(pool.take_job(), Intake::Closed);
}

#[test]
fn shutdown_drains_pending_jobs_first() {
    let mut pool = ThreadPool::new(1).unwrap();
    pool.execute().unwrap();
    pool.execute().unwrap();
    pool.begin_shutdown();
    assert_eq!(pool.take_job(), Intake::Job(0));
    pool.complete(0);
    assert_eq!(pool.take_job(), Intake::Job(1));
    pool.complete(1);
    assert_eq!(pool.take_job(), Intake::Closed);
    assert_eq!(pool.finished, vec![0, 1]);
}
