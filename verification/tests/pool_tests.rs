use server::pool::{drain_all, pool_plan, submit_all, JobQueue, PoolError, TakeResult};

#[test]
fn zero_size_pool_rejected() {
    assert_eq!(pool_plan(0), Err(PoolError::InvalidSize));
}

#[test]
fn pool_plan_yields_one_id_per_worker() {
    let ids = pool_plan(4).unwrap();
    assert_eq!(ids, vec![0, 1, 2, 3]);
}

#[test]
fn jobs_come_out_in_submission_order() {
    let mut q = JobQueue::new();
    assert!(q.submit(1));
    assert!(q.submit(2));
    assert!(q.submit(3));
    assert_eq!(q.take(), TakeResult::Run(1));
    assert_eq!(q.take(), TakeResult::Run(2));
    assert_eq!(q.take(), TakeResult::Run(3));
    assert_eq!(q.take(), TakeResult::Wait);
}

#[test]
fn empty_closed_queue_shuts_workers_down() {
    let mut q = JobQueue::new();
    q.close();
    assert_eq!(q.take(), TakeResult::Shutdown);
}

#[test]
fn pending_jobs_survive_the_close() {
    let mut q = JobQueue::new();
    assert!(q.submit(7));
    q.close();
    assert_eq!(q.take(), TakeResult::Run(7));
    assert_eq!(q.take(), TakeResult::Shutdown);
}

#[test]
fn submission_to_a_closed_queue_is_dropped() {
    let mut q = JobQueue::new();
    q.close();
    assert!(!q.submit(9));
    assert_eq!(q.pending(), 0);
    assert!(q.is_closed());
}

#[test]
fn every_submitted_job_executes_exactly_once() {
    let mut q = JobQueue::new();
    let jobs: Vec<u64> = vec![10, 11, 12, 13, 14, 15];
    submit_all(&mut q, &jobs);
    assert_eq!(q.pending(), jobs.len());
    let executed = drain_all(&mut q);
    assert_eq!(executed, jobs);
    assert_eq!(q.pending(), 0);
    for j in &jobs {
        assert_eq!(executed.iter().filter(|x| *x == j).count(), 1);
    }
}

#[test]
fn round_robin_visits_each_listener_once_per_pass() {
    let mut cursor = server::acceptor::RoundRobin::new(3);
    let mut seen = Vec::new();
    for _ in 0..6 {
        seen.push(cursor.advance());
    }
    assert_eq!(seen, vec![0, 1, 2, 0, 1, 2]);
}
