use swirl::record::{JobError, JobStatus};
use swirl::registry::{Registry, RegistryError};
use swirl::retry::{Decision, RetryPolicy};
use swirl::runner::{Event, Runner, RunnerError, SlotState};
use swirl::store::{QueueTable, StoreError};

fn policy(max_attempts: u32) -> RetryPolicy {
    RetryPolicy::new(10, 100, max_attempts)
}

fn perform_error() -> JobError {
    JobError::Perform("boom".to_string())
}

#[test]
fn success_path_deletes_row_and_hands_out_payload() {
    let mut registry = Registry::new();
    assert_eq!(registry.register("send_email".to_string()), Ok(0));
    let mut runner = Runner::new(1, policy(5));
    let payload = b"{\"to\":\"x@example.com\"}".to_vec();
    let id = runner.enqueue("send_email".to_string(), payload.clone(), 100).unwrap();
    let rec = runner.claim(0, 100).unwrap();
    assert_eq!(rec.id, id);
    assert_eq!(rec.job_type, "send_email");
    assert_eq!(rec.payload, payload);
    assert_eq!(registry.handler_for(&rec.job_type), Ok(0));
    assert_eq!(runner.complete(0, Ok(()), 101), Ok(Event::Succeeded(id)));
    assert_eq!(runner.store().len(), 0);
    assert!(runner.store().get(id).is_none());
    assert_eq!(runner.slot_state(0), SlotState::Idle);
}

#[test]
fn exhausted_retries_mark_row_failed() {
    let mut runner = Runner::new(1, policy(2));
    let id = runner.enqueue("flaky".to_string(), vec![1, 2], 0).unwrap();
    assert!(runner.claim(0, 0).is_some());
    assert_eq!(runner.complete(0, Err(perform_error()), 0), Ok(Event::WillRetry(id, 10)));
    assert!(runner.claim(0, 9).is_none());
    assert!(runner.claim(0, 10).is_some());
    assert_eq!(runner.complete(0, Err(perform_error()), 10), Ok(Event::FailedPermanently(id)));
    let rec = runner.store().get(id).unwrap();
    assert_eq!(rec.status, JobStatus::Failed);
    assert_eq!(rec.retry_count, 2);
    assert_eq!(rec.error_info, Some(perform_error()));
    assert!(!runner.store().is_claimable(id, u64::MAX));
    assert!(runner.claim(0, u64::MAX).is_none());
}

#[test]
fn unregistered_type_fails_permanently_at_once() {
    let mut registry = Registry::new();
    registry.register("send_email".to_string()).unwrap();
    let mut runner = Runner::new(1, policy(5));
    let id = runner.enqueue("ghost".to_string(), vec![], 0).unwrap();
    let rec = runner.claim(0, 0).unwrap();
    let err = registry.handler_for(&rec.job_type).unwrap_err();
    assert_eq!(err, JobError::UnregisteredJobType);
    assert_eq!(runner.complete(0, Err(err), 0), Ok(Event::FailedPermanently(id)));
    let rec = runner.store().get(id).unwrap();
    assert_eq!(rec.status, JobStatus::Failed);
    assert_eq!(rec.retry_count, 1);
    assert_eq!(rec.next_retry_at, None);
    assert_eq!(rec.error_info, Some(JobError::UnregisteredJobType));
}

#[test]
fn graceful_shutdown_waits_for_running_job() {
    let mut runner = Runner::new(2, policy(5));
    let a = runner.enqueue("slow".to_string(), vec![], 0).unwrap();
    runner.enqueue("slow".to_string(), vec![], 0).unwrap();
    assert_eq!(runner.claim(0, 0).unwrap().id, a);
    runner.begin_shutdown();
    assert!(runner.is_shutting_down());
    assert!(runner.claim(1, 2).is_none());
    assert!(!runner.shutdown_complete());
    assert!(runner.store().is_locked(a));
    assert_eq!(runner.complete(0, Ok(()), 2), Ok(Event::Succeeded(a)));
    assert!(runner.shutdown_complete());
    assert!(runner.store().get(a).is_none());
    assert!(runner.claim(0, 3).is_none());
    assert_eq!(runner.store().len(), 1);
}

#[test]
fn concurrent_slots_never_share_a_row() {
    let mut runner = Runner::new(3, policy(5));
    let a = runner.enqueue("t".to_string(), vec![], 0).unwrap();
    let b = runner.enqueue("t".to_string(), vec![], 0).unwrap();
    let first = runner.claim(0, 0).unwrap().id;
    let second = runner.claim(1, 0).unwrap().id;
    assert_eq!((first, second), (a, b));
    assert!(runner.claim(2, 0).is_none());
    assert_eq!(runner.slot_state(0), SlotState::Executing(a));
    assert_eq!(runner.slot_state(1), SlotState::Executing(b));
}

#[test]
fn busy_slot_cannot_claim_again() {
    let mut runner = Runner::new(1, policy(5));
    runner.enqueue("t".to_string(), vec![], 0).unwrap();
    runner.enqueue("t".to_string(), vec![], 0).unwrap();
    assert!(runner.claim(0, 0).is_some());
    assert!(runner.claim(0, 0).is_none());
    assert!(runner.claim(5, 0).is_none());
}

#[test]
fn abandoned_claim_is_delivered_again() {
    let mut runner = Runner::new(2, policy(5));
    let id = runner.enqueue("t".to_string(), vec![7], 0).unwrap();
    assert_eq!(runner.claim(0, 0).unwrap().id, id);
    assert!(!runner.store().is_claimable(id, 0));
    assert_eq!(runner.abandon(0), Ok(id));
    let rec = runner.store().get(id).unwrap();
    assert_eq!(rec.status, JobStatus::Pending);
    assert_eq!(rec.retry_count, 0);
    assert!(runner.store().is_claimable(id, 0));
    assert_eq!(runner.claim(1, 0).unwrap().id, id);
}

#[test]
fn retry_count_rises_with_each_failure() {
    let mut runner = Runner::new(1, RetryPolicy::new(0, 0, 4));
    let id = runner.enqueue("t".to_string(), vec![], 0).unwrap();
    let mut counts = Vec::new();
    for _ in 0..4 {
        assert!(runner.claim(0, 0).is_some());
        runner.complete(0, Err(perform_error()), 0).unwrap();
        counts.push(runner.store().get(id).unwrap().retry_count);
    }
    assert_eq!(counts, vec![1, 2, 3, 4]);
    assert_eq!(runner.store().get(id).unwrap().status, JobStatus::Failed);
}

#[test]
fn row_stays_pending_below_max_attempts() {
    let mut runner = Runner::new(1, RetryPolicy::new(0, 0, 3));
    let id = runner.enqueue("t".to_string(), vec![], 0).unwrap();
    for _ in 0..2 {
        assert!(runner.claim(0, 0).is_some());
        runner.complete(0, Err(perform_error()), 0).unwrap();
        assert_eq!(runner.store().get(id).unwrap().status, JobStatus::Pending);
    }
    assert!(runner.claim(0, 0).is_some());
    runner.complete(0, Err(perform_error()), 0).unwrap();
    assert_eq!(runner.store().get(id).unwrap().status, JobStatus::Failed);
}

#[test]
fn backoff_doubles_up_to_the_cap() {
    let p = RetryPolicy::new(10, 100, 10);
    let delays: Vec<u64> = (0..6).map(|k| p.delay_for(k)).collect();
    assert_eq!(delays, vec![10, 20, 40, 80, 100, 100]);
    assert_eq!(p.delay_for(200), 100);
    assert_eq!(RetryPolicy::new(200, 100, 1).delay_for(0), 100);
    assert_eq!(RetryPolicy::new(3, u64::MAX, 1).delay_for(4), 48);
    assert_eq!(RetryPolicy::new(u64::MAX / 2 + 1, u64::MAX, 1).delay_for(1), u64::MAX);
}

#[test]
fn next_retry_time_follows_backoff() {
    let mut runner = Runner::new(1, RetryPolicy::new(5, 1000, 10));
    let id = runner.enqueue("t".to_string(), vec![], 0).unwrap();
    let mut now = 1000;
    let mut expected = Vec::new();
    let mut seen = Vec::new();
    for k in 0..4u32 {
        assert!(runner.claim(0, now).is_some());
        let event = runner.complete(0, Err(perform_error()), now).unwrap();
        let at = now + 5 * (1u64 << k);
        expected.push(Event::WillRetry(id, at));
        seen.push(event);
        assert_eq!(runner.store().get(id).unwrap().next_retry_at, Some(at));
        assert_eq!(runner.store().get(id).unwrap().last_retry_at, Some(now));
        now = at;
    }
    assert_eq!(seen, expected);
}

#[test]
fn decide_follows_policy() {
    let p = policy(3);
    assert_eq!(p.decide(1, &perform_error()), Decision::RetryAfter(10));
    assert_eq!(p.decide(2, &perform_error()), Decision::RetryAfter(20));
    assert_eq!(p.decide(3, &perform_error()), Decision::PermanentFailure);
    assert_eq!(p.decide(1, &JobError::UnregisteredJobType), Decision::PermanentFailure);
    assert_eq!(p.decide(1, &JobError::Decode("bad".to_string())), Decision::RetryAfter(10));
}

#[test]
fn single_slot_claims_in_enqueue_order() {
    let mut runner = Runner::new(1, policy(5));
    let a = runner.enqueue("a".to_string(), vec![], 0).unwrap();
    let b = runner.enqueue("b".to_string(), vec![], 0).unwrap();
    let c = runner.enqueue("c".to_string(), vec![], 0).unwrap();
    assert!(a < b && b < c);
    let mut order = Vec::new();
    while let Some(rec) = runner.claim(0, 0) {
        order.push(rec.job_type.clone());
        runner.complete(0, Ok(()), 0).unwrap();
    }
    assert_eq!(order, vec!["a", "b", "c"]);
}

#[test]
fn rescheduled_row_waits_behind_eligible_ones() {
    let mut runner = Runner::new(1, policy(5));
    let a = runner.enqueue("a".to_string(), vec![], 0).unwrap();
    let b = runner.enqueue("b".to_string(), vec![], 0).unwrap();
    assert_eq!(runner.claim(0, 0).unwrap().id, a);
    runner.complete(0, Err(perform_error()), 0).unwrap();
    assert_eq!(runner.claim(0, 5).unwrap().id, b);
    runner.complete(0, Ok(()), 5).unwrap();
    assert!(runner.claim(0, 5).is_none());
    assert_eq!(runner.claim(0, 10).unwrap().id, a);
}

#[test]
fn ids_start_at_one_and_increase() {
    let mut table = QueueTable::new();
    assert_eq!(table.enqueue("t".to_string(), vec![], 3), Ok(1));
    assert_eq!(table.enqueue("t".to_string(), vec![], 4), Ok(2));
    assert_eq!(table.get(1).unwrap().created_at, 3);
    assert_eq!(table.position(2), Some(1));
    assert_eq!(table.position(9), None);
}

#[test]
fn store_refuses_unclaimed_rows() {
    let mut table = QueueTable::new();
    let id = table.enqueue("t".to_string(), vec![], 0).unwrap();
    assert_eq!(table.mark_succeeded(id), Err(StoreError::NotClaimed));
    assert_eq!(table.release(id), Err(StoreError::NotClaimed));
    assert_eq!(
        table.mark_failed(id, perform_error(), Decision::PermanentFailure, 0),
        Err(StoreError::NotClaimed)
    );
    assert_eq!(table.mark_succeeded(42), Err(StoreError::NotClaimed));
    assert!(table.claim_next(0).is_some());
    assert_eq!(table.mark_succeeded(id), Ok(()));
    assert_eq!(table.len(), 0);
}

#[test]
fn store_mark_failed_saturates_retry_time() {
    let mut table = QueueTable::new();
    let id = table.enqueue("t".to_string(), vec![], 0).unwrap();
    table.claim_next(0).unwrap();
    assert_eq!(table.mark_failed(id, perform_error(), Decision::RetryAfter(10), u64::MAX - 3), Ok(()));
    let rec = table.get(id).unwrap();
    assert_eq!(rec.next_retry_at, Some(u64::MAX));
    assert_eq!(rec.status, JobStatus::Pending);
    assert!(!table.is_locked(id));
}

#[test]
fn runner_refuses_idle_slots() {
    let mut runner = Runner::new(1, policy(5));
    assert_eq!(runner.complete(0, Ok(()), 0), Err(RunnerError::NotExecuting));
    assert_eq!(runner.abandon(0), Err(RunnerError::NotExecuting));
    assert_eq!(runner.complete(3, Ok(()), 0), Err(RunnerError::NotExecuting));
    assert_eq!(runner.pool_size(), 1);
    assert!(runner.is_drained());
}

#[test]
fn registry_rejects_duplicates_and_looks_up() {
    let mut registry = Registry::new();
    assert_eq!(registry.register("a".to_string()), Ok(0));
    assert_eq!(registry.register("b".to_string()), Ok(1));
    assert_eq!(registry.register("a".to_string()), Err(RegistryError::AlreadyRegistered));
    assert_eq!(registry.len(), 2);
    assert_eq!(registry.lookup(&"b".to_string()), Some(1));
    assert_eq!(registry.lookup(&"c".to_string()), None);
}

#[test]
fn eligibility_follows_status_and_retry_time() {
    let mut table = QueueTable::new();
    let id = table.enqueue("t".to_string(), vec![], 0).unwrap();
    assert!(table.get(id).unwrap().is_eligible(0));
    table.claim_next(0).unwrap();
    table.mark_failed(id, perform_error(), Decision::RetryAfter(5), 10).unwrap();
    assert!(!table.get(id).unwrap().is_eligible(14));
    assert!(table.get(id).unwrap().is_eligible(15));
    table.claim_next(15).unwrap();
    table.mark_failed(id, perform_error(), Decision::PermanentFailure, 20).unwrap();
    assert!(!table.get(id).unwrap().is_eligible(u64::MAX));
}

#[test]
fn forced_shutdown_gives_back_running_rows() {
    let mut runner = Runner::new(2, policy(5));
    let a = runner.enqueue("t".to_string(), vec![1], 0).unwrap();
    let b = runner.enqueue("t".to_string(), vec![2], 0).unwrap();
    runner.claim(0, 0).unwrap();
    runner.claim(1, 0).unwrap();
    runner.force_shutdown();
    assert!(runner.shutdown_complete());
    for id in [a, b] {
        assert!(!runner.store().is_locked(id));
        assert!(runner.store().is_claimable(id, 0));
        assert_eq!(runner.store().get(id).unwrap().retry_count, 0);
    }
    assert!(runner.claim(0, 0).is_none());
}
