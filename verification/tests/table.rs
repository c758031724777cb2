//! The queue's statements on a table in memory.

use serde_json::Value;
use slonq::table::JobTable;
use slonq::{Job, JobStatus, LeaseKey};

const SECOND: i64 = 1_000_000;

/// A table with the given jobs, enqueued one second apart, each with a lease of ten seconds.
fn table(keys: &[&str]) -> JobTable {
    let mut table = JobTable::new();
    for (i, key) in keys.iter().enumerate() {
        let n = i as i64;
        assert!(table.enqueue(key, Value::Null, 10, None, n + 1, n * SECOND).is_some());
    }
    table
}

fn ids(jobs: &[Job]) -> Vec<i64> {
    jobs.iter().map(|job| job.id).collect()
}

fn dequeue(table: &mut JobTable, batch: i64, lease_ids: Vec<u128>, now: i64) -> Vec<Job> {
    table.dequeue("w", batch, 2, &lease_ids, &vec![], now)
}

#[test]
fn enqueue_inserts_a_pending_job() {
    let mut table = JobTable::new();
    let job = table.enqueue("k", Value::Bool(true), 30, None, 5, 100).unwrap();
    assert_eq!(job.id, 5);
    assert_eq!(job.idempotency_key, "k");
    assert_eq!(job.status, JobStatus::Pending);
    assert_eq!(job.payload, Value::Bool(true));
    assert_eq!(job.visible_at, 100);
    assert_eq!(job.attempt_count, 0);
    assert_eq!(job.lease_timeout_seconds, 30);
    assert_eq!(job.lease_key(), None);
    assert_eq!(job.leased_by, None);
    assert_eq!((job.created_at, job.updated_at), (100, 100));
    assert_eq!(table.rows().len(), 1);
}

#[test]
fn enqueue_is_idempotent() {
    let mut table = table(&["a", "b"]);
    assert!(table.enqueue("a", Value::Bool(true), 99, None, 9, 77).is_none());
    assert_eq!(ids(table.rows()), vec![1, 2]);
    // The key stays taken when the job is done.
    let jobs = dequeue(&mut table, 1, vec![50, 51], 10 * SECOND);
    table.ack(jobs[0].lease_key().unwrap(), 11 * SECOND);
    assert!(table.enqueue("a", Value::Null, 10, None, 9, 77).is_none());
}

#[test]
fn dequeue_leases_the_oldest_first() {
    let mut table = table(&["a", "b", "c"]);
    let now = 20 * SECOND;
    let jobs = table.dequeue("worker-1", 2, 3, &vec![70, 71, 72], &vec![], now);
    assert_eq!(ids(&jobs), vec![1, 2]);
    for (k, job) in jobs.iter().enumerate() {
        assert_eq!(job.status, JobStatus::InProgress);
        assert_eq!(job.attempt_count, 1);
        assert_eq!(job.visible_at, now + 10 * SECOND);
        assert_eq!(job.updated_at, now);
        assert_eq!(job.lease_id, Some(70 + k as u128));
        assert_eq!(job.leased_by.as_deref(), Some("worker-1"));
    }
    assert_eq!(table.rows()[2].status, JobStatus::Pending);
    // What has been handed out is hidden; the rest is next.
    assert_eq!(ids(&dequeue(&mut table, 5, vec![80, 81, 82], now + SECOND)), vec![3]);
    assert!(dequeue(&mut table, 5, vec![90, 91, 92], now + SECOND).is_empty());
}

#[test]
fn dequeue_orders_by_visibility_then_age_then_id() {
    let mut table = JobTable::new();
    table.enqueue("late", Value::Null, 10, Some(9), 1, 0);
    table.enqueue("young", Value::Null, 10, Some(5), 2, 3);
    table.enqueue("second", Value::Null, 10, Some(5), 4, 1);
    table.enqueue("first", Value::Null, 10, Some(5), 3, 1);
    assert_eq!(ids(&dequeue(&mut table, 9, vec![1, 2, 3, 4], 10)), vec![3, 4, 2, 1]);
}

#[test]
fn dequeue_waits_for_the_scheduled_time() {
    let mut table = JobTable::new();
    table.enqueue("k", Value::Null, 10, Some(50), 1, 0);
    assert!(dequeue(&mut table, 1, vec![1], 49).is_empty());
    assert_eq!(ids(&dequeue(&mut table, 1, vec![1], 50)), vec![1]);
}

#[test]
fn dequeue_passes_over_locked_rows() {
    let mut table = table(&["a", "b", "c"]);
    let jobs = table.dequeue("w", 2, 2, &vec![1, 2, 3], &vec![1], 9 * SECOND);
    assert_eq!(ids(&jobs), vec![2, 3]);
    assert_eq!(table.rows()[0].status, JobStatus::Pending);
}

#[test]
fn concurrent_workers_get_different_jobs() {
    let mut first = table(&["a", "b", "c", "d"]);
    let mut second = table(&["a", "b", "c", "d"]);
    let now = 9 * SECOND;
    let mine = first.dequeue("w1", 2, 2, &vec![1, 2], &vec![], now);
    let theirs = second.dequeue("w2", 2, 2, &vec![3, 4], &ids(&mine), now);
    assert_eq!(ids(&mine), vec![1, 2]);
    assert_eq!(ids(&theirs), vec![3, 4]);
}

#[test]
fn expired_lease_recovers() {
    let mut table = table(&["a"]);
    let old = dequeue(&mut table, 1, vec![1], 0)[0].lease_key().unwrap();
    assert!(dequeue(&mut table, 1, vec![2], 10 * SECOND - 1).is_empty());
    let again = dequeue(&mut table, 1, vec![2], 10 * SECOND);
    assert_eq!(again[0].attempt_count, 2);
    assert_eq!(again[0].lease_id, Some(2));
    // The old lease is lost.
    assert!(table.ack(old, 11 * SECOND).is_none());
    assert!(table.nack(old, 2, 0, 11 * SECOND).is_none());
    assert!(table.touch(old, 5, 11 * SECOND).is_none());
    assert_eq!(table.rows()[0].lease_id, Some(2));
    assert_eq!(table.rows()[0].visible_at, 20 * SECOND);
    // Its last allowed attempt times out.
    assert!(dequeue(&mut table, 1, vec![3], 20 * SECOND).is_empty());
    assert_eq!(table.rows()[0].status, JobStatus::Failed);
    assert_eq!(table.rows()[0].lease_key(), None);
    assert_eq!(table.rows()[0].visible_at, 20 * SECOND);
}

#[test]
fn locked_rows_are_not_reaped() {
    let mut table = table(&["a"]);
    table.dequeue("w", 1, 1, &vec![1], &vec![], 0);
    table.dequeue("w", 1, 1, &vec![2], &vec![1], 20 * SECOND);
    assert_eq!(table.rows()[0].status, JobStatus::InProgress);
    table.dequeue("w", 1, 1, &vec![2], &vec![], 20 * SECOND);
    assert_eq!(table.rows()[0].status, JobStatus::Failed);
}

#[test]
fn ack_completes_once() {
    let mut table = table(&["a"]);
    let lease = dequeue(&mut table, 1, vec![1], 0)[0].lease_key().unwrap();
    let wrong = LeaseKey { job_id: lease.job_id, lease_id: 2 };
    assert!(table.ack(wrong, 5).is_none());
    let done = table.ack(lease, 5).unwrap();
    assert_eq!(done.status, JobStatus::Done);
    assert_eq!(done.updated_at, 5);
    assert_eq!(done.lease_key(), None);
    assert_eq!(done.leased_by, None);
    assert!(table.ack(lease, 6).is_none());
    assert!(table.nack(lease, 2, 0, 6).is_none());
    assert!(table.touch(lease, 1, 6).is_none());
    // It is never handed out again.
    assert!(dequeue(&mut table, 1, vec![1], 100 * SECOND).is_empty());
}

#[test]
fn nack_retries_after_the_delay_then_fails() {
    let mut table = table(&["a"]);
    let lease = dequeue(&mut table, 1, vec![1], 0)[0].lease_key().unwrap();
    let back = table.nack(lease, 2, 7, 100).unwrap();
    assert_eq!(back.status, JobStatus::Pending);
    assert_eq!(back.visible_at, 107);
    assert_eq!(back.lease_key(), None);
    assert!(dequeue(&mut table, 1, vec![2], 106).is_empty());
    let lease = dequeue(&mut table, 1, vec![2], 107)[0].lease_key().unwrap();
    let failed = table.nack(lease, 2, 7, 200).unwrap();
    assert_eq!(failed.status, JobStatus::Failed);
    assert_eq!(failed.visible_at, 200);
    assert_eq!(failed.attempt_count, 2);
}

#[test]
fn touch_extends_the_lease() {
    let mut table = table(&["a"]);
    let lease = dequeue(&mut table, 1, vec![1], 0)[0].lease_key().unwrap();
    let kept = table.touch(lease, 60, 3 * SECOND).unwrap();
    assert_eq!(kept.visible_at, 63 * SECOND);
    assert_eq!(kept.lease_key(), Some(lease));
    assert!(dequeue(&mut table, 1, vec![2], 62 * SECOND).is_empty());
    assert!(table.ack(lease, 62 * SECOND).is_some());
}

#[test]
fn ack_batch_completes_what_is_held() {
    let mut table = table(&["a", "b", "c"]);
    let jobs = dequeue(&mut table, 3, vec![1, 2, 3], 9 * SECOND);
    let mut leases: Vec<LeaseKey> = jobs.iter().filter_map(|j| j.lease_key()).collect();
    // Pairs of one job's id with another one's lease are not held by anyone.
    leases[1] = LeaseKey { job_id: 2, lease_id: 3 };
    leases.push(leases[0]);
    let done = table.ack_batch(&leases, 10 * SECOND);
    assert_eq!(ids(&done), vec![1, 3]);
    assert!(done.iter().all(|job| job.status == JobStatus::Done));
    assert_eq!(table.rows()[1].status, JobStatus::InProgress);
    assert!(table.ack_batch(&leases, 10 * SECOND).is_empty());
    assert!(table.ack_batch(&vec![], 10 * SECOND).is_empty());
}

#[test]
fn leased_exactly_while_in_progress() {
    let mut table = table(&["a", "b", "c"]);
    let jobs = dequeue(&mut table, 2, vec![1, 2], 9 * SECOND);
    table.ack(jobs[0].lease_key().unwrap(), 9 * SECOND);
    for job in table.rows() {
        assert_eq!(job.lease_key().is_some(), job.status == JobStatus::InProgress);
        assert_eq!(job.leased_by.is_some(), job.status == JobStatus::InProgress);
    }
}

#[test]
fn ack_batch_is_one_ack_after_the_other() {
    let lease_out = || {
        let mut table = table(&["a", "b", "c"]);
        let jobs = dequeue(&mut table, 2, vec![1, 2], 9 * SECOND);
        let leases: Vec<LeaseKey> = jobs.iter().filter_map(|j| j.lease_key()).collect();
        (table, leases)
    };
    let (mut together, leases) = lease_out();
    together.ack_batch(&leases, 10 * SECOND);
    let (mut apart, leases) = lease_out();
    for lease in leases {
        apart.ack(lease, 10 * SECOND);
    }
    assert_eq!(format!("{:?}", together), format!("{:?}", apart));
}

#[test]
fn every_job_ends_within_its_attempts() {
    // One worker completes every third lease, gives up every other third and forgets the rest.
    let mut table = table(&["a", "b", "c", "d", "e"]);
    let mut next_lease: u128 = 1;
    let mut turn = 0;
    for step in 0..40 {
        let now = (10 + 4 * step) * SECOND;
        let lease_ids = vec![next_lease, next_lease + 1];
        next_lease += 2;
        let waiting = table.rows().iter().any(|job| {
            job.visible_at <= now
                && job.attempt_count < 2
                && (job.status == JobStatus::Pending || job.status == JobStatus::InProgress)
        });
        let jobs = dequeue(&mut table, 2, lease_ids, now);
        assert_eq!(waiting, !jobs.is_empty());
        for job in jobs {
            let lease = job.lease_key().unwrap();
            match turn % 3 {
                0 => assert!(table.ack(lease, now).is_some()),
                1 => assert!(table.nack(lease, 2, 0, now).is_some()),
                _ => (),
            }
            turn += 1;
        }
        let mut leased: Vec<u128> = table.rows().iter().filter_map(|job| job.lease_id).collect();
        leased.sort();
        let held = leased.len();
        leased.dedup();
        assert_eq!(leased.len(), held);
        for job in table.rows() {
            assert!(job.attempt_count <= 2);
            assert!(job.status != JobStatus::Pending || job.attempt_count < 2);
            assert!(job.status == JobStatus::Pending || job.attempt_count >= 1);
        }
    }
    for job in table.rows() {
        assert!(job.status == JobStatus::Done || job.status == JobStatus::Failed);
    }
}

#[test]
fn settled_lease_never_returns() {
    let mut table = table(&["a", "b"]);
    let jobs = dequeue(&mut table, 1, vec![1], 9 * SECOND);
    let lease = jobs[0].lease_key().unwrap();
    assert_eq!(table.nack(lease, 2, 0, 10 * SECOND).unwrap().attempt_count, 1);
    table.enqueue("c", Value::Null, 10, None, 3, 10 * SECOND);
    let again = dequeue(&mut table, 3, vec![2, 3, 4], 11 * SECOND);
    assert_eq!(ids(&again), vec![2, 1, 3]);
    assert_eq!(again[1].lease_id, Some(3));
    table.touch(again[1].lease_key().unwrap(), 60, 12 * SECOND);
    assert!(table.ack(lease, 13 * SECOND).is_none());
    assert!(table.ack_batch(&vec![lease], 13 * SECOND).is_empty());
    assert!(table.nack(lease, 2, 0, 13 * SECOND).is_none());
    assert!(table.touch(lease, 5, 13 * SECOND).is_none());
    // What the new holder settles is the attempt that it was handed.
    let done = table.ack(again[1].lease_key().unwrap(), 14 * SECOND).unwrap();
    assert_eq!(done.attempt_count, again[1].attempt_count);
    assert_eq!(done.attempt_count, 2);
}

#[test]
fn ack_batch_returns_each_completed_job_once() {
    let mut table = table(&["a", "b"]);
    let jobs = dequeue(&mut table, 2, vec![1, 2], 9 * SECOND);
    let second = jobs[1].lease_key().unwrap();
    let unknown = LeaseKey { job_id: 7, lease_id: 1 };
    let done = table.ack_batch(&vec![second, unknown, second], 10 * SECOND);
    assert_eq!(ids(&done), vec![2]);
    assert_eq!(done[0].updated_at, 10 * SECOND);
    assert!(table.ack_batch(&vec![second], 10 * SECOND).is_empty());
}

#[test]
fn times_reach_to_the_end_of_the_range() {
    let end = i64::MAX;
    let mut table = table(&["a"]);
    let jobs = dequeue(&mut table, 1, vec![1], end - 10 * SECOND);
    assert_eq!(jobs[0].visible_at, end);
    let lease = jobs[0].lease_key().unwrap();
    assert_eq!(table.touch(lease, 1, end - SECOND).unwrap().visible_at, end);
    // A delay that is not used may be of any length.
    let lost = LeaseKey { job_id: 1, lease_id: 2 };
    assert!(table.nack(lost, 2, u64::MAX, end).is_none());
    assert!(table.touch(lost, i32::MAX, end).is_none());
    let failed = table.nack(lease, 1, u64::MAX, end).unwrap();
    assert_eq!(failed.status, JobStatus::Failed);
    assert_eq!(failed.visible_at, end);
}

#[test]
fn payload_is_what_the_column_stores() {
    // `jsonb` keeps `1e16` as a whole number, and gives that back.
    let sent: Value = serde_json::from_str("1e16").unwrap();
    let stored: Value = serde_json::from_str("10000000000000000").unwrap();
    assert_ne!(sent, stored);
    let mut table = JobTable::new();
    let job = table.enqueue("k", stored.clone(), 10, None, 1, 0).unwrap();
    assert_eq!(job.payload, stored);
    assert_eq!(dequeue(&mut table, 1, vec![1], 0)[0].payload, stored);
}
