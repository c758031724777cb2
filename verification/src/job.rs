//! Jobs, their life cycle and the leases on them.

use serde_json::Value;
use vstd::prelude::*;

verus! {

/// Represents the status of a job in the queue.
///
/// Mirrors the PostgreSQL enum `job_status`.
#[derive(Debug, Clone, Copy, PartialEq, Eq, Hash, Structural)]
pub enum JobStatus {
    /// The job is waiting to be processed.
    Pending,
    /// The job is currently being processed by a worker.
    InProgress,
    /// The job has been successfully completed.
    Done,
    /// The job has failed after the maximum number of attempts.
    Failed,
}

/// A job record from the `jobs` table.
///
/// It contains the payload and metadata about the job's lifecycle, including
/// its current status, attempt count, and lease information. Points in time are
/// microseconds since the Unix epoch, the resolution in which PostgreSQL keeps them.
#[derive(Debug)]
pub struct Job {
    /// Unique identifier for the job.
    pub id: i64,
    /// Unique idempotency key for the job.
    pub idempotency_key: String,
    /// Current status of the job.
    pub status: JobStatus,
    /// The data payload associated with the job.
    pub payload: Value,
    /// When the job becomes visible to workers.
    ///
    /// For `Pending` jobs, this is when they can be dequeued.
    /// For `InProgress` jobs, this is when their lease expires.
    pub visible_at: i64,
    /// Number of times this job has been dequeued.
    pub attempt_count: i32,
    /// Duration (in seconds) that a worker has to process the job before it becomes visible again.
    pub lease_timeout_seconds: i32,
    /// Unique identifier for the current lease: the 128 bits of a UUID.
    pub lease_id: Option<u128>,
    /// Identifier of the worker currently holding the lease.
    pub leased_by: Option<String>,
    /// When the job was created.
    pub created_at: i64,
    /// When the job was last updated.
    pub updated_at: i64,
}

/// A token required to perform operations on a leased job.
///
/// It ensures that only the current lease holder can ACK, NACK, or TOUCH a job,
/// preventing "stale" updates if a job is reassigned after a timeout.
#[derive(Debug, Clone, Copy, PartialEq, Eq, Hash, Structural)]
pub struct LeaseKey {
    /// The ID of the job.
    pub job_id: i64,
    /// The unique ID of the specific lease: the 128 bits of a UUID.
    pub lease_id: u128,
}

/// What a [`Job`] says, with its texts as sequences of characters and its numbers as integers.
#[verifier::ext_equal]
pub struct JobView {
    pub id: i64,
    pub idempotency_key: Seq<char>,
    pub status: JobStatus,
    pub payload: Value,
    pub visible_at: int,
    pub attempt_count: int,
    pub lease_timeout_seconds: int,
    pub lease_id: Option<u128>,
    pub leased_by: Option<Seq<char>>,
    pub created_at: int,
    pub updated_at: int,
}

impl View for Job {
    type V = JobView;

    open spec fn view(&self) -> JobView {
        JobView {
            id: self.id,
            idempotency_key: self.idempotency_key@,
            status: self.status,
            payload: self.payload,
            visible_at: self.visible_at as int,
            attempt_count: self.attempt_count as int,
            lease_timeout_seconds: self.lease_timeout_seconds as int,
            lease_id: self.lease_id,
            leased_by: match self.leased_by {
                Some(worker) => Some(worker@),
                None => None,
            },
            created_at: self.created_at as int,
            updated_at: self.updated_at as int,
        }
    }
}

impl Clone for Job {
    fn clone(&self) -> (row: Job)
        ensures
            row@ == self@,
    {
        Job {
            id: self.id,
            idempotency_key: self.idempotency_key.clone(),
            status: self.status,
            payload: self.payload.clone(),
            visible_at: self.visible_at,
            attempt_count: self.attempt_count,
            lease_timeout_seconds: self.lease_timeout_seconds,
            lease_id: self.lease_id,
            leased_by: match &self.leased_by {
                Some(worker) => Some(worker.clone()),
                None => None,
            },
            created_at: self.created_at,
            updated_at: self.updated_at,
        }
    }
}

/// What each of `jobs` says, in order.
pub open spec fn job_views(jobs: Seq<Job>) -> Seq<JobView> {
    jobs.map_values(|job: Job| job@)
}

impl Job {
    /// Returns the [`LeaseKey`] required to acknowledge or modify this job,
    /// if it is currently leased.
    pub fn lease_key(&self) -> (key: Option<LeaseKey>)
        ensures
            key == match self.lease_id {
                Some(lease_id) => Some(LeaseKey { job_id: self.id, lease_id }),
                None => None,
            },
    {
        match self.lease_id {
            Some(lease_id) => Some(LeaseKey { job_id: self.id, lease_id }),
            None => None,
        }
    }
}

} // verus!
