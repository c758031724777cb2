//! The queue's operations: what each asks of the database, and what it makes of the reply.

use crate::error::QueueError;
use crate::job::{Job, LeaseKey};
use crate::statement::{
    ack_batch_statement, ack_statement, dequeue_statement, enqueue_statement, nack_statement,
    touch_statement, Delay, Operation, Param, ParamView, Statement,
};
use serde_json::Value;
use vstd::prelude::*;

verus! {

/// A PostgreSQL-backed queue.
///
/// Each operation checks its arguments and gives the statement that carries it out. Running the
/// statement is up to the caller, who holds the connection.
#[derive(Debug, Clone, Copy)]
pub struct PgQueue;

/// Whether the arguments were refused, for `reason`.
pub open spec fn refused(asked: Result<Statement, QueueError>, reason: Seq<char>) -> bool {
    asked matches Err(QueueError::InvalidArgument(told)) && told@ == reason
}

impl PgQueue {
    /// Enqueues a new job into the queue.
    ///
    /// * `idempotency_key`: A unique key to prevent duplicate jobs.
    /// * `payload`: The data payload for the job (as a JSON value).
    /// * `lease_timeout_seconds`: How long (in seconds) the job should be leased for when dequeued.
    /// * `visible_at`: Optional time when the job should first become visible. Defaults to `now()`.
    ///
    /// The statement returns the new row, or none if a job with the same idempotency key already
    /// exists.
    ///
    /// Note: This only guarantees at-least-once delivery. A worker can perform a side effect
    /// and crash before acknowledging the job, causing it to be retried.
    pub fn enqueue(
        idempotency_key: &str,
        payload: Value,
        lease_timeout_seconds: i32,
        visible_at: Option<i64>,
    ) -> (asked: Result<Statement, QueueError>)
        ensures
            lease_timeout_seconds <= 0 ==> refused(asked, "lease_timeout_seconds must be > 0"@),
            lease_timeout_seconds > 0 ==> (asked matches Ok(statement) && statement@
                == enqueue_statement(idempotency_key@, payload, lease_timeout_seconds, visible_at)),
    {
        if lease_timeout_seconds <= 0 {
            return Err(
                QueueError::InvalidArgument("lease_timeout_seconds must be > 0".to_owned()),
            );
        }
        let mut params: Vec<Param> = Vec::new();
        params.push(Param::Text(idempotency_key.to_owned()));
        params.push(Param::Json(payload));
        params.push(Param::Int(lease_timeout_seconds));
        params.push(Param::Timestamp(visible_at));
        let statement = Statement { operation: Operation::Enqueue, params };
        assert(statement@.params =~= seq![
            ParamView::Text(idempotency_key@),
            ParamView::Json(payload),
            ParamView::Int(lease_timeout_seconds),
            ParamView::Timestamp(visible_at),
        ]);
        Ok(statement)
    }

    /// Dequeues up to `batch_size` jobs, atomically leasing them to `worker_id`.
    ///
    /// The jobs will be marked as `InProgress` and their `visible_at` will be updated
    /// to `now() + lease_timeout_seconds`.
    ///
    /// * `worker_id`: A unique identifier for the worker performing the dequeue.
    /// * `batch_size`: Maximum number of jobs to dequeue at once.
    /// * `max_attempts`: Maximum number of times a job can be dequeued before it is marked as `failed`.
    pub fn dequeue(worker_id: &str, batch_size: i64, max_attempts: i32) -> (asked: Result<
        Statement,
        QueueError,
    >)
        ensures
            batch_size <= 0 ==> refused(asked, "batch_size must be > 0"@),
            batch_size > 0 && max_attempts <= 0 ==> refused(asked, "max_attempts must be > 0"@),
            batch_size > 0 && max_attempts > 0 ==> (asked matches Ok(statement) && statement@
                == dequeue_statement(worker_id@, batch_size, max_attempts)),
    {
        if batch_size <= 0 {
            return Err(QueueError::InvalidArgument("batch_size must be > 0".to_owned()));
        }
        if max_attempts <= 0 {
            return Err(QueueError::InvalidArgument("max_attempts must be > 0".to_owned()));
        }
        let mut params: Vec<Param> = Vec::new();
        params.push(Param::Int(max_attempts));
        params.push(Param::BigInt(batch_size));
        params.push(Param::Text(worker_id.to_owned()));
        let statement = Statement { operation: Operation::Dequeue, params };
        assert(statement@.params =~= seq![
            ParamView::Int(max_attempts),
            ParamView::BigInt(batch_size),
            ParamView::Text(worker_id@),
        ]);
        Ok(statement)
    }

    /// Acknowledges a job as successfully completed.
    ///
    /// This succeeds only if the provided `lease` is still valid (i.e., the job is
    /// `InProgress` and the `lease_id` matches): the statement returns the updated row, or none if
    /// the lease was lost or the job was not in progress.
    pub fn ack(lease: LeaseKey) -> (statement: Statement)
        ensures
            statement@ == ack_statement(lease),
    {
        let mut params: Vec<Param> = Vec::new();
        params.push(Param::BigInt(lease.job_id));
        params.push(Param::Uuid(lease.lease_id));
        let statement = Statement { operation: Operation::Ack, params };
        assert(statement@.params =~= seq![
            ParamView::BigInt(lease.job_id),
            ParamView::Uuid(lease.lease_id),
        ]);
        statement
    }

    /// Acknowledges a batch of jobs as successfully completed.
    ///
    /// The statement returns the rows that were updated. For an empty batch there is nothing to
    /// run, and nothing is updated.
    pub fn ack_batch(leases: &[LeaseKey]) -> (asked: Option<Statement>)
        ensures
            leases@.len() == 0 ==> asked is None,
            leases@.len() > 0 ==> (asked matches Some(statement) && statement@ == ack_batch_statement(
                leases@,
            )),
    {
        if leases.len() == 0 {
            return None;
        }
        let mut job_ids: Vec<i64> = Vec::with_capacity(leases.len());
        let mut lease_ids: Vec<u128> = Vec::with_capacity(leases.len());
        let mut i: usize = 0;
        while i < leases.len()
            invariant
                i <= leases.len(),
                job_ids@ == leases@.take(i as int).map_values(|lease: LeaseKey| lease.job_id),
                lease_ids@ == leases@.take(i as int).map_values(|lease: LeaseKey| lease.lease_id),
            decreases leases.len() - i,
        {
            let lease: LeaseKey = leases[i];
            job_ids.push(lease.job_id);
            lease_ids.push(lease.lease_id);
            i += 1;
            assert(job_ids@ =~= leases@.take(i as int).map_values(|lease: LeaseKey| lease.job_id));
            assert(lease_ids@ =~= leases@.take(i as int).map_values(
                |lease: LeaseKey| lease.lease_id,
            ));
        }
        assert(leases@.take(i as int) =~= leases@);
        let ghost ids = job_ids@;
        let ghost uuids = lease_ids@;
        let mut params: Vec<Param> = Vec::new();
        params.push(Param::BigInts(job_ids));
        params.push(Param::Uuids(lease_ids));
        let statement = Statement { operation: Operation::AckBatch, params };
        assert(statement@.params =~= seq![ParamView::BigInts(ids), ParamView::Uuids(uuids)]);
        Some(statement)
    }

    /// Negatively acknowledges a job, returning it to the `pending` state for retry.
    ///
    /// If the job has reached `max_attempts`, it will be marked as `failed` instead.
    /// This succeeds only if the provided `lease` is still valid: the statement returns the updated
    /// row, or none if the lease was lost or the job was not in progress.
    ///
    /// * `lease`: The lease key for the job.
    /// * `max_attempts`: The maximum number of attempts for this job.
    /// * `delay`: Optional duration to wait before the job becomes visible again.
    pub fn nack(lease: LeaseKey, max_attempts: i32, delay: Option<Delay>) -> (asked: Result<
        Statement,
        QueueError,
    >)
        ensures
            max_attempts <= 0 ==> refused(asked, "max_attempts must be > 0"@),
            max_attempts > 0 ==> (asked matches Ok(statement) && statement@ == nack_statement(
                lease,
                max_attempts,
                delay,
            )),
    {
        if max_attempts <= 0 {
            return Err(QueueError::InvalidArgument("max_attempts must be > 0".to_owned()));
        }
        let span: Delay = match delay {
            Some(span) => span,
            None => Delay { secs: 0, nanos: 0 },
        };
        let mut params: Vec<Param> = Vec::new();
        params.push(Param::BigInt(lease.job_id));
        params.push(Param::Uuid(lease.lease_id));
        params.push(Param::Int(max_attempts));
        params.push(Param::Seconds(span));
        let statement = Statement { operation: Operation::Nack, params };
        assert(statement@.params =~= seq![
            ParamView::BigInt(lease.job_id),
            ParamView::Uuid(lease.lease_id),
            ParamView::Int(max_attempts),
            ParamView::Seconds(span),
        ]);
        Ok(statement)
    }

    /// Extends the lease of an `InProgress` job.
    ///
    /// This updates the job's `visible_at` to `now() + lease_seconds`.
    /// This succeeds only if the provided `lease` is still valid: the statement returns the updated
    /// row, or none if the lease was lost or the job was not in progress.
    pub fn touch(lease: LeaseKey, lease_seconds: i32) -> (asked: Result<Statement, QueueError>)
        ensures
            lease_seconds <= 0 ==> refused(asked, "lease_seconds must be > 0"@),
            lease_seconds > 0 ==> (asked matches Ok(statement) && statement@ == touch_statement(
                lease,
                lease_seconds,
            )),
    {
        if lease_seconds <= 0 {
            return Err(QueueError::InvalidArgument("lease_seconds must be > 0".to_owned()));
        }
        let span = Delay { secs: lease_seconds as u64, nanos: 0 };
        let mut params: Vec<Param> = Vec::new();
        params.push(Param::BigInt(lease.job_id));
        params.push(Param::Uuid(lease.lease_id));
        params.push(Param::Seconds(span));
        let statement = Statement { operation: Operation::Touch, params };
        assert(statement@.params =~= seq![
            ParamView::BigInt(lease.job_id),
            ParamView::Uuid(lease.lease_id),
            ParamView::Seconds(span),
        ]);
        Ok(statement)
    }

    /// The job that a statement on one lease has updated, from the rows that it returned.
    pub fn updated_job(rows: Vec<Job>) -> (job: Option<Job>)
        ensures
            rows@.len() == 0 ==> job is None,
            rows@.len() > 0 ==> job == Some(rows@[0]),
    {
        let mut rows = rows;
        if rows.len() == 0 {
            None
        } else {
            Some(rows.swap_remove(0))
        }
    }
}

} // verus!
