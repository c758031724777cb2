//! The statements that the queue sends to PostgreSQL, and their parameters.

use crate::job::LeaseKey;
use serde_json::Value;
use vstd::prelude::*;

verus! {

/// Inserts a job, unless its idempotency key is taken.
pub const ENQUEUE_SQL: &'static str = r#"
        INSERT INTO jobs (idempotency_key, payload, lease_timeout_seconds, visible_at)
        VALUES ($1, $2, $3, COALESCE($4, now()))
        ON CONFLICT (idempotency_key) DO NOTHING
        RETURNING *;
    "#;

/// Leases the next jobs to a worker, after failing the timed-out jobs that have used up their
/// attempts.
pub const DEQUEUE_SQL: &'static str = r#"
        WITH exhausted AS (
            SELECT id
            FROM jobs
            WHERE status = 'in_progress'
              AND visible_at <= now()
              AND attempt_count >= $1
            FOR UPDATE SKIP LOCKED
        ),
        mark_failed AS (
            UPDATE jobs
            SET status     = 'failed',
                updated_at = now(),
                lease_id   = NULL,
                leased_by  = NULL
            FROM exhausted
            WHERE jobs.id = exhausted.id
            RETURNING jobs.id
        ),
        next_job AS (
            SELECT id
            FROM jobs
            WHERE status IN ('pending', 'in_progress')
              AND visible_at <= now()
              AND attempt_count < $1
            ORDER BY visible_at, created_at, id
            LIMIT $2
            FOR UPDATE SKIP LOCKED
        )
        UPDATE jobs
        SET status        = 'in_progress',
            updated_at    = now(),
            visible_at    = now() + make_interval(secs => lease_timeout_seconds::float8),
            attempt_count = attempt_count + 1,
            lease_id      = gen_random_uuid(),
            leased_by     = $3
        FROM next_job
        WHERE jobs.id = next_job.id
        RETURNING jobs.*;
    "#;

/// Marks a leased job as done.
pub const ACK_SQL: &'static str = r#"
        UPDATE jobs
        SET status     = 'done',
            updated_at = now(),
            lease_id   = NULL,
            leased_by  = NULL
        WHERE id = $1
          AND lease_id = $2
          AND status = 'in_progress'
        RETURNING *;
    "#;

/// Marks leased jobs as done. The job ids and lease ids are paired by a multi-argument `unnest`.
pub const ACK_BATCH_SQL: &'static str = r#"
        UPDATE jobs j
        SET status     = 'done',
            updated_at = now(),
            lease_id   = NULL,
            leased_by  = NULL
        FROM unnest($1::bigint[], $2::uuid[]) AS x(id, lease_id)
        WHERE j.id = x.id
          AND j.lease_id = x.lease_id
          AND j.status = 'in_progress'
        RETURNING j.*;
    "#;

/// Gives a leased job back for a retry, or fails it where no attempt is left.
pub const NACK_SQL: &'static str = r#"
        UPDATE jobs
        SET status = CASE
                WHEN attempt_count >= $3 THEN 'failed'::job_status
                ELSE 'pending'::job_status
            END,
            updated_at = now(),
            visible_at = CASE
                WHEN attempt_count >= $3 THEN now()
                ELSE now() + make_interval(secs => $4)
            END,
            lease_id = NULL,
            leased_by = NULL
        WHERE id = $1
          AND lease_id = $2
          AND status = 'in_progress'
        RETURNING *;
    "#;

/// Extends the lease on a job.
pub const TOUCH_SQL: &'static str = r#"
        UPDATE jobs
        SET visible_at = now() + make_interval(secs => $3),
            updated_at = now()
        WHERE id = $1
          AND lease_id = $2
          AND status = 'in_progress'
        RETURNING *;
    "#;

/// What a statement is for.
#[derive(Debug, Clone, Copy, PartialEq, Eq, Structural)]
pub enum Operation {
    Enqueue,
    Dequeue,
    Ack,
    AckBatch,
    Nack,
    Touch,
}

/// The text of the statement for an operation.
pub open spec fn sql_text(operation: Operation) -> Seq<char> {
    match operation {
        Operation::Enqueue => ENQUEUE_SQL@,
        Operation::Dequeue => DEQUEUE_SQL@,
        Operation::Ack => ACK_SQL@,
        Operation::AckBatch => ACK_BATCH_SQL@,
        Operation::Nack => NACK_SQL@,
        Operation::Touch => TOUCH_SQL@,
    }
}

/// A span of time: whole seconds and the nanoseconds beyond them.
#[derive(Debug, Clone, Copy, PartialEq, Eq, Structural)]
pub struct Delay {
    pub secs: u64,
    pub nanos: u32,
}

/// The span in whole microseconds, the resolution in which PostgreSQL keeps time.
pub open spec fn micros(span: Delay) -> int {
    span.secs * 1_000_000 + span.nanos / 1000
}

/// Whether a `float8` number of seconds gives the span back to the microsecond: it is one of whole
/// microseconds, and fewer than two to the 51st of them, some 71 years.
pub open spec fn is_carried(span: Delay) -> bool {
    &&& span.nanos < 1_000_000_000
    &&& span.nanos % 1000 == 0
    &&& micros(span) < 2_251_799_813_685_248
}

/// A value for one of a statement's parameters.
#[derive(Debug)]
pub enum Param {
    /// A `text`.
    Text(String),
    /// A `jsonb`.
    Json(Value),
    /// An `int`.
    Int(i32),
    /// A `bigint`.
    BigInt(i64),
    /// A `timestamptz` or NULL, in microseconds since the Unix epoch.
    Timestamp(Option<i64>),
    /// A `uuid`, as its 128 bits.
    Uuid(u128),
    /// A `bigint[]`.
    BigInts(Vec<i64>),
    /// A `uuid[]`.
    Uuids(Vec<u128>),
    /// A `float8` that holds a number of seconds.
    Seconds(Delay),
}

/// What a [`Param`] says, with its texts and lists as sequences.
pub enum ParamView {
    Text(Seq<char>),
    Json(Value),
    Int(i32),
    BigInt(i64),
    Timestamp(Option<i64>),
    Uuid(u128),
    BigInts(Seq<i64>),
    Uuids(Seq<u128>),
    Seconds(Delay),
}

impl View for Param {
    type V = ParamView;

    open spec fn view(&self) -> ParamView {
        match *self {
            Param::Text(text) => ParamView::Text(text@),
            Param::Json(value) => ParamView::Json(value),
            Param::Int(n) => ParamView::Int(n),
            Param::BigInt(n) => ParamView::BigInt(n),
            Param::Timestamp(at) => ParamView::Timestamp(at),
            Param::Uuid(id) => ParamView::Uuid(id),
            Param::BigInts(list) => ParamView::BigInts(list@),
            Param::Uuids(list) => ParamView::Uuids(list@),
            Param::Seconds(span) => ParamView::Seconds(span),
        }
    }
}

/// A statement with a value for each of its parameters, in order.
#[derive(Debug)]
pub struct Statement {
    pub operation: Operation,
    pub params: Vec<Param>,
}

/// What a [`Statement`] says.
#[verifier::ext_equal]
pub struct StatementView {
    pub operation: Operation,
    pub params: Seq<ParamView>,
}

impl View for Statement {
    type V = StatementView;

    open spec fn view(&self) -> StatementView {
        StatementView {
            operation: self.operation,
            params: self.params@.map_values(|param: Param| param@),
        }
    }
}

// ---------------------------
// The statement for each operation
// ---------------------------

pub open spec fn enqueue_statement(
    idempotency_key: Seq<char>,
    payload: Value,
    lease_timeout_seconds: i32,
    visible_at: Option<i64>,
) -> StatementView {
    StatementView {
        operation: Operation::Enqueue,
        params: seq![
            ParamView::Text(idempotency_key),
            ParamView::Json(payload),
            ParamView::Int(lease_timeout_seconds),
            ParamView::Timestamp(visible_at),
        ],
    }
}

pub open spec fn dequeue_statement(
    worker_id: Seq<char>,
    batch_size: i64,
    max_attempts: i32,
) -> StatementView {
    StatementView {
        operation: Operation::Dequeue,
        params: seq![
            ParamView::Int(max_attempts),
            ParamView::BigInt(batch_size),
            ParamView::Text(worker_id),
        ],
    }
}

pub open spec fn ack_statement(lease: LeaseKey) -> StatementView {
    StatementView {
        operation: Operation::Ack,
        params: seq![ParamView::BigInt(lease.job_id), ParamView::Uuid(lease.lease_id)],
    }
}

pub open spec fn ack_batch_statement(leases: Seq<LeaseKey>) -> StatementView {
    StatementView {
        operation: Operation::AckBatch,
        params: seq![
            ParamView::BigInts(leases.map_values(|lease: LeaseKey| lease.job_id)),
            ParamView::Uuids(leases.map_values(|lease: LeaseKey| lease.lease_id)),
        ],
    }
}

/// Without a delay the job is visible at once.
pub open spec fn delay_or_none(delay: Option<Delay>) -> Delay {
    match delay {
        Some(span) => span,
        None => Delay { secs: 0, nanos: 0 },
    }
}

pub open spec fn nack_statement(
    lease: LeaseKey,
    max_attempts: i32,
    delay: Option<Delay>,
) -> StatementView {
    StatementView {
        operation: Operation::Nack,
        params: seq![
            ParamView::BigInt(lease.job_id),
            ParamView::Uuid(lease.lease_id),
            ParamView::Int(max_attempts),
            ParamView::Seconds(delay_or_none(delay)),
        ],
    }
}

pub open spec fn touch_statement(lease: LeaseKey, lease_seconds: i32) -> StatementView {
    StatementView {
        operation: Operation::Touch,
        params: seq![
            ParamView::BigInt(lease.job_id),
            ParamView::Uuid(lease.lease_id),
            ParamView::Seconds(Delay { secs: lease_seconds as u64, nanos: 0 }),
        ],
    }
}

impl Statement {
    /// The text of the statement.
    pub fn sql(&self) -> (text: &'static str)
        ensures
            text@ == sql_text(self@.operation),
    {
        match self.operation {
            Operation::Enqueue => ENQUEUE_SQL,
            Operation::Dequeue => DEQUEUE_SQL,
            Operation::Ack => ACK_SQL,
            Operation::AckBatch => ACK_BATCH_SQL,
            Operation::Nack => NACK_SQL,
            Operation::Touch => TOUCH_SQL,
        }
    }
}

} // verus!
