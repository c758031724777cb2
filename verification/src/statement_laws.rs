//! What the queue sends: each statement carries the arguments of its operation, whatever they are.

use crate::effects::{
    ack_leaves_the_job_done, nack_retries_after_the_delay_or_fails, touch_moves_the_expiry,
};
use crate::error::QueueError;
use crate::histories::after_step;
use crate::job::{JobStatus, JobView, LeaseKey};
use crate::queue::refused;
use crate::reading::{reading, reply, Server};
use crate::statement::{
    ack_batch_statement, ack_statement, dequeue_statement, enqueue_statement, nack_statement,
    sql_text, touch_statement, Delay, Operation, Param, ParamView, Statement, ACK_BATCH_SQL,
    ACK_SQL, DEQUEUE_SQL, ENQUEUE_SQL, NACK_SQL, TOUCH_SQL,
};
use crate::table::table_wf;
use serde_json::Value;
use vstd::multiset::Multiset;
use vstd::prelude::*;

verus! {

// ---------------------------
// Parameters
// ---------------------------

/// The statement for an enqueue carries the key, the document, the lease timeout and the time that
/// the caller gave, each as it is and whatever the others are.
pub proof fn enqueue_sends_what_it_was_given(
    key: Seq<char>,
    payload: Value,
    lease_timeout_seconds: i32,
    visible_at: Option<i64>,
)
    ensures
        ({
            let statement = enqueue_statement(key, payload, lease_timeout_seconds, visible_at);
            &&& sql_text(statement.operation) == ENQUEUE_SQL@
            &&& statement.params.len() == 4
            &&& statement.params[0] == ParamView::Text(key)
            &&& statement.params[1] == ParamView::Json(payload)
            &&& statement.params[2] == ParamView::Int(lease_timeout_seconds)
            &&& statement.params[3] == ParamView::Timestamp(visible_at)
        }),
{
}

/// The statement for a dequeue carries the limit on attempts, the batch size and the worker.
pub proof fn dequeue_sends_what_it_was_given(
    worker_id: Seq<char>,
    batch_size: i64,
    max_attempts: i32,
)
    ensures
        ({
            let statement = dequeue_statement(worker_id, batch_size, max_attempts);
            &&& sql_text(statement.operation) == DEQUEUE_SQL@
            &&& statement.params.len() == 3
            &&& statement.params[0] == ParamView::Int(max_attempts)
            &&& statement.params[1] == ParamView::BigInt(batch_size)
            &&& statement.params[2] == ParamView::Text(worker_id)
        }),
{
}

/// The statement for an ack carries the job id and the lease id of the lease.
pub proof fn ack_sends_the_lease(lease: LeaseKey)
    ensures
        ({
            let statement = ack_statement(lease);
            &&& sql_text(statement.operation) == ACK_SQL@
            &&& statement.params.len() == 2
            &&& statement.params[0] == ParamView::BigInt(lease.job_id)
            &&& statement.params[1] == ParamView::Uuid(lease.lease_id)
        }),
{
}

/// The statement for a batch of acks carries two lists as long as the batch, in which the job id and
/// the lease id of each lease stand at the lease's own place.
pub proof fn ack_batch_sends_every_lease(leases: Seq<LeaseKey>)
    ensures
        ({
            let statement = ack_batch_statement(leases);
            &&& sql_text(statement.operation) == ACK_BATCH_SQL@
            &&& statement.params.len() == 2
            &&& statement.params[0] matches ParamView::BigInts(job_ids) && {
                &&& job_ids.len() == leases.len()
                &&& forall|k: int|
                    0 <= k < leases.len() ==> #[trigger] job_ids[k] == leases[k].job_id
            }
            &&& statement.params[1] matches ParamView::Uuids(lease_ids) && {
                &&& lease_ids.len() == leases.len()
                &&& forall|k: int|
                    0 <= k < leases.len() ==> #[trigger] lease_ids[k] == leases[k].lease_id
            }
        }),
{
}

/// The statement for a nack carries the lease, the limit on attempts, and the very delay that was
/// given, seconds and nanoseconds; where none was given, and only there, zero is put in its place.
pub proof fn nack_sends_the_delay_it_was_given(
    lease: LeaseKey,
    max_attempts: i32,
    delay: Option<Delay>,
)
    ensures
        ({
            let statement = nack_statement(lease, max_attempts, delay);
            &&& sql_text(statement.operation) == NACK_SQL@
            &&& statement.params.len() == 4
            &&& statement.params[0] == ParamView::BigInt(lease.job_id)
            &&& statement.params[1] == ParamView::Uuid(lease.lease_id)
            &&& statement.params[2] == ParamView::Int(max_attempts)
            &&& delay matches Some(given) ==> (statement.params[3] matches ParamView::Seconds(sent)
                && sent.secs == given.secs && sent.nanos == given.nanos)
            &&& delay is None ==> (statement.params[3] matches ParamView::Seconds(sent)
                && sent.secs == 0 && sent.nanos == 0)
        }),
{
}

/// The statement for a touch carries the lease and the seconds that were asked for.
pub proof fn touch_sends_the_seconds_it_was_given(lease: LeaseKey, lease_seconds: i32)
    requires
        lease_seconds > 0,
    ensures
        ({
            let statement = touch_statement(lease, lease_seconds);
            &&& sql_text(statement.operation) == TOUCH_SQL@
            &&& statement.params.len() == 3
            &&& statement.params[0] == ParamView::BigInt(lease.job_id)
            &&& statement.params[1] == ParamView::Uuid(lease.lease_id)
            &&& statement.params[2] matches ParamView::Seconds(sent) && sent.secs == lease_seconds
                && sent.nanos == 0
        }),
{
}

/// Each operation has a statement of its own.
pub proof fn each_operation_has_its_text()
    ensures
        sql_text(Operation::Enqueue) == ENQUEUE_SQL@,
        sql_text(Operation::Dequeue) == DEQUEUE_SQL@,
        sql_text(Operation::Ack) == ACK_SQL@,
        sql_text(Operation::AckBatch) == ACK_BATCH_SQL@,
        sql_text(Operation::Nack) == NACK_SQL@,
        sql_text(Operation::Touch) == TOUCH_SQL@,
{
}

/// What a statement says is what it holds: its operation, and the value of each parameter in its
/// place.
pub proof fn statement_says_what_it_holds(statement: Statement, i: int)
    requires
        0 <= i < statement.params@.len(),
    ensures
        statement@.operation == statement.operation,
        statement@.params.len() == statement.params@.len(),
        match statement.params@[i] {
            Param::Text(text) => statement@.params[i] == ParamView::Text(text@),
            Param::Json(value) => statement@.params[i] == ParamView::Json(value),
            Param::Int(n) => statement@.params[i] == ParamView::Int(n),
            Param::BigInt(n) => statement@.params[i] == ParamView::BigInt(n),
            Param::Timestamp(at) => statement@.params[i] == ParamView::Timestamp(at),
            Param::Uuid(id) => statement@.params[i] == ParamView::Uuid(id),
            Param::BigInts(list) => statement@.params[i] == ParamView::BigInts(list@),
            Param::Uuids(list) => statement@.params[i] == ParamView::Uuids(list@),
            Param::Seconds(span) => statement@.params[i] == ParamView::Seconds(span),
        },
{
}

/// Arguments are refused for a reason only as an invalid argument with that reason as its text.
pub proof fn refusal_gives_its_reason(asked: Result<Statement, QueueError>, reason: Seq<char>)
    ensures
        refused(asked, reason) ==> asked is Err && asked->Err_0 is InvalidArgument
            && asked->Err_0->InvalidArgument_0@ == reason,
{
}

// ---------------------------
// What carrying a statement out brings about
// ---------------------------

/// Carrying out the statement for a nack with a delay of whole microseconds makes a job with attempts
/// left visible exactly that long from now; without a delay, now.
pub proof fn nack_with_a_delay_postpones_the_retry(
    rows: Seq<JobView>,
    server: Server,
    lease: LeaseKey,
    max_attempts: i32,
    delay: Option<Delay>,
    i: int,
)
    requires
        table_wf(rows),
        0 <= i < rows.len(),
        rows[i].status == JobStatus::InProgress,
        rows[i].id == lease.job_id,
        rows[i].lease_id == Some(lease.lease_id),
        rows[i].attempt_count < max_attempts,
        delay matches Some(given) ==> given.nanos < 1_000_000_000 && given.nanos % 1000 == 0
            && given.secs * 1_000_000 + given.nanos / 1000 < 2_251_799_813_685_248,
    ensures
        ({
            let step = reading(nack_statement(lease, max_attempts, delay), server);
            &&& step is Some
            &&& after_step(rows, step->0)[i].status == JobStatus::Pending
            &&& after_step(rows, step->0)[i].visible_at == match delay {
                Some(given) => server.now + given.secs * 1_000_000 + given.nanos / 1000,
                None => server.now,
            }
            &&& reply(rows, step->0) == Multiset::singleton(after_step(rows, step->0)[i])
        }),
{
    let span = match delay {
        Some(given) => given.secs * 1_000_000 + given.nanos / 1000,
        None => 0,
    };
    nack_retries_after_the_delay_or_fails(
        rows,
        lease,
        max_attempts as int,
        span,
        server.now,
        i,
    );
}

/// Carrying out the statement for a touch hides the job until the seconds that were asked for have
/// passed.
pub proof fn touch_hides_the_job_for_the_seconds(
    rows: Seq<JobView>,
    server: Server,
    lease: LeaseKey,
    lease_seconds: i32,
    i: int,
)
    requires
        table_wf(rows),
        0 <= i < rows.len(),
        rows[i].status == JobStatus::InProgress,
        rows[i].id == lease.job_id,
        rows[i].lease_id == Some(lease.lease_id),
        lease_seconds > 0,
    ensures
        ({
            let step = reading(touch_statement(lease, lease_seconds), server);
            &&& step is Some
            &&& after_step(rows, step->0)[i].status == JobStatus::InProgress
            &&& after_step(rows, step->0)[i].visible_at == server.now + 1_000_000 * lease_seconds
            &&& reply(rows, step->0) == Multiset::singleton(after_step(rows, step->0)[i])
        }),
{
    touch_moves_the_expiry(rows, lease, lease_seconds as int, server.now, i);
}

/// Carrying out the statement for an ack leaves the job done.
pub proof fn ack_finishes_the_job(rows: Seq<JobView>, server: Server, lease: LeaseKey, i: int)
    requires
        table_wf(rows),
        0 <= i < rows.len(),
        rows[i].status == JobStatus::InProgress,
        rows[i].id == lease.job_id,
        rows[i].lease_id == Some(lease.lease_id),
    ensures
        ({
            let step = reading(ack_statement(lease), server);
            &&& step is Some
            &&& after_step(rows, step->0)[i].status == JobStatus::Done
            &&& reply(rows, step->0) == Multiset::singleton(after_step(rows, step->0)[i])
        }),
{
    ack_leaves_the_job_done(rows, lease, server.now, i);
}

} // verus!
