//! How the statements are read: what each says, parameter by parameter, as a [step](Step) on the
//! `jobs` table.
//!
//! This ties what the [queue](crate::queue) sends to what the [table](crate::table) does. It is a
//! reading of the SQL; nothing is proved of PostgreSQL.

use crate::histories::{after_step, Step};
use crate::job::{JobView, LeaseKey};
use crate::rows::{acked, created, nacked, touched, MICROS};
use crate::statement::{
    ack_batch_statement, ack_statement, delay_or_none, dequeue_statement, enqueue_statement,
    is_carried, micros, nack_statement, touch_statement, Delay, Operation, ParamView,
    StatementView,
};
use crate::table::{
    acked_rows, after_ack, after_ack_batch, after_dequeue, after_nack, after_touch, dequeued_rows,
    has_key, lease_current, leased_row, Claim,
};
use vstd::multiset::Multiset;
use vstd::prelude::*;

verus! {

/// What the server brings in when it carries out a statement.
pub struct Server {
    /// Its time.
    pub now: int,
    /// The id that it generates for a new row.
    pub id: i64,
    /// The form in which it stores the payload of a new row.
    pub stored: serde_json::Value,
    /// The lease ids that it generates.
    pub lease_ids: Seq<u128>,
    /// The ids of the rows that other sessions have locked.
    pub locked: Seq<i64>,
}

/// The pairs that `unnest` makes of two lists. Where one list is longer, it pairs the rest with NULL,
/// which is no lease.
pub open spec fn unnested(job_ids: Seq<i64>, lease_ids: Seq<u128>) -> Seq<LeaseKey> {
    Seq::new(
        if job_ids.len() <= lease_ids.len() {
            job_ids.len()
        } else {
            lease_ids.len()
        },
        |k: int| LeaseKey { job_id: job_ids[k], lease_id: lease_ids[k] },
    )
}

/// What the statement says. Parameters that do not fit the statement say nothing, and neither does a
/// span of time that a `float8` does not carry to the microsecond.
pub open spec fn reading(statement: StatementView, server: Server) -> Option<Step> {
    let p = statement.params;
    match statement.operation {
        Operation::Enqueue => match (p[0], p[1], p[2], p[3]) {
            (
                ParamView::Text(key),
                ParamView::Json(_),
                ParamView::Int(lease_timeout_seconds),
                ParamView::Timestamp(visible_at),
            ) if p.len() == 4 => Some(
                Step::Enqueue {
                    id: server.id,
                    key,
                    stored: server.stored,
                    lease_timeout_seconds: lease_timeout_seconds as int,
                    visible_at: match visible_at {
                        Some(at) => Some(at as int),
                        None => None,
                    },
                    now: server.now,
                },
            ),
            _ => None,
        },
        Operation::Dequeue => match (p[0], p[1], p[2]) {
            (
                ParamView::Int(max_attempts),
                ParamView::BigInt(batch_size),
                ParamView::Text(worker),
            ) if p.len() == 3 => Some(
                Step::Dequeue {
                    claim: claim_of(batch_size, max_attempts, server),
                    worker,
                    lease_ids: server.lease_ids,
                },
            ),
            _ => None,
        },
        Operation::Ack => match (p[0], p[1]) {
            (ParamView::BigInt(job_id), ParamView::Uuid(lease_id)) if p.len() == 2 => Some(
                Step::Ack { lease: LeaseKey { job_id, lease_id }, now: server.now },
            ),
            _ => None,
        },
        Operation::AckBatch => match (p[0], p[1]) {
            (ParamView::BigInts(job_ids), ParamView::Uuids(lease_ids)) if p.len() == 2 => Some(
                Step::AckBatch { leases: unnested(job_ids, lease_ids), now: server.now },
            ),
            _ => None,
        },
        Operation::Nack => match (p[0], p[1], p[2], p[3]) {
            (
                ParamView::BigInt(job_id),
                ParamView::Uuid(lease_id),
                ParamView::Int(max_attempts),
                ParamView::Seconds(span),
            ) if p.len() == 4 && is_carried(span) => Some(
                Step::Nack {
                    lease: LeaseKey { job_id, lease_id },
                    max_attempts: max_attempts as int,
                    delay: micros(span),
                    now: server.now,
                },
            ),
            _ => None,
        },
        Operation::Touch => match (p[0], p[1], p[2]) {
            (
                ParamView::BigInt(job_id),
                ParamView::Uuid(lease_id),
                ParamView::Seconds(span),
            ) if p.len() == 3 && is_carried(span) && span.nanos == 0 => Some(
                Step::Touch {
                    lease: LeaseKey { job_id, lease_id },
                    seconds: span.secs as int,
                    now: server.now,
                },
            ),
            _ => None,
        },
    }
}

/// What a worker asks for with a dequeue.
pub open spec fn claim_of(batch_size: i64, max_attempts: i32, server: Server) -> Claim {
    Claim {
        locked: server.locked,
        max_attempts: max_attempts as int,
        batch_size: batch_size as int,
        now: server.now,
    }
}

/// The row that comes back for `lease`, where it is current: `row`.
pub open spec fn row_if_current(rows: Seq<JobView>, lease: LeaseKey, row: JobView) -> Multiset<
    JobView,
> {
    if lease_current(rows, lease) {
        Multiset::singleton(row)
    } else {
        Multiset::empty()
    }
}

/// The rows that the step returns. Their order is left open.
pub open spec fn reply(rows: Seq<JobView>, step: Step) -> Multiset<JobView> {
    match step {
        Step::Enqueue { id, key, stored, lease_timeout_seconds, visible_at, now } => {
            if has_key(rows, key) {
                Multiset::empty()
            } else {
                Multiset::singleton(
                    created(id, key, stored, lease_timeout_seconds, visible_at, now),
                )
            }
        },
        Step::Dequeue { claim, worker, lease_ids } => dequeued_rows(
            rows,
            claim,
            worker,
            lease_ids,
        ).to_multiset(),
        Step::Ack { lease, now } => row_if_current(
            rows,
            lease,
            acked(leased_row(rows, lease), now),
        ),
        Step::AckBatch { leases, now } => acked_rows(rows, leases, now).to_multiset(),
        Step::Nack { lease, max_attempts, delay, now } => row_if_current(
            rows,
            lease,
            nacked(leased_row(rows, lease), max_attempts, delay, now),
        ),
        Step::Touch { lease, seconds, now } => row_if_current(
            rows,
            lease,
            touched(leased_row(rows, lease), seconds, now),
        ),
    }
}

/// Whether carrying the statement out on `rows` leaves `after` and returns `returned`.
pub open spec fn carries_out(
    statement: StatementView,
    server: Server,
    rows: Seq<JobView>,
    after: Seq<JobView>,
    returned: Multiset<JobView>,
) -> bool {
    reading(statement, server) matches Some(step) && after == after_step(rows, step) && returned
        == reply(rows, step)
}

/// Carrying out the statement for an enqueue inserts the job and returns it, unless its key is taken.
pub proof fn enqueue_statement_inserts(
    rows: Seq<JobView>,
    server: Server,
    key: Seq<char>,
    payload: serde_json::Value,
    lease_timeout_seconds: i32,
    visible_at: Option<i64>,
)
    ensures
        ({
            let statement = enqueue_statement(key, payload, lease_timeout_seconds, visible_at);
            let at = match visible_at {
                Some(at) => Some(at as int),
                None => None,
            };
            let job = created(
                server.id,
                key,
                server.stored,
                lease_timeout_seconds as int,
                at,
                server.now,
            );
            if has_key(rows, key) {
                carries_out(statement, server, rows, rows, Multiset::empty())
            } else {
                carries_out(statement, server, rows, rows.push(job), Multiset::singleton(job))
            }
        }),
{
}

/// Carrying out the statement for a dequeue leases the next batch to the worker and returns it.
pub proof fn dequeue_statement_leases(
    rows: Seq<JobView>,
    server: Server,
    worker: Seq<char>,
    batch_size: i64,
    max_attempts: i32,
)
    ensures
        ({
            let claim = claim_of(batch_size, max_attempts, server);
            carries_out(
                dequeue_statement(worker, batch_size, max_attempts),
                server,
                rows,
                after_dequeue(rows, claim, worker, server.lease_ids),
                dequeued_rows(rows, claim, worker, server.lease_ids).to_multiset(),
            )
        }),
{
}

/// Carrying out the statement for an ack completes the job that is held under the lease and returns
/// it, where the lease is current.
pub proof fn ack_statement_completes(rows: Seq<JobView>, server: Server, lease: LeaseKey)
    ensures
        carries_out(
            ack_statement(lease),
            server,
            rows,
            after_ack(rows, lease, server.now),
            row_if_current(rows, lease, acked(leased_row(rows, lease), server.now)),
        ),
{
}

/// Carrying out the statement for a batch of acks completes the jobs that are held under its leases
/// and returns them.
pub proof fn ack_batch_statement_completes(
    rows: Seq<JobView>,
    server: Server,
    leases: Seq<LeaseKey>,
)
    ensures
        carries_out(
            ack_batch_statement(leases),
            server,
            rows,
            after_ack_batch(rows, leases, server.now),
            acked_rows(rows, leases, server.now).to_multiset(),
        ),
{
    let job_ids = leases.map_values(|lease: LeaseKey| lease.job_id);
    let lease_ids = leases.map_values(|lease: LeaseKey| lease.lease_id);
    assert(unnested(job_ids, lease_ids) =~= leases);
}

/// Carrying out the statement for a nack gives up the job that is held under the lease, for the delay
/// that was asked for, and returns it, where the lease is current. The delay is one that a `float8`
/// carries.
pub proof fn nack_statement_gives_up(
    rows: Seq<JobView>,
    server: Server,
    lease: LeaseKey,
    max_attempts: i32,
    delay: Option<Delay>,
)
    requires
        is_carried(delay_or_none(delay)),
    ensures
        ({
            let span = micros(delay_or_none(delay));
            carries_out(
                nack_statement(lease, max_attempts, delay),
                server,
                rows,
                after_nack(rows, lease, max_attempts as int, span, server.now),
                row_if_current(
                    rows,
                    lease,
                    nacked(leased_row(rows, lease), max_attempts as int, span, server.now),
                ),
            )
        }),
{
}

/// Carrying out the statement for a touch extends the lease by the seconds that were asked for and
/// returns the job, where the lease is current.
pub proof fn touch_statement_extends(
    rows: Seq<JobView>,
    server: Server,
    lease: LeaseKey,
    lease_seconds: i32,
)
    requires
        lease_seconds > 0,
    ensures
        carries_out(
            touch_statement(lease, lease_seconds),
            server,
            rows,
            after_touch(rows, lease, lease_seconds as int, server.now),
            row_if_current(
                rows,
                lease,
                touched(leased_row(rows, lease), lease_seconds as int, server.now),
            ),
        ),
        micros(Delay { secs: lease_seconds as u64, nanos: 0 }) == MICROS * lease_seconds,
{
}

} // verus!
