//! What holds over any sequence of the queue's statements.

use crate::effects::{
    dequeue_counts_the_attempt, dequeue_fails_only_the_exhausted, is_handed_out,
    well_formed_table_leases_what_is_in_progress,
};
use crate::job::{JobStatus, JobView, LeaseKey};
use crate::rows::{acked, created, holds_lease, nacked};
use crate::table::{
    after_ack, after_ack_batch, after_dequeue, after_nack, after_touch, dequeued_rows, has_id,
    has_key, is_candidate, lease_current, leased_row, leases_distinct, lemma_dequeue_keeps_wf,
    next_batch, row_wf, table_wf, Claim,
};
use crate::table_laws::{
    active_lease_ids_stay_distinct, attempts_within, handed_out_lease_is_current,
    lease_ends_with_ack_or_nack, next_batch_is_determined, started_jobs_were_handed_out,
    waiting_jobs_have_attempts,
};
use vstd::prelude::*;

verus! {

/// A statement with its arguments, and with what the server brings in.
pub enum Step {
    Enqueue {
        id: i64,
        key: Seq<char>,
        stored: serde_json::Value,
        lease_timeout_seconds: int,
        visible_at: Option<int>,
        now: int,
    },
    Dequeue { claim: Claim, worker: Seq<char>, lease_ids: Seq<u128> },
    Ack { lease: LeaseKey, now: int },
    AckBatch { leases: Seq<LeaseKey>, now: int },
    Nack { lease: LeaseKey, max_attempts: int, delay: int, now: int },
    Touch { lease: LeaseKey, seconds: int, now: int },
}

/// Whether the queue sends the statement, and the server can carry it out on the rows: a new row has
/// an id of its own, and there is a lease id for each row that is handed out.
pub open spec fn step_possible(rows: Seq<JobView>, step: Step) -> bool {
    match step {
        Step::Enqueue { id, key, stored, lease_timeout_seconds, visible_at, now } => {
            lease_timeout_seconds > 0 && !has_id(rows, id)
        },
        Step::Dequeue { claim, worker, lease_ids } => {
            &&& claim.batch_size > 0
            &&& claim.max_attempts > 0
            &&& next_batch(rows, claim).len() <= lease_ids.len()
        },
        Step::Ack { .. } => true,
        Step::AckBatch { .. } => true,
        Step::Nack { lease, max_attempts, delay, now } => max_attempts > 0,
        Step::Touch { lease, seconds, now } => seconds > 0,
    }
}

/// The rows after the statement.
pub open spec fn after_step(rows: Seq<JobView>, step: Step) -> Seq<JobView> {
    match step {
        Step::Enqueue { id, key, stored, lease_timeout_seconds, visible_at, now } => {
            if has_key(rows, key) {
                rows
            } else {
                rows.push(created(id, key, stored, lease_timeout_seconds, visible_at, now))
            }
        },
        Step::Dequeue { claim, worker, lease_ids } => after_dequeue(rows, claim, worker, lease_ids),
        Step::Ack { lease, now } => after_ack(rows, lease, now),
        Step::AckBatch { leases, now } => after_ack_batch(rows, leases, now),
        Step::Nack { lease, max_attempts, delay, now } => after_nack(
            rows,
            lease,
            max_attempts,
            delay,
            now,
        ),
        Step::Touch { lease, seconds, now } => after_touch(rows, lease, seconds, now),
    }
}

/// Whether `tables` are the rows before, between and after `steps`, from an empty table on.
pub open spec fn is_history(tables: Seq<Seq<JobView>>, steps: Seq<Step>) -> bool {
    &&& tables.len() == steps.len() + 1
    &&& tables[0] == Seq::<JobView>::empty()
    &&& forall|k: int|
        0 <= k < steps.len() ==> {
            &&& step_possible(tables[k], #[trigger] steps[k])
            &&& tables[k + 1] == after_step(tables[k], steps[k])
        }
}

/// Whether the statement generates the lease id.
pub open spec fn generates(step: Step, lease_id: u128) -> bool {
    step matches Step::Dequeue { claim, worker, lease_ids } && lease_ids.contains(lease_id)
}

/// Whether none of the statements from `from` up to `to` generates the lease id.
pub open spec fn not_generated(steps: Seq<Step>, from: int, to: int, lease_id: u128) -> bool {
    forall|k: int| from <= k < to ==> !generates(#[trigger] steps[k], lease_id)
}

/// Whether the statement settles the lease: it completes the job or gives it up.
pub open spec fn settles(step: Step, lease: LeaseKey) -> bool {
    match step {
        Step::Ack { lease: settled, now } => settled == lease,
        Step::AckBatch { leases, now } => leases.contains(lease),
        Step::Nack { lease: settled, max_attempts, delay, now } => settled == lease,
        _ => false,
    }
}

// ---------------------------
// One step
// ---------------------------

/// A statement keeps every row in its place, with its id and its key.
proof fn lemma_step_keeps_places(rows: Seq<JobView>, step: Step)
    ensures
        rows.len() <= after_step(rows, step).len(),
        forall|i: int|
            0 <= i < rows.len() ==> {
                &&& (#[trigger] after_step(rows, step)[i]).id == rows[i].id
                &&& after_step(rows, step)[i].idempotency_key == rows[i].idempotency_key
            },
{
}

proof fn lemma_step_keeps_wf(rows: Seq<JobView>, step: Step)
    requires
        table_wf(rows),
        step_possible(rows, step),
    ensures
        table_wf(after_step(rows, step)),
{
    let after = after_step(rows, step);
    lemma_step_keeps_places(rows, step);
    match step {
        Step::Dequeue { claim, worker, lease_ids } => {
            lemma_dequeue_keeps_wf(rows, claim, worker, lease_ids);
        },
        _ => {
            assert forall|i: int| 0 <= i < after.len() implies row_wf(#[trigger] after[i]) by {
                if i < rows.len() {
                    assert(row_wf(rows[i]));
                }
            }
            assert forall|i: int, j: int| 0 <= i < j < after.len() implies #[trigger] after[i].id
                != #[trigger] after[j].id && after[i].idempotency_key
                != after[j].idempotency_key by {
                assert(rows[i].id == after[i].id);
                if j < rows.len() {
                    assert(rows[i].id != rows[j].id);
                    assert(rows[i].idempotency_key != rows[j].idempotency_key);
                } else {
                    assert(rows[i].idempotency_key == after[i].idempotency_key);
                }
            }
        },
    }
}

proof fn lemma_step_keeps_lost(rows: Seq<JobView>, step: Step, lease: LeaseKey)
    requires
        step_possible(rows, step),
        !lease_current(rows, lease),
        !generates(step, lease.lease_id),
    ensures
        !lease_current(after_step(rows, step), lease),
{
    let after = after_step(rows, step);
    assert forall|i: int| 0 <= i < after.len() implies !#[trigger] holds_lease(after[i], lease) by {
        if i < rows.len() {
            assert(!holds_lease(rows[i], lease));
            if let Step::Dequeue { claim, worker, lease_ids } = step {
                let picks = next_batch(rows, claim);
                if picks.contains(i) {
                    assert(lease_ids.contains(lease_ids[picks.index_of(i)]));
                }
            }
        }
    }
}

/// A row that is held under a lease before and after a statement has not been handed out by it.
proof fn lemma_step_keeps_attempt(rows: Seq<JobView>, step: Step, lease: LeaseKey, i: int)
    requires
        step_possible(rows, step),
        0 <= i < rows.len(),
        holds_lease(rows[i], lease),
        holds_lease(after_step(rows, step)[i], lease),
        !generates(step, lease.lease_id),
    ensures
        after_step(rows, step)[i].attempt_count == rows[i].attempt_count,
        after_step(rows, step)[i].leased_by == rows[i].leased_by,
{
    if let Step::Dequeue { claim, worker, lease_ids } = step {
        let picks = next_batch(rows, claim);
        if picks.contains(i) {
            assert(lease_ids.contains(lease_ids[picks.index_of(i)]));
        }
    }
}

// ---------------------------
// Any number of steps
// ---------------------------

/// Whatever statements have been carried out, no two jobs share an id or a key, and a job is leased
/// exactly while it is in progress.
pub proof fn tables_stay_well_formed(tables: Seq<Seq<JobView>>, steps: Seq<Step>, k: int)
    requires
        is_history(tables, steps),
        0 <= k < tables.len(),
    ensures
        table_wf(tables[k]),
    decreases k,
{
    if k > 0 {
        tables_stay_well_formed(tables, steps, k - 1);
        assert(step_possible(tables[k - 1], steps[k - 1]));
        lemma_step_keeps_wf(tables[k - 1], steps[k - 1]);
    }
}

/// A lease that has been lost is never current again, as long as the server does not generate its id
/// again.
pub proof fn lost_lease_never_returns(
    tables: Seq<Seq<JobView>>,
    steps: Seq<Step>,
    from: int,
    to: int,
    lease: LeaseKey,
)
    requires
        is_history(tables, steps),
        0 <= from <= to < tables.len(),
        !lease_current(tables[from], lease),
        not_generated(steps, from, to, lease.lease_id),
    ensures
        !lease_current(tables[to], lease),
    decreases to - from,
{
    if from < to {
        lost_lease_never_returns(tables, steps, from, to - 1, lease);
        assert(step_possible(tables[to - 1], steps[to - 1]));
        lemma_step_keeps_lost(tables[to - 1], steps[to - 1], lease);
    }
}

/// A lease settles its job once: after the statement that completes the job or gives it up, the
/// lease is never current again, as long as the server does not generate its id again.
pub proof fn lease_settles_once(
    tables: Seq<Seq<JobView>>,
    steps: Seq<Step>,
    at: int,
    to: int,
    lease: LeaseKey,
)
    requires
        is_history(tables, steps),
        0 <= at < to < tables.len(),
        settles(steps[at], lease),
        not_generated(steps, at, to, lease.lease_id),
    ensures
        !lease_current(tables[to], lease),
{
    let rows = tables[at];
    let none = Seq::<LeaseKey>::empty();
    assert(step_possible(rows, steps[at]));
    match steps[at] {
        Step::Ack { lease: settled, now } => {
            lease_ends_with_ack_or_nack(rows, lease, none, 0, 0, 0, now);
        },
        Step::AckBatch { leases, now } => {
            lease_ends_with_ack_or_nack(rows, lease, leases, 0, 0, 0, now);
        },
        Step::Nack { lease: settled, max_attempts, delay, now } => {
            lease_ends_with_ack_or_nack(rows, lease, none, max_attempts, delay, 0, now);
        },
        _ => {},
    }
    lost_lease_never_returns(tables, steps, at + 1, to, lease);
}

/// While a lease is current, the job stays at the attempt for which the lease was handed out, and
/// with the worker that it was handed to, as long as the server does not generate the lease id again.
pub proof fn leased_job_keeps_its_attempt(
    tables: Seq<Seq<JobView>>,
    steps: Seq<Step>,
    from: int,
    to: int,
    lease: LeaseKey,
)
    requires
        is_history(tables, steps),
        0 <= from <= to < tables.len(),
        lease_current(tables[from], lease),
        lease_current(tables[to], lease),
        not_generated(steps, from, to, lease.lease_id),
    ensures
        leased_row(tables[to], lease).attempt_count == leased_row(
            tables[from],
            lease,
        ).attempt_count,
        leased_row(tables[to], lease).leased_by == leased_row(tables[from], lease).leased_by,
    decreases to - from,
{
    if from < to {
        let rows = tables[to - 1];
        let step = steps[to - 1];
        assert(step_possible(rows, step));
        assert(tables[to] == after_step(rows, step));
        if !lease_current(rows, lease) {
            lost_lease_never_returns(tables, steps, to - 1, to, lease);
        }
        leased_job_keeps_its_attempt(tables, steps, from, to - 1, lease);
        tables_stay_well_formed(tables, steps, to);
        lemma_step_keeps_places(rows, step);
        let i = choose|i: int|
            0 <= i < rows.len() && #[trigger] holds_lease(rows[i], lease) && rows[i] == leased_row(
                rows,
                lease,
            );
        let j = choose|j: int|
            0 <= j < tables[to].len() && #[trigger] holds_lease(tables[to][j], lease)
                && tables[to][j] == leased_row(tables[to], lease);
        assert(tables[to][i].id == rows[i].id);
        assert(tables[to][j].id == tables[to][i].id);
        assert(i == j);
        lemma_step_keeps_attempt(rows, step, lease, i);
    }
}

/// What a worker settles is the attempt that it was handed: as long as its lease is current, its job
/// is at that attempt, and completing it or giving it up reports that attempt. The server must not
/// have generated the lease id again.
pub proof fn settled_attempt_is_the_one_handed_out(
    tables: Seq<Seq<JobView>>,
    steps: Seq<Step>,
    at: int,
    to: int,
    k: int,
    max_attempts: int,
    delay: int,
    now: int,
)
    requires
        is_history(tables, steps),
        0 <= at < to < tables.len(),
        steps[at] matches Step::Dequeue { claim, worker, lease_ids } && {
            let jobs = dequeued_rows(tables[at], claim, worker, lease_ids);
            let lease = LeaseKey { job_id: jobs[k].id, lease_id: lease_ids[k] };
            &&& 0 <= k < jobs.len()
            &&& not_generated(steps, at + 1, to, lease.lease_id)
            &&& lease_current(tables[to], lease)
        },
    ensures
        steps[at] matches Step::Dequeue { claim, worker, lease_ids } && {
            let job = dequeued_rows(tables[at], claim, worker, lease_ids)[k];
            let row = leased_row(tables[to], LeaseKey { job_id: job.id, lease_id: lease_ids[k] });
            &&& row.attempt_count == job.attempt_count
            &&& row.leased_by == Some(worker)
            &&& acked(row, now).attempt_count == job.attempt_count
            &&& nacked(row, max_attempts, delay, now).attempt_count == job.attempt_count
        },
{
    if let Step::Dequeue { claim, worker, lease_ids } = steps[at] {
        let rows = tables[at];
        let job = dequeued_rows(rows, claim, worker, lease_ids)[k];
        let lease = LeaseKey { job_id: job.id, lease_id: lease_ids[k] };
        assert(step_possible(rows, steps[at]));
        tables_stay_well_formed(tables, steps, at);
        handed_out_lease_is_current(rows, claim, worker, lease_ids, k);
        leased_job_keeps_its_attempt(tables, steps, at + 1, to, lease);
    }
}

// ---------------------------
// What every statement keeps, over any number of them
// ---------------------------

/// What was enqueued is what every later dequeue hands out: a job keeps its place, its id, its key, its
/// payload, its lease timeout and its time of creation for good.
pub proof fn enqueued_job_keeps_its_payload(
    tables: Seq<Seq<JobView>>,
    steps: Seq<Step>,
    from: int,
    to: int,
    i: int,
)
    requires
        is_history(tables, steps),
        0 <= from <= to < tables.len(),
        0 <= i < tables[from].len(),
    ensures
        i < tables[to].len(),
        tables[to][i].id == tables[from][i].id,
        tables[to][i].idempotency_key == tables[from][i].idempotency_key,
        tables[to][i].payload == tables[from][i].payload,
        tables[to][i].lease_timeout_seconds == tables[from][i].lease_timeout_seconds,
        tables[to][i].created_at == tables[from][i].created_at,
    decreases to - from,
{
    if from < to {
        enqueued_job_keeps_its_payload(tables, steps, from, to - 1, i);
        assert(step_possible(tables[to - 1], steps[to - 1]));
        lemma_step_keeps_places(tables[to - 1], steps[to - 1]);
        assert(tables[to][i] == after_step(tables[to - 1], steps[to - 1])[i]);
    }
}

/// A key that has been used stays taken for good.
pub proof fn used_key_is_never_freed(
    tables: Seq<Seq<JobView>>,
    steps: Seq<Step>,
    from: int,
    to: int,
    key: Seq<char>,
)
    requires
        is_history(tables, steps),
        0 <= from <= to < tables.len(),
        has_key(tables[from], key),
    ensures
        has_key(tables[to], key),
    decreases to - from,
{
    if from < to {
        used_key_is_never_freed(tables, steps, from, to - 1, key);
        let rows = tables[to - 1];
        assert(step_possible(rows, steps[to - 1]));
        lemma_step_keeps_places(rows, steps[to - 1]);
        let i = choose|i: int| 0 <= i < rows.len() && #[trigger] rows[i].idempotency_key == key;
        assert(tables[to][i].idempotency_key == key);
    }
}

/// A job that is done or failed stays as it is for good.
pub proof fn finished_job_is_final(
    tables: Seq<Seq<JobView>>,
    steps: Seq<Step>,
    from: int,
    to: int,
    i: int,
)
    requires
        is_history(tables, steps),
        0 <= from <= to < tables.len(),
        0 <= i < tables[from].len(),
        tables[from][i].status == JobStatus::Done || tables[from][i].status == JobStatus::Failed,
    ensures
        i < tables[to].len(),
        tables[to][i] == tables[from][i],
    decreases to - from,
{
    if from < to {
        finished_job_is_final(tables, steps, from, to - 1, i);
        let rows = tables[to - 1];
        assert(step_possible(rows, steps[to - 1]));
        lemma_step_keeps_places(rows, steps[to - 1]);
        if let Step::Dequeue { claim, worker, lease_ids } = steps[to - 1] {
            tables_stay_well_formed(tables, steps, to - 1);
            next_batch_is_determined(rows, claim);
            let picks = next_batch(rows, claim);
            if picks.contains(i) {
                let k = choose|k: int| 0 <= k < picks.len() && picks[k] == i;
                assert(is_candidate(rows, claim, picks[k]));
            }
        }
    }
}

/// Whether no dequeue allows more than `max_attempts` attempts.
pub open spec fn dequeues_allow_at_most(steps: Seq<Step>, max_attempts: int) -> bool {
    forall|k: int|
        0 <= k < steps.len() ==> (#[trigger] steps[k] matches Step::Dequeue {
            claim,
            worker,
            lease_ids,
        } ==> claim.max_attempts <= max_attempts)
}

/// No job is ever handed out more often than the dequeues allow.
pub proof fn attempts_never_exceed_the_limit(
    tables: Seq<Seq<JobView>>,
    steps: Seq<Step>,
    k: int,
    max_attempts: int,
)
    requires
        is_history(tables, steps),
        0 <= k < tables.len(),
        max_attempts >= 0,
        dequeues_allow_at_most(steps, max_attempts),
    ensures
        attempts_within(tables[k], max_attempts),
    decreases k,
{
    if k > 0 {
        attempts_never_exceed_the_limit(tables, steps, k - 1, max_attempts);
        let rows = tables[k - 1];
        assert(step_possible(rows, steps[k - 1]));
        lemma_step_keeps_places(rows, steps[k - 1]);
        assert forall|i: int| 0 <= i < tables[k].len() implies #[trigger] tables[k][i].attempt_count
            <= max_attempts by {
            if i < rows.len() {
                assert(rows[i].attempt_count <= max_attempts);
            }
            if let Step::Dequeue { claim, worker, lease_ids } = steps[k - 1] {
                tables_stay_well_formed(tables, steps, k - 1);
                next_batch_is_determined(rows, claim);
                let picks = next_batch(rows, claim);
                if picks.contains(i) {
                    let n = choose|n: int| 0 <= n < picks.len() && picks[n] == i;
                    assert(is_candidate(rows, claim, picks[n]));
                }
            }
        }
    }
}

/// Whether the server never generates a lease id twice, neither in one dequeue nor in two.
pub open spec fn lease_ids_never_repeat(steps: Seq<Step>) -> bool {
    &&& forall|k: int|
        0 <= k < steps.len() ==> (#[trigger] steps[k] matches Step::Dequeue {
            claim,
            worker,
            lease_ids,
        } ==> lease_ids.no_duplicates())
    &&& forall|k: int, l: int, id: u128|
        0 <= k < l < steps.len() && #[trigger] generates(steps[k], id) ==> !#[trigger] generates(
            steps[l],
            id,
        )
}

/// The id under which a job is leased has been generated.
proof fn lemma_lease_id_was_generated(
    tables: Seq<Seq<JobView>>,
    steps: Seq<Step>,
    k: int,
    i: int,
) -> (at: int)
    requires
        is_history(tables, steps),
        0 <= k < tables.len(),
        0 <= i < tables[k].len(),
        tables[k][i].lease_id is Some,
    ensures
        0 <= at < k,
        generates(steps[at], tables[k][i].lease_id->0),
    decreases k,
{
    let rows = tables[k - 1];
    let step = steps[k - 1];
    assert(k > 0);
    assert(step_possible(rows, step));
    lemma_step_keeps_places(rows, step);
    if i < rows.len() && tables[k][i].lease_id == rows[i].lease_id {
        lemma_lease_id_was_generated(tables, steps, k - 1, i)
    } else {
        if let Step::Dequeue { claim, worker, lease_ids } = step {
            let picks = next_batch(rows, claim);
            assert(picks.contains(i));
            assert(lease_ids.contains(lease_ids[picks.index_of(i)]));
        }
        k - 1
    }
}

/// As long as the server never generates a lease id twice, no two jobs are ever leased under the same
/// one.
pub proof fn active_lease_ids_are_always_distinct(
    tables: Seq<Seq<JobView>>,
    steps: Seq<Step>,
    k: int,
)
    requires
        is_history(tables, steps),
        0 <= k < tables.len(),
        lease_ids_never_repeat(steps),
    ensures
        leases_distinct(tables[k]),
    decreases k,
{
    if k > 0 {
        active_lease_ids_are_always_distinct(tables, steps, k - 1);
        let rows = tables[k - 1];
        let step = steps[k - 1];
        assert(step_possible(rows, step));
        lemma_step_keeps_places(rows, step);
        if let Step::Dequeue { claim, worker, lease_ids } = step {
            tables_stay_well_formed(tables, steps, k - 1);
            assert forall|i: int| 0 <= i < rows.len() && #[trigger] rows[i].lease_id
                is Some implies !lease_ids.contains(rows[i].lease_id->0) by {
                let at = lemma_lease_id_was_generated(tables, steps, k - 1, i);
                assert(!generates(steps[k - 1], rows[i].lease_id->0));
            }
            let no_lease = LeaseKey { job_id: 0, lease_id: 0 };
            let job = JobView { lease_id: None, ..rows[0] };
            active_lease_ids_stay_distinct(
                rows,
                job,
                claim,
                worker,
                lease_ids,
                no_lease,
                Seq::empty(),
                0,
                0,
            );
        } else {
            let after = tables[k];
            assert forall|i: int, j: int|
                0 <= i < j < after.len() && #[trigger] after[i].lease_id is Some
                    && #[trigger] after[j].lease_id is Some implies after[i].lease_id
                != after[j].lease_id by {
                assert(i < rows.len() && after[i].lease_id == rows[i].lease_id);
                assert(j < rows.len() && after[j].lease_id == rows[j].lease_id);
            }
        }
    }
}

/// Delivery is at least once: whatever statements have been carried out, no job is done or failed
/// that was not handed to a worker first.
pub proof fn jobs_always_finish_after_delivery(
    tables: Seq<Seq<JobView>>,
    steps: Seq<Step>,
    k: int,
)
    requires
        is_history(tables, steps),
        0 <= k < tables.len(),
    ensures
        started_jobs_were_handed_out(tables[k]),
    decreases k,
{
    if k > 0 {
        jobs_always_finish_after_delivery(tables, steps, k - 1);
        tables_stay_well_formed(tables, steps, k - 1);
        let rows = tables[k - 1];
        assert(step_possible(rows, steps[k - 1]));
        lemma_step_keeps_places(rows, steps[k - 1]);
        let after = tables[k];
        assert forall|i: int| 0 <= i < after.len() && #[trigger] after[i].status
            != JobStatus::Pending implies after[i].attempt_count >= 1 by {
            if i < rows.len() {
                assert(row_wf(rows[i]));
                assert(rows[i].status != JobStatus::Pending ==> rows[i].attempt_count >= 1);
            }
        }
    }
}

/// Whether every dequeue and every nack allows `max_attempts` attempts.
pub open spec fn all_allow(steps: Seq<Step>, max_attempts: int) -> bool {
    forall|k: int|
        0 <= k < steps.len() ==> match #[trigger] steps[k] {
            Step::Dequeue { claim, worker, lease_ids } => claim.max_attempts == max_attempts,
            Step::Nack { lease, max_attempts: allowed, delay, now } => allowed == max_attempts,
            _ => true,
        }
}

/// Where every statement allows the same number of attempts, a job that waits for a worker always has
/// one left, so that none is stranded.
pub proof fn waiting_jobs_always_have_an_attempt(
    tables: Seq<Seq<JobView>>,
    steps: Seq<Step>,
    k: int,
    max_attempts: int,
)
    requires
        is_history(tables, steps),
        0 <= k < tables.len(),
        max_attempts > 0,
        all_allow(steps, max_attempts),
    ensures
        waiting_jobs_have_attempts(tables[k], max_attempts),
    decreases k,
{
    if k > 0 {
        waiting_jobs_always_have_an_attempt(tables, steps, k - 1, max_attempts);
        let rows = tables[k - 1];
        assert(step_possible(rows, steps[k - 1]));
        lemma_step_keeps_places(rows, steps[k - 1]);
    }
}

// ---------------------------
// How often a job is handed out
// ---------------------------

/// Whether the statement hands out the job with the id.
pub open spec fn hands_out(rows: Seq<JobView>, step: Step, id: i64) -> bool {
    step matches Step::Dequeue { claim, worker, lease_ids } && is_handed_out(
        rows,
        claim,
        worker,
        lease_ids,
        id,
    )
}

/// How many of the first `k` statements have handed out the job with the id.
pub open spec fn deliveries(
    tables: Seq<Seq<JobView>>,
    steps: Seq<Step>,
    id: i64,
    k: int,
) -> nat
    decreases k,
{
    if k <= 0 {
        0
    } else if hands_out(tables[k - 1], steps[k - 1], id) {
        1 + deliveries(tables, steps, id, k - 1)
    } else {
        deliveries(tables, steps, id, k - 1)
    }
}

/// A statement adds one to the attempts of each job that it hands out, and changes the attempts of no
/// other.
proof fn lemma_step_counts(rows: Seq<JobView>, step: Step, i: int)
    requires
        table_wf(rows),
        step_possible(rows, step),
        0 <= i < rows.len(),
    ensures
        after_step(rows, step)[i].attempt_count == rows[i].attempt_count + if hands_out(
            rows,
            step,
            rows[i].id,
        ) {
            1int
        } else {
            0
        },
{
    if let Step::Dequeue { claim, worker, lease_ids } = step {
        let jobs = dequeued_rows(rows, claim, worker, lease_ids);
        if hands_out(rows, step, rows[i].id) {
            let k = choose|k: int| 0 <= k < jobs.len() && (#[trigger] jobs[k]).id == rows[i].id;
            let j = dequeue_counts_the_attempt(rows, claim, worker, lease_ids, k);
            well_formed_table_leases_what_is_in_progress(rows, i, j);
        } else {
            dequeue_fails_only_the_exhausted(rows, claim, worker, lease_ids, i);
        }
    }
}

/// A job that is not in the table is not handed out.
proof fn lemma_unknown_is_not_handed_out(rows: Seq<JobView>, step: Step, id: i64)
    requires
        table_wf(rows),
        step_possible(rows, step),
        !has_id(rows, id),
    ensures
        !hands_out(rows, step, id),
{
    if let Step::Dequeue { claim, worker, lease_ids } = step {
        let jobs = dequeued_rows(rows, claim, worker, lease_ids);
        if hands_out(rows, step, id) {
            let k = choose|k: int| 0 <= k < jobs.len() && (#[trigger] jobs[k]).id == id;
            let j = dequeue_counts_the_attempt(rows, claim, worker, lease_ids, k);
            assert(rows[j].id == id);
        }
    }
}

/// Before a job is in the table, it has not been handed out.
proof fn lemma_no_delivery_before_enqueue(
    tables: Seq<Seq<JobView>>,
    steps: Seq<Step>,
    id: i64,
    k: int,
)
    requires
        is_history(tables, steps),
        0 <= k < tables.len(),
        !has_id(tables[k], id),
    ensures
        deliveries(tables, steps, id, k) == 0,
    decreases k,
{
    if k > 0 {
        let rows = tables[k - 1];
        assert(step_possible(rows, steps[k - 1]));
        lemma_step_keeps_places(rows, steps[k - 1]);
        if has_id(rows, id) {
            let i = choose|i: int| 0 <= i < rows.len() && #[trigger] rows[i].id == id;
            assert(tables[k][i].id == id);
        }
        tables_stay_well_formed(tables, steps, k - 1);
        lemma_no_delivery_before_enqueue(tables, steps, id, k - 1);
        lemma_unknown_is_not_handed_out(rows, steps[k - 1], id);
    }
}

/// The attempt count of a job is the number of times that it has been handed out.
pub proof fn attempt_count_is_the_number_of_deliveries(
    tables: Seq<Seq<JobView>>,
    steps: Seq<Step>,
    k: int,
    i: int,
)
    requires
        is_history(tables, steps),
        0 <= k < tables.len(),
        0 <= i < tables[k].len(),
    ensures
        tables[k][i].attempt_count == deliveries(tables, steps, tables[k][i].id, k),
    decreases k,
{
    if k > 0 {
        let rows = tables[k - 1];
        let step = steps[k - 1];
        let id = tables[k][i].id;
        assert(step_possible(rows, step));
        lemma_step_keeps_places(rows, step);
        tables_stay_well_formed(tables, steps, k - 1);
        if i < rows.len() {
            attempt_count_is_the_number_of_deliveries(tables, steps, k - 1, i);
            lemma_step_counts(rows, step, i);
        } else {
            lemma_no_delivery_before_enqueue(tables, steps, id, k - 1);
            lemma_unknown_is_not_handed_out(rows, step, id);
        }
    }
}

/// Where no dequeue allows more than `max_attempts` attempts, no job is handed out more than
/// `max_attempts` times.
pub proof fn no_job_is_handed_out_too_often(
    tables: Seq<Seq<JobView>>,
    steps: Seq<Step>,
    id: i64,
    k: int,
    max_attempts: int,
)
    requires
        is_history(tables, steps),
        0 <= k < tables.len(),
        max_attempts >= 0,
        forall|n: int|
            0 <= n < steps.len() ==> (#[trigger] steps[n] matches Step::Dequeue {
                claim,
                worker,
                lease_ids,
            } ==> claim.max_attempts <= max_attempts),
    ensures
        deliveries(tables, steps, id, k) <= max_attempts,
{
    if has_id(tables[k], id) {
        let i = choose|i: int| 0 <= i < tables[k].len() && #[trigger] tables[k][i].id == id;
        attempt_count_is_the_number_of_deliveries(tables, steps, k, i);
        attempts_never_exceed_the_limit(tables, steps, k, max_attempts);
        assert(tables[k][i].attempt_count <= max_attempts);
    } else {
        lemma_no_delivery_before_enqueue(tables, steps, id, k);
    }
}

} // verus!
