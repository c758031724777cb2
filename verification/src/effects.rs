//! What each operation does to a job, in the columns of its row.
//!
//! Each law speaks of the rows before and after a statement and of the rows that it returns, column
//! by column and for every row.

use crate::job::{JobStatus, JobView, LeaseKey};
use crate::rows::{acked, created, nacked, touched};
use crate::table::{
    acked_rows, after_ack, after_ack_batch, after_dequeue, after_nack, after_touch, dequeued_rows,
    has_id, has_key, holds_any, lease_current, leased_row, lemma_batch_distinct,
    lemma_dequeue_keeps_wf, next_batch, row_wf, table_wf, Claim,
};
use crate::table_laws::{lemma_acked_rows, lemma_leased_row, next_batch_is_determined};
use vstd::prelude::*;

verus! {

// ---------------------------
// Dequeue
// ---------------------------

/// Every job that a dequeue hands out was waiting or had lost its worker, was due, had attempts left
/// and was not locked. Its attempt count is exactly one higher than before, it is in progress under
/// the generated lease id with the worker that asked, and it is hidden for its own lease timeout from
/// now. All else is as it was, and the table has the job as it was handed out. The result is its
/// place.
pub proof fn dequeue_counts_the_attempt(
    rows: Seq<JobView>,
    claim: Claim,
    worker: Seq<char>,
    lease_ids: Seq<u128>,
    k: int,
) -> (i: int)
    requires
        table_wf(rows),
        claim.batch_size >= 0,
        0 <= k < dequeued_rows(rows, claim, worker, lease_ids).len(),
    ensures
        0 <= i < rows.len(),
        rows[i].status == JobStatus::Pending || rows[i].status == JobStatus::InProgress,
        rows[i].visible_at <= claim.now,
        0 <= rows[i].attempt_count < claim.max_attempts,
        !claim.locked.contains(rows[i].id),
        ({
            let job = dequeued_rows(rows, claim, worker, lease_ids)[k];
            &&& job.attempt_count == rows[i].attempt_count + 1
            &&& job.status == JobStatus::InProgress
            &&& job.lease_id == Some(lease_ids[k])
            &&& job.leased_by == Some(worker)
            &&& job.visible_at == claim.now + 1_000_000 * rows[i].lease_timeout_seconds
            &&& job.updated_at == claim.now
            &&& job.id == rows[i].id
            &&& job.idempotency_key == rows[i].idempotency_key
            &&& job.payload == rows[i].payload
            &&& job.lease_timeout_seconds == rows[i].lease_timeout_seconds
            &&& job.created_at == rows[i].created_at
            &&& after_dequeue(rows, claim, worker, lease_ids)[i] == job
        }),
{
    next_batch_is_determined(rows, claim);
    let picks = next_batch(rows, claim);
    lemma_batch_distinct(rows, claim, picks);
    let i = picks[k];
    assert(picks.contains(i));
    assert(row_wf(rows[i]));
    i
}

/// A dequeue hands out at most `batch_size` jobs, and no job twice.
pub proof fn dequeue_hands_out_each_job_once(
    rows: Seq<JobView>,
    claim: Claim,
    worker: Seq<char>,
    lease_ids: Seq<u128>,
    k: int,
    l: int,
)
    requires
        table_wf(rows),
        claim.batch_size >= 0,
        0 <= k < l < dequeued_rows(rows, claim, worker, lease_ids).len(),
    ensures
        dequeued_rows(rows, claim, worker, lease_ids).len() <= claim.batch_size,
        dequeued_rows(rows, claim, worker, lease_ids)[k].id != dequeued_rows(
            rows,
            claim,
            worker,
            lease_ids,
        )[l].id,
{
    next_batch_is_determined(rows, claim);
    let picks = next_batch(rows, claim);
    lemma_batch_distinct(rows, claim, picks);
    assert(picks[k] != picks[l]);
    if picks[k] < picks[l] {
        assert(rows[picks[k]].id != rows[picks[l]].id);
    } else {
        assert(rows[picks[l]].id != rows[picks[k]].id);
    }
}

/// The place of a job that has been handed out is where a row has its id.
proof fn lemma_place(
    rows: Seq<JobView>,
    claim: Claim,
    worker: Seq<char>,
    lease_ids: Seq<u128>,
    k: int,
    i: int,
)
    requires
        table_wf(rows),
        claim.batch_size >= 0,
        0 <= k < dequeued_rows(rows, claim, worker, lease_ids).len(),
        0 <= i < rows.len(),
        rows[i].id == dequeued_rows(rows, claim, worker, lease_ids)[k].id,
    ensures
        next_batch(rows, claim)[k] == i,
{
    next_batch_is_determined(rows, claim);
    let j = next_batch(rows, claim)[k];
    if i < j {
        assert(rows[i].id != rows[j].id);
    } else if j < i {
        assert(rows[j].id != rows[i].id);
    }
}

/// Jobs are handed out in the order in which they became visible; of two that did so at the same
/// time the older first, and of two of the same age the one with the lower id.
pub proof fn dequeue_goes_by_age(
    rows: Seq<JobView>,
    claim: Claim,
    worker: Seq<char>,
    lease_ids: Seq<u128>,
    k: int,
    l: int,
    i: int,
    j: int,
)
    requires
        table_wf(rows),
        claim.batch_size >= 0,
        0 <= k < l < dequeued_rows(rows, claim, worker, lease_ids).len(),
        0 <= i < rows.len(),
        0 <= j < rows.len(),
        rows[i].id == dequeued_rows(rows, claim, worker, lease_ids)[k].id,
        rows[j].id == dequeued_rows(rows, claim, worker, lease_ids)[l].id,
    ensures
        rows[i].visible_at <= rows[j].visible_at,
        rows[i].visible_at == rows[j].visible_at ==> rows[i].created_at <= rows[j].created_at,
        rows[i].visible_at == rows[j].visible_at && rows[i].created_at == rows[j].created_at
            ==> rows[i].id < rows[j].id,
{
    next_batch_is_determined(rows, claim);
    lemma_place(rows, claim, worker, lease_ids, k, i);
    lemma_place(rows, claim, worker, lease_ids, l, j);
}

/// A due job with attempts left that is not locked is handed out, unless the batch is full of jobs
/// that come before it.
pub proof fn dequeue_passes_over_no_due_job(
    rows: Seq<JobView>,
    claim: Claim,
    worker: Seq<char>,
    lease_ids: Seq<u128>,
    j: int,
)
    requires
        table_wf(rows),
        claim.batch_size >= 0,
        0 <= j < rows.len(),
        rows[j].status == JobStatus::Pending || rows[j].status == JobStatus::InProgress,
        rows[j].visible_at <= claim.now,
        rows[j].attempt_count < claim.max_attempts,
        !claim.locked.contains(rows[j].id),
        forall|k: int|
            0 <= k < dequeued_rows(rows, claim, worker, lease_ids).len()
                ==> (#[trigger] dequeued_rows(rows, claim, worker, lease_ids)[k]).id != rows[j].id,
    ensures
        dequeued_rows(rows, claim, worker, lease_ids).len() == claim.batch_size,
        forall|k: int, i: int|
            0 <= k < dequeued_rows(rows, claim, worker, lease_ids).len() && 0 <= i < rows.len()
                && (#[trigger] rows[i]).id == (#[trigger] dequeued_rows(
                rows,
                claim,
                worker,
                lease_ids,
            )[k]).id ==> {
                ||| rows[i].visible_at < rows[j].visible_at
                ||| rows[i].visible_at == rows[j].visible_at && rows[i].created_at
                    < rows[j].created_at
                ||| rows[i].visible_at == rows[j].visible_at && rows[i].created_at
                    == rows[j].created_at && rows[i].id < rows[j].id
            },
{
    next_batch_is_determined(rows, claim);
    let picks = next_batch(rows, claim);
    let jobs = dequeued_rows(rows, claim, worker, lease_ids);
    assert(crate::table::is_candidate(rows, claim, j));
    if picks.contains(j) {
        let k = choose|k: int| 0 <= k < picks.len() && picks[k] == j;
        assert(jobs[k].id == rows[j].id);
    }
    assert forall|k: int, i: int|
        0 <= k < jobs.len() && 0 <= i < rows.len() && (#[trigger] rows[i]).id == (
        #[trigger] jobs[k]).id implies {
        ||| rows[i].visible_at < rows[j].visible_at
        ||| rows[i].visible_at == rows[j].visible_at && rows[i].created_at < rows[j].created_at
        ||| rows[i].visible_at == rows[j].visible_at && rows[i].created_at == rows[j].created_at
            && rows[i].id < rows[j].id
    } by {
        lemma_place(rows, claim, worker, lease_ids, k, i);
        assert(picks[k] == i);
    }
}

/// A job that a dequeue does not hand out fails if it is in progress with its lease expired and its
/// attempts used up, and no other session has it locked; else nothing of it changes.
pub proof fn dequeue_fails_only_the_exhausted(
    rows: Seq<JobView>,
    claim: Claim,
    worker: Seq<char>,
    lease_ids: Seq<u128>,
    i: int,
)
    requires
        table_wf(rows),
        claim.batch_size >= 0,
        0 <= i < rows.len(),
        forall|k: int|
            0 <= k < dequeued_rows(rows, claim, worker, lease_ids).len()
                ==> (#[trigger] dequeued_rows(rows, claim, worker, lease_ids)[k]).id != rows[i].id,
    ensures
        after_dequeue(rows, claim, worker, lease_ids).len() == rows.len(),
        ({
            let after = after_dequeue(rows, claim, worker, lease_ids)[i];
            if rows[i].status == JobStatus::InProgress && rows[i].visible_at <= claim.now
                && rows[i].attempt_count >= claim.max_attempts && !claim.locked.contains(
                rows[i].id,
            ) {
                &&& after.status == JobStatus::Failed
                &&& after.lease_id is None
                &&& after.leased_by is None
                &&& after.updated_at == claim.now
                &&& after.visible_at == rows[i].visible_at
                &&& after.attempt_count == rows[i].attempt_count
                &&& after.id == rows[i].id
                &&& after.idempotency_key == rows[i].idempotency_key
                &&& after.payload == rows[i].payload
                &&& after.lease_timeout_seconds == rows[i].lease_timeout_seconds
                &&& after.created_at == rows[i].created_at
            } else {
                after == rows[i]
            }
        }),
{
    next_batch_is_determined(rows, claim);
    let picks = next_batch(rows, claim);
    let jobs = dequeued_rows(rows, claim, worker, lease_ids);
    if picks.contains(i) {
        let k = choose|k: int| 0 <= k < picks.len() && picks[k] == i;
        assert(jobs[k].id == rows[i].id);
    }
}

/// After a dequeue has handed a job out, it is hidden until, and only until, its lease timeout has
/// passed: a later dequeue that allows another attempt, has room for every job and finds the row not
/// locked hands it out again if and only if that time has come.
pub proof fn leased_job_returns_when_its_lease_expires(
    rows: Seq<JobView>,
    claim: Claim,
    worker: Seq<char>,
    lease_ids: Seq<u128>,
    i: int,
    k: int,
    later: Claim,
    later_worker: Seq<char>,
    later_ids: Seq<u128>,
)
    requires
        table_wf(rows),
        claim.batch_size >= 0,
        0 <= k < dequeued_rows(rows, claim, worker, lease_ids).len(),
        0 <= i < rows.len(),
        rows[i].id == dequeued_rows(rows, claim, worker, lease_ids)[k].id,
        later.batch_size > rows.len(),
        rows[i].attempt_count + 1 < later.max_attempts,
        !later.locked.contains(rows[i].id),
    ensures
        is_handed_out(
            after_dequeue(rows, claim, worker, lease_ids),
            later,
            later_worker,
            later_ids,
            rows[i].id,
        ) <==> later.now >= claim.now + 1_000_000 * rows[i].lease_timeout_seconds,
{
    let after = after_dequeue(rows, claim, worker, lease_ids);
    let place = dequeue_counts_the_attempt(rows, claim, worker, lease_ids, k);
    lemma_place(rows, claim, worker, lease_ids, k, i);
    lemma_place(rows, claim, worker, lease_ids, k, place);
    lemma_dequeue_keeps_wf(rows, claim, worker, lease_ids);
    lemma_due_is_handed_out(after, later, later_worker, later_ids, i);
}

/// Whether a dequeue hands out the job with the id.
pub open spec fn is_handed_out(
    rows: Seq<JobView>,
    claim: Claim,
    worker: Seq<char>,
    lease_ids: Seq<u128>,
    id: i64,
) -> bool {
    exists|k: int|
        0 <= k < dequeued_rows(rows, claim, worker, lease_ids).len() && (#[trigger] dequeued_rows(
            rows,
            claim,
            worker,
            lease_ids,
        )[k]).id == id
}

/// A dequeue with room for every job hands out exactly the jobs that are due.
proof fn lemma_due_is_handed_out(
    rows: Seq<JobView>,
    claim: Claim,
    worker: Seq<char>,
    lease_ids: Seq<u128>,
    i: int,
)
    requires
        table_wf(rows),
        claim.batch_size > rows.len(),
        0 <= i < rows.len(),
    ensures
        is_handed_out(rows, claim, worker, lease_ids, rows[i].id) <==> {
            &&& rows[i].status == JobStatus::Pending || rows[i].status == JobStatus::InProgress
            &&& rows[i].visible_at <= claim.now
            &&& rows[i].attempt_count < claim.max_attempts
            &&& !claim.locked.contains(rows[i].id)
        },
{
    next_batch_is_determined(rows, claim);
    let picks = next_batch(rows, claim);
    let jobs = dequeued_rows(rows, claim, worker, lease_ids);
    crate::table::lemma_picks_fit(rows, claim, picks);
    if crate::table::is_candidate(rows, claim, i) {
        assert(picks.contains(i));
        let k = choose|k: int| 0 <= k < picks.len() && picks[k] == i;
        assert(jobs[k].id == rows[i].id);
    }
    if is_handed_out(rows, claim, worker, lease_ids, rows[i].id) {
        let k = choose|k: int| 0 <= k < jobs.len() && (#[trigger] jobs[k]).id == rows[i].id;
        lemma_place(rows, claim, worker, lease_ids, k, i);
        assert(crate::table::is_candidate(rows, claim, picks[k]));
    }
}

// ---------------------------
// Leases
// ---------------------------

/// A lease is current if and only if some job in progress has the lease's job id and its lease id;
/// that job is the leased one.
pub proof fn lease_is_current_while_its_job_is_in_progress(
    rows: Seq<JobView>,
    lease: LeaseKey,
    i: int,
)
    requires
        table_wf(rows),
        0 <= i < rows.len(),
    ensures
        rows[i].status == JobStatus::InProgress && rows[i].id == lease.job_id && rows[i].lease_id
            == Some(lease.lease_id) ==> lease_current(rows, lease) && leased_row(rows, lease)
            == rows[i],
        rows[i].id == lease.job_id && (rows[i].status != JobStatus::InProgress || rows[i].lease_id
            != Some(lease.lease_id)) ==> !lease_current(rows, lease),
        lease_current(rows, lease) ==> has_id(rows, lease.job_id),
{
    if rows[i].status == JobStatus::InProgress && rows[i].id == lease.job_id && rows[i].lease_id
        == Some(lease.lease_id) {
        lemma_leased_row(rows, lease, i);
    }
    if lease_current(rows, lease) {
        let j = choose|j: int|
            0 <= j < rows.len() && #[trigger] crate::rows::holds_lease(rows[j], lease);
        assert(rows[j].id == lease.job_id);
        if i < j {
            assert(rows[i].id != rows[j].id);
        } else if j < i {
            assert(rows[j].id != rows[i].id);
        }
    }
}

// ---------------------------
// Ack
// ---------------------------

/// An ack under a current lease leaves the job done and free of its lease, changes nothing else of
/// it but the time of its update, and returns it so. Every other job stays as it is.
pub proof fn ack_leaves_the_job_done(rows: Seq<JobView>, lease: LeaseKey, now: int, i: int)
    requires
        table_wf(rows),
        0 <= i < rows.len(),
    ensures
        after_ack(rows, lease, now).len() == rows.len(),
        ({
            let after = after_ack(rows, lease, now)[i];
            if rows[i].status == JobStatus::InProgress && rows[i].id == lease.job_id
                && rows[i].lease_id == Some(lease.lease_id) {
                &&& after.status == JobStatus::Done
                &&& after.lease_id is None
                &&& after.leased_by is None
                &&& after.updated_at == now
                &&& after.visible_at == rows[i].visible_at
                &&& after.attempt_count == rows[i].attempt_count
                &&& after.id == rows[i].id
                &&& after.idempotency_key == rows[i].idempotency_key
                &&& after.payload == rows[i].payload
                &&& after.lease_timeout_seconds == rows[i].lease_timeout_seconds
                &&& after.created_at == rows[i].created_at
                &&& lease_current(rows, lease)
                &&& acked(leased_row(rows, lease), now) == after
            } else {
                after == rows[i]
            }
        }),
{
    lease_is_current_while_its_job_is_in_progress(rows, lease, i);
}

/// An ack for a batch leaves the jobs done that are in progress under one of its leases, with nothing
/// else changed of them but the lease and the time of the update, and leaves every other job as it
/// is. It returns exactly the former, as the table then has them.
pub proof fn ack_batch_leaves_the_jobs_done(
    rows: Seq<JobView>,
    leases: Seq<LeaseKey>,
    now: int,
    i: int,
)
    requires
        table_wf(rows),
        0 <= i < rows.len(),
    ensures
        after_ack_batch(rows, leases, now).len() == rows.len(),
        ({
            let after = after_ack_batch(rows, leases, now)[i];
            let returned = acked_rows(rows, leases, now);
            if rows[i].status == JobStatus::InProgress && rows[i].lease_id is Some
                && leases.contains(
                LeaseKey { job_id: rows[i].id, lease_id: rows[i].lease_id->0 },
            ) {
                &&& after.status == JobStatus::Done
                &&& after.lease_id is None
                &&& after.leased_by is None
                &&& after.updated_at == now
                &&& after.visible_at == rows[i].visible_at
                &&& after.attempt_count == rows[i].attempt_count
                &&& after.id == rows[i].id
                &&& after.idempotency_key == rows[i].idempotency_key
                &&& after.payload == rows[i].payload
                &&& after.lease_timeout_seconds == rows[i].lease_timeout_seconds
                &&& after.created_at == rows[i].created_at
                &&& returned.contains(after)
            } else {
                &&& after == rows[i]
                &&& forall|n: int|
                    0 <= n < returned.len() ==> (#[trigger] returned[n]).id != rows[i].id
            }
        }),
{
    let returned = acked_rows(rows, leases, now);
    lemma_acked_rows(rows, leases, now);
    if rows[i].lease_id is Some {
        let lease = LeaseKey { job_id: rows[i].id, lease_id: rows[i].lease_id->0 };
        if rows[i].status == JobStatus::InProgress && leases.contains(lease) {
            let k = choose|k: int| 0 <= k < leases.len() && leases[k] == lease;
            assert(crate::rows::holds_lease(rows[i], leases[k]));
            assert(holds_any(rows[i], leases));
        }
    }
    if holds_any(rows[i], leases) {
        let k = choose|k: int|
            0 <= k < leases.len() && #[trigger] crate::rows::holds_lease(rows[i], leases[k]);
        assert(leases.contains(leases[k]));
        assert(leases[k] == LeaseKey { job_id: rows[i].id, lease_id: rows[i].lease_id->0 });
    } else {
        assert forall|n: int| 0 <= n < returned.len() implies (#[trigger] returned[n]).id
            != rows[i].id by {
            assert(crate::table_laws::was_held(rows, leases, returned[n], now));
            let j = choose|j: int|
                0 <= j < rows.len() && #[trigger] holds_any(rows[j], leases) && acked(rows[j], now)
                    == returned[n];
            if i < j {
                assert(rows[i].id != rows[j].id);
            } else if j < i {
                assert(rows[j].id != rows[i].id);
            }
        }
    }
}

// ---------------------------
// Nack
// ---------------------------

/// A nack under a current lease fails the job, visible from now, if it has used up `max_attempts`;
/// else the job waits again and is visible after the delay. It is free of its lease either way,
/// nothing else changes of it but the time of its update, and it is returned so. Every other job
/// stays as it is.
pub proof fn nack_retries_after_the_delay_or_fails(
    rows: Seq<JobView>,
    lease: LeaseKey,
    max_attempts: int,
    delay: int,
    now: int,
    i: int,
)
    requires
        table_wf(rows),
        0 <= i < rows.len(),
    ensures
        after_nack(rows, lease, max_attempts, delay, now).len() == rows.len(),
        ({
            let after = after_nack(rows, lease, max_attempts, delay, now)[i];
            if rows[i].status == JobStatus::InProgress && rows[i].id == lease.job_id
                && rows[i].lease_id == Some(lease.lease_id) {
                &&& rows[i].attempt_count >= max_attempts ==> after.status == JobStatus::Failed
                    && after.visible_at == now
                &&& rows[i].attempt_count < max_attempts ==> after.status == JobStatus::Pending
                    && after.visible_at == now + delay
                &&& after.lease_id is None
                &&& after.leased_by is None
                &&& after.updated_at == now
                &&& after.attempt_count == rows[i].attempt_count
                &&& after.id == rows[i].id
                &&& after.idempotency_key == rows[i].idempotency_key
                &&& after.payload == rows[i].payload
                &&& after.lease_timeout_seconds == rows[i].lease_timeout_seconds
                &&& after.created_at == rows[i].created_at
                &&& lease_current(rows, lease)
                &&& nacked(leased_row(rows, lease), max_attempts, delay, now) == after
            } else {
                after == rows[i]
            }
        }),
{
    lease_is_current_while_its_job_is_in_progress(rows, lease, i);
}

/// A job that was given up with attempts left is handed out again from the end of the delay on, and
/// not before.
pub proof fn given_up_job_is_handed_out_after_the_delay(
    rows: Seq<JobView>,
    lease: LeaseKey,
    max_attempts: int,
    delay: int,
    given_up_at: int,
    i: int,
    later: Claim,
    worker: Seq<char>,
    lease_ids: Seq<u128>,
)
    requires
        table_wf(rows),
        0 <= i < rows.len(),
        rows[i].status == JobStatus::InProgress,
        rows[i].id == lease.job_id,
        rows[i].lease_id == Some(lease.lease_id),
        rows[i].attempt_count < max_attempts,
        rows[i].attempt_count < later.max_attempts,
        !later.locked.contains(rows[i].id),
        later.batch_size > rows.len(),
    ensures
        is_handed_out(
            after_nack(rows, lease, max_attempts, delay, given_up_at),
            later,
            worker,
            lease_ids,
            rows[i].id,
        ) <==> later.now >= given_up_at + delay,
{
    let after = after_nack(rows, lease, max_attempts, delay, given_up_at);
    nack_retries_after_the_delay_or_fails(rows, lease, max_attempts, delay, given_up_at, i);
    lemma_map_keeps_wf(rows, after);
    lemma_due_is_handed_out(after, later, worker, lease_ids, i);
}

// ---------------------------
// Touch
// ---------------------------

/// A touch under a current lease leaves the job hidden until `seconds` from now, changes nothing else
/// of it but the time of its update, and returns it so. Every other job stays as it is.
pub proof fn touch_moves_the_expiry(
    rows: Seq<JobView>,
    lease: LeaseKey,
    seconds: int,
    now: int,
    i: int,
)
    requires
        table_wf(rows),
        0 <= i < rows.len(),
    ensures
        after_touch(rows, lease, seconds, now).len() == rows.len(),
        ({
            let after = after_touch(rows, lease, seconds, now)[i];
            if rows[i].status == JobStatus::InProgress && rows[i].id == lease.job_id
                && rows[i].lease_id == Some(lease.lease_id) {
                &&& after.visible_at == now + 1_000_000 * seconds
                &&& after.status == JobStatus::InProgress
                &&& after.lease_id == rows[i].lease_id
                &&& after.leased_by == rows[i].leased_by
                &&& after.updated_at == now
                &&& after.attempt_count == rows[i].attempt_count
                &&& after.id == rows[i].id
                &&& after.idempotency_key == rows[i].idempotency_key
                &&& after.payload == rows[i].payload
                &&& after.lease_timeout_seconds == rows[i].lease_timeout_seconds
                &&& after.created_at == rows[i].created_at
                &&& lease_current(rows, lease)
                &&& touched(leased_row(rows, lease), seconds, now) == after
            } else {
                after == rows[i]
            }
        }),
{
    lease_is_current_while_its_job_is_in_progress(rows, lease, i);
}

/// A touched job is hidden until, and only until, `seconds` from the touch: a dequeue that allows
/// another attempt, has room for every job and finds the row not locked hands it out if and only if
/// that time has come.
pub proof fn touched_job_is_handed_out_once_its_lease_expires(
    rows: Seq<JobView>,
    lease: LeaseKey,
    seconds: int,
    touched_at: int,
    i: int,
    later: Claim,
    worker: Seq<char>,
    lease_ids: Seq<u128>,
)
    requires
        table_wf(rows),
        0 <= i < rows.len(),
        rows[i].status == JobStatus::InProgress,
        rows[i].id == lease.job_id,
        rows[i].lease_id == Some(lease.lease_id),
        rows[i].attempt_count < later.max_attempts,
        !later.locked.contains(rows[i].id),
        later.batch_size > rows.len(),
    ensures
        is_handed_out(
            after_touch(rows, lease, seconds, touched_at),
            later,
            worker,
            lease_ids,
            rows[i].id,
        ) <==> later.now >= touched_at + 1_000_000 * seconds,
{
    let after = after_touch(rows, lease, seconds, touched_at);
    touch_moves_the_expiry(rows, lease, seconds, touched_at, i);
    lemma_map_keeps_wf(rows, after);
    lemma_due_is_handed_out(after, later, worker, lease_ids, i);
}

/// A table whose rows keep their ids and keys stays well-formed if each row does.
proof fn lemma_map_keeps_wf(rows: Seq<JobView>, after: Seq<JobView>)
    requires
        table_wf(rows),
        after.len() == rows.len(),
        forall|i: int|
            0 <= i < rows.len() ==> {
                &&& (#[trigger] after[i]).id == rows[i].id
                &&& after[i].idempotency_key == rows[i].idempotency_key
                &&& row_wf(rows[i]) ==> row_wf(after[i])
            },
    ensures
        table_wf(after),
{
    assert forall|i: int| 0 <= i < after.len() implies row_wf(#[trigger] after[i]) by {
        assert(row_wf(rows[i]));
    }
    assert forall|i: int, j: int| 0 <= i < j < after.len() implies #[trigger] after[i].id
        != #[trigger] after[j].id && after[i].idempotency_key != after[j].idempotency_key by {
        assert(rows[i].id != rows[j].id);
        assert(rows[i].idempotency_key != rows[j].idempotency_key);
    }
}

// ---------------------------
// Enqueue
// ---------------------------

/// A new job waits for its first worker, without a lease and without an attempt, with what it was
/// given, and is visible at the time that was asked for or else at once.
pub proof fn enqueued_job_starts_fresh(
    id: i64,
    key: Seq<char>,
    stored: serde_json::Value,
    lease_timeout_seconds: int,
    visible_at: Option<int>,
    now: int,
)
    ensures
        ({
            let job = created(id, key, stored, lease_timeout_seconds, visible_at, now);
            &&& job.id == id
            &&& job.idempotency_key == key
            &&& job.payload == stored
            &&& job.lease_timeout_seconds == lease_timeout_seconds
            &&& visible_at matches Some(at) ==> job.visible_at == at
            &&& visible_at is None ==> job.visible_at == now
            &&& job.status == JobStatus::Pending
            &&& job.attempt_count == 0
            &&& job.lease_id is None
            &&& job.leased_by is None
            &&& job.created_at == now
            &&& job.updated_at == now
        }),
{
}

/// A key is taken if and only if some job has it, whatever has become of the job; an id likewise.
pub proof fn key_is_taken_by_any_job(rows: Seq<JobView>, key: Seq<char>, id: i64)
    ensures
        has_key(rows, key) <==> rows.map_values(|row: JobView| row.idempotency_key).contains(key),
        has_id(rows, id) <==> rows.map_values(|row: JobView| row.id).contains(id),
{
    let keys = rows.map_values(|row: JobView| row.idempotency_key);
    let ids = rows.map_values(|row: JobView| row.id);
    if has_key(rows, key) {
        let i = choose|i: int| 0 <= i < rows.len() && #[trigger] rows[i].idempotency_key == key;
        assert(keys[i] == key);
    }
    if keys.contains(key) {
        let i = choose|i: int| 0 <= i < keys.len() && keys[i] == key;
        assert(rows[i].idempotency_key == key);
    }
    if has_id(rows, id) {
        let i = choose|i: int| 0 <= i < rows.len() && #[trigger] rows[i].id == id;
        assert(ids[i] == id);
    }
    if ids.contains(id) {
        let i = choose|i: int| 0 <= i < ids.len() && ids[i] == id;
        assert(rows[i].id == id);
    }
}

/// A new job is handed out from the time for which it was scheduled on, and not before; without one,
/// from the time on at which it was enqueued.
pub proof fn new_job_is_handed_out_from_its_time_on(
    rows: Seq<JobView>,
    id: i64,
    key: Seq<char>,
    stored: serde_json::Value,
    lease_timeout_seconds: int,
    visible_at: Option<int>,
    now: int,
    later: Claim,
    worker: Seq<char>,
    lease_ids: Seq<u128>,
)
    requires
        table_wf(rows),
        !has_id(rows, id),
        !has_key(rows, key),
        lease_timeout_seconds > 0,
        later.max_attempts > 0,
        !later.locked.contains(id),
        later.batch_size > rows.len() + 1,
    ensures
        ({
            let job = created(id, key, stored, lease_timeout_seconds, visible_at, now);
            is_handed_out(rows.push(job), later, worker, lease_ids, id) <==> later.now
                >= match visible_at {
                Some(at) => at,
                None => now,
            }
        }),
{
    let job = created(id, key, stored, lease_timeout_seconds, visible_at, now);
    let after = rows.push(job);
    assert forall|i: int| 0 <= i < after.len() implies row_wf(#[trigger] after[i]) by {
        if i < rows.len() {
            assert(row_wf(rows[i]));
        }
    }
    assert forall|i: int, j: int| 0 <= i < j < after.len() implies #[trigger] after[i].id
        != #[trigger] after[j].id && after[i].idempotency_key != after[j].idempotency_key by {
        if j < rows.len() {
            assert(rows[i].id != rows[j].id);
            assert(rows[i].idempotency_key != rows[j].idempotency_key);
        } else {
            assert(rows[i].id != id);
            assert(rows[i].idempotency_key != key);
        }
    }
    lemma_due_is_handed_out(after, later, worker, lease_ids, rows.len() as int);
}

// ---------------------------
// Well-formed tables
// ---------------------------

/// In a well-formed table no two jobs share an id or a key, a job has been handed out no negative
/// number of times and has a lease timeout, and it has a lease and a worker while it is in progress
/// and at no other time.
pub proof fn well_formed_table_leases_what_is_in_progress(rows: Seq<JobView>, i: int, j: int)
    requires
        table_wf(rows),
        0 <= i < rows.len(),
        0 <= j < rows.len(),
    ensures
        rows[i].attempt_count >= 0,
        rows[i].lease_timeout_seconds > 0,
        rows[i].status == JobStatus::InProgress ==> rows[i].lease_id is Some && rows[i].leased_by
            is Some,
        rows[i].status != JobStatus::InProgress ==> rows[i].lease_id is None && rows[i].leased_by
            is None,
        i != j ==> rows[i].id != rows[j].id && rows[i].idempotency_key != rows[j].idempotency_key,
{
    assert(row_wf(rows[i]));
    if i < j {
        assert(rows[i].id != rows[j].id);
        assert(rows[i].idempotency_key != rows[j].idempotency_key);
    } else if j < i {
        assert(rows[j].id != rows[i].id);
        assert(rows[j].idempotency_key != rows[i].idempotency_key);
    }
}

} // verus!
