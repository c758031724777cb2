//! What holds of the queue's statements together.

use crate::job::{JobStatus, JobView, LeaseKey};
use crate::rows::{acked, before, created, exhausted, holds_lease, leased, timed_out, touched, MICROS};
use crate::table::{
    acked_rows, after_ack, after_ack_batch, after_dequeue, after_nack, after_touch, dequeued_rows, has_key,
    holds_any, ids_distinct, is_candidate, is_next_batch, lease_current, leased_row,
    leases_distinct, lemma_batch_distinct, lemma_filter_push, lemma_next_batch_push, lemma_next_batch_unique,
    next_batch, row_wf, table_wf, Claim,
};
use vstd::prelude::*;

verus! {

/// Among the rows before `n` that may be handed out and are not among `picks`, one comes first.
proof fn lemma_earliest_exists(
    rows: Seq<JobView>,
    claim: Claim,
    picks: Seq<int>,
    n: int,
) -> (first: Option<int>)
    requires
        ids_distinct(rows),
        0 <= n <= rows.len(),
    ensures
        first is None ==> forall|j: int|
            j < n && #[trigger] is_candidate(rows, claim, j) ==> picks.contains(j),
        first matches Some(i) ==> {
            &&& i < n
            &&& is_candidate(rows, claim, i)
            &&& !picks.contains(i)
            &&& forall|j: int|
                j < n && #[trigger] is_candidate(rows, claim, j) && !picks.contains(j) && j != i
                    ==> before(rows[i], rows[j])
        },
    decreases n,
{
    if n == 0 {
        None
    } else {
        let last = n - 1;
        let rest = lemma_earliest_exists(rows, claim, picks, last);
        if is_candidate(rows, claim, last) && !picks.contains(last) {
            match rest {
                Some(i) => {
                    assert(rows[i].id != rows[last].id);
                    if before(rows[last], rows[i]) {
                        Some(last)
                    } else {
                        Some(i)
                    }
                },
                None => Some(last),
            }
        } else {
            rest
        }
    }
}

/// There is a next batch, whatever its size may be.
proof fn lemma_next_batch_exists(rows: Seq<JobView>, claim: Claim) -> (picks: Seq<int>)
    requires
        ids_distinct(rows),
        claim.batch_size >= 0,
    ensures
        is_next_batch(rows, claim, picks),
    decreases claim.batch_size,
{
    if claim.batch_size == 0 {
        Seq::empty()
    } else {
        let less = Claim { batch_size: claim.batch_size - 1, ..claim };
        let picks = lemma_next_batch_exists(rows, less);
        assert forall|j: int| is_candidate(rows, claim, j) == #[trigger] is_candidate(
            rows,
            less,
            j,
        ) by {}
        match lemma_earliest_exists(rows, less, picks, rows.len() as int) {
            Some(i) => {
                lemma_next_batch_push(rows, less, picks, i);
                assert(Claim { batch_size: less.batch_size + 1, ..less } == claim);
                picks.push(i)
            },
            None => {
                assert forall|j: int| #[trigger] is_candidate(rows, claim, j) implies picks.contains(
                    j,
                ) by {
                    assert(is_candidate(rows, less, j));
                }
                assert forall|k: int| 0 <= k < picks.len() implies is_candidate(
                    rows,
                    claim,
                    #[trigger] picks[k],
                ) by {
                    assert(is_candidate(rows, less, picks[k]));
                }
                picks
            },
        }
    }
}

/// Which jobs a dequeue hands out, and in which order, is determined: there is one batch of the
/// first jobs that may be handed out, and only one.
pub proof fn next_batch_is_determined(rows: Seq<JobView>, claim: Claim)
    requires
        ids_distinct(rows),
        claim.batch_size >= 0,
    ensures
        is_next_batch(rows, claim, next_batch(rows, claim)),
        forall|picks: Seq<int>| #[trigger]
            is_next_batch(rows, claim, picks) ==> picks == next_batch(rows, claim),
{
    let witness = lemma_next_batch_exists(rows, claim);
    assert forall|picks: Seq<int>| #[trigger] is_next_batch(rows, claim, picks) implies picks
        == next_batch(rows, claim) by {
        lemma_next_batch_unique(rows, claim, picks);
    }
}

/// A dequeue hands out at most `batch_size` jobs, each in progress, leased to the worker that asked
/// and to be finished by the end of its own lease timeout, and each within its allowed attempts. If
/// it hands out fewer than `batch_size`, none that may be handed out is left.
pub proof fn dequeue_leases_to_the_worker(
    rows: Seq<JobView>,
    claim: Claim,
    worker: Seq<char>,
    lease_ids: Seq<u128>,
)
    requires
        table_wf(rows),
        claim.batch_size >= 0,
    ensures
        ({
            let jobs = dequeued_rows(rows, claim, worker, lease_ids);
            &&& jobs.len() <= claim.batch_size
            &&& forall|k: int|
                0 <= k < jobs.len() ==> {
                    let job = #[trigger] jobs[k];
                    &&& job.status == JobStatus::InProgress
                    &&& job.leased_by == Some(worker)
                    &&& job.lease_id == Some(lease_ids[k])
                    &&& job.visible_at == claim.now + MICROS * job.lease_timeout_seconds
                    &&& job.visible_at > claim.now
                    &&& 1 <= job.attempt_count <= claim.max_attempts
                    &&& !claim.locked.contains(job.id)
                }
            &&& jobs.len() < claim.batch_size ==> forall|i: int| #[trigger]
                is_candidate(rows, claim, i) ==> exists|k: int|
                    0 <= k < jobs.len() && #[trigger] jobs[k].id == rows[i].id
        }),
{
    next_batch_is_determined(rows, claim);
    let picks = next_batch(rows, claim);
    let jobs = dequeued_rows(rows, claim, worker, lease_ids);
    assert forall|k: int| 0 <= k < jobs.len() implies {
        let job = #[trigger] jobs[k];
        &&& job.visible_at > claim.now
        &&& 1 <= job.attempt_count <= claim.max_attempts
        &&& !claim.locked.contains(job.id)
    } by {
        assert(is_candidate(rows, claim, picks[k]));
        assert(row_wf(rows[picks[k]]));
    }
    if jobs.len() < claim.batch_size {
        assert forall|i: int| #[trigger] is_candidate(rows, claim, i) implies exists|k: int|
            0 <= k < jobs.len() && #[trigger] jobs[k].id == rows[i].id by {
            assert(picks.contains(i));
            let k = choose|k: int| 0 <= k < picks.len() && picks[k] == i;
            assert(jobs[k].id == rows[i].id);
        }
    }
}

/// Two workers that dequeue at the same time, where the second passes over the rows that the first
/// has locked, are never given the same job.
pub proof fn concurrent_workers_get_different_jobs(
    rows: Seq<JobView>,
    first: Claim,
    second: Claim,
    i: int,
)
    requires
        ids_distinct(rows),
        first.batch_size >= 0,
        second.batch_size >= 0,
        forall|k: int|
            0 <= k < next_batch(rows, first).len() ==> second.locked.contains(
                rows[#[trigger] next_batch(rows, first)[k]].id,
            ),
    ensures
        !(next_batch(rows, first).contains(i) && next_batch(rows, second).contains(i)),
{
    next_batch_is_determined(rows, first);
    next_batch_is_determined(rows, second);
    if next_batch(rows, first).contains(i) && next_batch(rows, second).contains(i) {
        let k = choose|k: int|
            0 <= k < next_batch(rows, first).len() && next_batch(rows, first)[k] == i;
        let l = choose|l: int|
            0 <= l < next_batch(rows, second).len() && next_batch(rows, second)[l] == i;
        assert(is_candidate(rows, second, next_batch(rows, second)[l]));
    }
}

/// Until its lease expires, a job that has been handed out is not handed out again.
pub proof fn leased_job_is_hidden_until_its_lease_expires(
    rows: Seq<JobView>,
    claim: Claim,
    worker: Seq<char>,
    lease_ids: Seq<u128>,
    k: int,
    later: Claim,
)
    requires
        table_wf(rows),
        claim.batch_size >= 0,
        later.batch_size >= 0,
        0 <= k < next_batch(rows, claim).len(),
        later.now < claim.now + MICROS * rows[next_batch(rows, claim)[k]].lease_timeout_seconds,
    ensures
        !next_batch(after_dequeue(rows, claim, worker, lease_ids), later).contains(
            next_batch(rows, claim)[k],
        ),
{
    next_batch_is_determined(rows, claim);
    let i = next_batch(rows, claim)[k];
    let after = after_dequeue(rows, claim, worker, lease_ids);
    assert(is_candidate(rows, claim, i));
    assert(next_batch(rows, claim).contains(i));
    crate::table::lemma_dequeue_keeps_wf(rows, claim, worker, lease_ids);
    next_batch_is_determined(after, later);
    let picks = next_batch(after, later);
    if picks.contains(i) {
        let l = choose|l: int| 0 <= l < picks.len() && picks[l] == i;
        assert(is_candidate(after, later, picks[l]));
    }
}

/// The worker that a job was handed to holds its lease: the lease key that it was given is current,
/// and it is the lease on that job.
pub proof fn handed_out_lease_is_current(
    rows: Seq<JobView>,
    claim: Claim,
    worker: Seq<char>,
    lease_ids: Seq<u128>,
    k: int,
)
    requires
        table_wf(rows),
        claim.batch_size >= 0,
        0 <= k < dequeued_rows(rows, claim, worker, lease_ids).len(),
    ensures
        ({
            let job = dequeued_rows(rows, claim, worker, lease_ids)[k];
            let after = after_dequeue(rows, claim, worker, lease_ids);
            let lease = LeaseKey { job_id: job.id, lease_id: lease_ids[k] };
            &&& lease_current(after, lease)
            &&& leased_row(after, lease) == job
        }),
{
    next_batch_is_determined(rows, claim);
    let picks = next_batch(rows, claim);
    let job = dequeued_rows(rows, claim, worker, lease_ids)[k];
    let after = after_dequeue(rows, claim, worker, lease_ids);
    let lease = LeaseKey { job_id: job.id, lease_id: lease_ids[k] };
    assert(is_candidate(rows, claim, picks[k]));
    lemma_batch_distinct(rows, claim, picks);
    assert(picks.contains(picks[k]));
    assert(after[picks[k]] == job);
    assert(holds_lease(after[picks[k]], lease));
    crate::table::lemma_dequeue_keeps_wf(rows, claim, worker, lease_ids);
    lemma_leased_row(after, lease, picks[k]);
}

/// Only one row can be leased under a lease.
pub(crate) proof fn lemma_leased_row(rows: Seq<JobView>, lease: LeaseKey, i: int)
    requires
        ids_distinct(rows),
        0 <= i < rows.len(),
        holds_lease(rows[i], lease),
    ensures
        lease_current(rows, lease),
        leased_row(rows, lease) == rows[i],
{
    let j = choose|j: int| 0 <= j < rows.len() && #[trigger] holds_lease(rows[j], lease);
    assert(rows[j].id == rows[i].id);
}

/// A lease that has been lost changes nothing: completing, giving up or extending under it leaves
/// every row as it was.
pub proof fn lost_lease_changes_nothing(
    rows: Seq<JobView>,
    lease: LeaseKey,
    max_attempts: int,
    delay: int,
    seconds: int,
    now: int,
)
    requires
        !lease_current(rows, lease),
    ensures
        after_ack(rows, lease, now) == rows,
        after_nack(rows, lease, max_attempts, delay, now) == rows,
        after_touch(rows, lease, seconds, now) == rows,
{
    assert forall|i: int| 0 <= i < rows.len() implies !#[trigger] holds_lease(rows[i], lease) by {}
    assert(after_ack(rows, lease, now) =~= rows);
    assert(after_nack(rows, lease, max_attempts, delay, now) =~= rows);
    assert(after_touch(rows, lease, seconds, now) =~= rows);
}

/// Completing a job, alone or in a batch, or giving it up ends its lease, so that a lease is good for
/// one of them once; extending it keeps it.
pub proof fn lease_ends_with_ack_or_nack(
    rows: Seq<JobView>,
    lease: LeaseKey,
    leases: Seq<LeaseKey>,
    max_attempts: int,
    delay: int,
    seconds: int,
    now: int,
)
    ensures
        !lease_current(after_ack(rows, lease, now), lease),
        leases.contains(lease) ==> !lease_current(after_ack_batch(rows, leases, now), lease),
        !lease_current(after_nack(rows, lease, max_attempts, delay, now), lease),
        lease_current(after_touch(rows, lease, seconds, now), lease) == lease_current(rows, lease),
{
    let touched_rows = after_touch(rows, lease, seconds, now);
    let batch = after_ack_batch(rows, leases, now);
    if leases.contains(lease) {
        let k = choose|k: int| 0 <= k < leases.len() && leases[k] == lease;
        assert forall|i: int| 0 <= i < rows.len() implies !#[trigger] holds_lease(
            batch[i],
            lease,
        ) by {
            if holds_lease(rows[i], lease) {
                assert(holds_lease(rows[i], leases[k]));
            }
        }
    }
    assert forall|i: int| 0 <= i < rows.len() implies #[trigger] holds_lease(touched_rows[i], lease)
        == holds_lease(rows[i], lease) by {}
    if lease_current(rows, lease) {
        let i = choose|i: int| 0 <= i < rows.len() && #[trigger] holds_lease(rows[i], lease);
        assert(holds_lease(touched_rows[i], lease));
    }
}

/// Once a job has been handed out again, the lease under which it was held before is lost.
pub proof fn reassignment_ends_the_old_lease(
    rows: Seq<JobView>,
    claim: Claim,
    worker: Seq<char>,
    lease_ids: Seq<u128>,
    k: int,
    old_lease: LeaseKey,
)
    requires
        table_wf(rows),
        claim.batch_size >= 0,
        0 <= k < next_batch(rows, claim).len(),
        old_lease.job_id == rows[next_batch(rows, claim)[k]].id,
        old_lease.lease_id != lease_ids[k],
    ensures
        !lease_current(after_dequeue(rows, claim, worker, lease_ids), old_lease),
{
    next_batch_is_determined(rows, claim);
    let picks = next_batch(rows, claim);
    let after = after_dequeue(rows, claim, worker, lease_ids);
    lemma_batch_distinct(rows, claim, picks);
    assert(is_candidate(rows, claim, picks[k]));
    assert(picks.contains(picks[k]));
    if lease_current(after, old_lease) {
        let i = choose|i: int| 0 <= i < after.len() && #[trigger] holds_lease(after[i], old_lease);
        assert(after[i].id == rows[i].id);
        assert(rows[i].id == rows[picks[k]].id);
    }
}

/// A job that is handed out again comes under another lease id than the one under which it was held
/// before, as long as the server does not generate that one again.
pub proof fn redelivered_job_has_a_new_lease(
    rows: Seq<JobView>,
    claim: Claim,
    worker: Seq<char>,
    lease_ids: Seq<u128>,
    k: int,
    old_id: u128,
)
    requires
        0 <= k < next_batch(rows, claim).len() <= lease_ids.len(),
        rows[next_batch(rows, claim)[k]].lease_id == Some(old_id),
        !lease_ids.contains(old_id),
    ensures
        dequeued_rows(rows, claim, worker, lease_ids)[k].id == rows[next_batch(rows, claim)[k]].id,
        dequeued_rows(rows, claim, worker, lease_ids)[k].lease_id != Some(old_id),
{
    assert(lease_ids.contains(lease_ids[k]));
}

/// A lease that has been lost stays lost, whatever statement follows, as long as the server does not
/// generate its id again.
pub proof fn lost_lease_stays_lost(
    rows: Seq<JobView>,
    new_job: JobView,
    claim: Claim,
    worker: Seq<char>,
    lease_ids: Seq<u128>,
    lease: LeaseKey,
    other: LeaseKey,
    leases: Seq<LeaseKey>,
    delay: int,
    seconds: int,
)
    requires
        !lease_current(rows, lease),
        new_job.lease_id is None,
        next_batch(rows, claim).len() <= lease_ids.len(),
        !lease_ids.contains(lease.lease_id),
    ensures
        !lease_current(rows.push(new_job), lease),
        !lease_current(after_dequeue(rows, claim, worker, lease_ids), lease),
        !lease_current(after_ack(rows, other, claim.now), lease),
        !lease_current(after_ack_batch(rows, leases, claim.now), lease),
        !lease_current(after_nack(rows, other, claim.max_attempts, delay, claim.now), lease),
        !lease_current(after_touch(rows, other, seconds, claim.now), lease),
{
    assert forall|i: int| 0 <= i < rows.len() implies !holds_lease(#[trigger] rows[i], lease) by {}
    let picks = next_batch(rows, claim);
    let dequeued = after_dequeue(rows, claim, worker, lease_ids);
    assert forall|i: int| 0 <= i < rows.len() implies !#[trigger] holds_lease(
        dequeued[i],
        lease,
    ) by {
        assert(!holds_lease(rows[i], lease));
        if picks.contains(i) {
            assert(lease_ids.contains(lease_ids[picks.index_of(i)]));
        }
    }
}

/// What is done or failed stays as it is, whatever statement follows.
pub proof fn finished_jobs_never_change(
    rows: Seq<JobView>,
    i: int,
    claim: Claim,
    worker: Seq<char>,
    lease_ids: Seq<u128>,
    lease: LeaseKey,
    leases: Seq<LeaseKey>,
    delay: int,
    seconds: int,
)
    requires
        ids_distinct(rows),
        claim.batch_size >= 0,
        0 <= i < rows.len(),
        rows[i].status == JobStatus::Done || rows[i].status == JobStatus::Failed,
    ensures
        after_dequeue(rows, claim, worker, lease_ids)[i] == rows[i],
        after_ack(rows, lease, claim.now)[i] == rows[i],
        after_ack_batch(rows, leases, claim.now)[i] == rows[i],
        after_nack(rows, lease, claim.max_attempts, delay, claim.now)[i] == rows[i],
        after_touch(rows, lease, seconds, claim.now)[i] == rows[i],
{
    next_batch_is_determined(rows, claim);
    let picks = next_batch(rows, claim);
    if picks.contains(i) {
        let k = choose|k: int| 0 <= k < picks.len() && picks[k] == i;
        assert(is_candidate(rows, claim, picks[k]));
    }
}

/// A job whose worker has crashed comes back: once its lease has expired it may be handed out again
/// while it has attempts left, and else the next dequeue fails it.
pub proof fn expired_lease_recovers(
    rows: Seq<JobView>,
    claim: Claim,
    worker: Seq<char>,
    lease_ids: Seq<u128>,
    i: int,
)
    requires
        ids_distinct(rows),
        claim.batch_size >= 0,
        0 <= i < rows.len(),
        rows[i].status == JobStatus::InProgress,
        rows[i].visible_at <= claim.now,
        !claim.locked.contains(rows[i].id),
    ensures
        rows[i].attempt_count < claim.max_attempts ==> is_candidate(rows, claim, i),
        rows[i].attempt_count >= claim.max_attempts ==> after_dequeue(
            rows,
            claim,
            worker,
            lease_ids,
        )[i] == timed_out(rows[i], claim.now),
{
    next_batch_is_determined(rows, claim);
    let picks = next_batch(rows, claim);
    if picks.contains(i) {
        let k = choose|k: int| 0 <= k < picks.len() && picks[k] == i;
        assert(is_candidate(rows, claim, picks[k]));
    }
}

/// A new job may be handed out from the time for which it was scheduled, and not before; without
/// one, at once.
pub proof fn new_job_waits_for_its_time(
    rows: Seq<JobView>,
    id: i64,
    key: Seq<char>,
    stored: serde_json::Value,
    lease_timeout_seconds: int,
    visible_at: Option<int>,
    enqueued_at: int,
    claim: Claim,
)
    requires
        claim.max_attempts > 0,
        claim.now >= enqueued_at,
        !claim.locked.contains(id),
    ensures
        ({
            let job = created(id, key, stored, lease_timeout_seconds, visible_at, enqueued_at);
            is_candidate(rows.push(job), claim, rows.len() as int) <==> match visible_at {
                Some(at) => at <= claim.now,
                None => true,
            }
        }),
{
}

/// A job that was given up with attempts left may be handed out again after the delay, and not
/// before; one without attempts left has failed.
pub proof fn given_up_job_returns_after_the_delay(
    rows: Seq<JobView>,
    lease: LeaseKey,
    delay: int,
    given_up_at: int,
    i: int,
    claim: Claim,
)
    requires
        0 <= i < rows.len(),
        holds_lease(rows[i], lease),
        !claim.locked.contains(rows[i].id),
    ensures
        ({
            let after = after_nack(rows, lease, claim.max_attempts, delay, given_up_at);
            if rows[i].attempt_count < claim.max_attempts {
                &&& after[i].status == JobStatus::Pending
                &&& is_candidate(after, claim, i) <==> given_up_at + delay <= claim.now
            } else {
                after[i].status == JobStatus::Failed
            }
        }),
{
}

/// A touched job is hidden for another `seconds` from the touch.
pub proof fn touched_job_is_hidden_longer(
    rows: Seq<JobView>,
    lease: LeaseKey,
    seconds: int,
    touched_at: int,
    i: int,
    claim: Claim,
)
    requires
        0 <= i < rows.len(),
        holds_lease(rows[i], lease),
        claim.now < touched_at + MICROS * seconds,
    ensures
        !is_candidate(after_touch(rows, lease, seconds, touched_at), claim, i),
        !exhausted(after_touch(rows, lease, seconds, touched_at)[i], claim.max_attempts, claim.now),
{
}

/// A key that has been used stays taken: whatever statement follows, enqueuing under it again finds
/// it there.
pub proof fn used_key_stays_taken(
    rows: Seq<JobView>,
    key: Seq<char>,
    new_job: JobView,
    claim: Claim,
    worker: Seq<char>,
    lease_ids: Seq<u128>,
    lease: LeaseKey,
    leases: Seq<LeaseKey>,
    delay: int,
    seconds: int,
)
    requires
        has_key(rows, key) || new_job.idempotency_key == key,
    ensures
        has_key(rows.push(new_job), key),
        has_key(rows, key) ==> {
            &&& has_key(after_dequeue(rows, claim, worker, lease_ids), key)
            &&& has_key(after_ack(rows, lease, claim.now), key)
            &&& has_key(after_ack_batch(rows, leases, claim.now), key)
            &&& has_key(after_nack(rows, lease, claim.max_attempts, delay, claim.now), key)
            &&& has_key(after_touch(rows, lease, seconds, claim.now), key)
        },
{
    assert(rows.push(new_job)[rows.len() as int] == new_job);
    if has_key(rows, key) {
        let i = choose|i: int| 0 <= i < rows.len() && #[trigger] rows[i].idempotency_key == key;
        assert(rows.push(new_job)[i].idempotency_key == key);
        assert(after_dequeue(rows, claim, worker, lease_ids)[i].idempotency_key == key);
        assert(after_ack(rows, lease, claim.now)[i].idempotency_key == key);
        assert(after_ack_batch(rows, leases, claim.now)[i].idempotency_key == key);
        assert(after_nack(rows, lease, claim.max_attempts, delay, claim.now)[i].idempotency_key
            == key);
        assert(after_touch(rows, lease, seconds, claim.now)[i].idempotency_key == key);
    }
}

/// Whether no job has been handed out more than `max_attempts` times.
pub open spec fn attempts_within(rows: Seq<JobView>, max_attempts: int) -> bool {
    forall|i: int| 0 <= i < rows.len() ==> #[trigger] rows[i].attempt_count <= max_attempts
}

/// Where every dequeue allows the same number of attempts, no job is ever handed out more often.
pub proof fn attempts_stay_within_the_limit(
    rows: Seq<JobView>,
    new_job: JobView,
    claim: Claim,
    worker: Seq<char>,
    lease_ids: Seq<u128>,
    lease: LeaseKey,
    leases: Seq<LeaseKey>,
    delay: int,
    seconds: int,
)
    requires
        ids_distinct(rows),
        claim.batch_size >= 0,
        claim.max_attempts >= 0,
        attempts_within(rows, claim.max_attempts),
        new_job.attempt_count == 0,
    ensures
        attempts_within(rows.push(new_job), claim.max_attempts),
        attempts_within(after_dequeue(rows, claim, worker, lease_ids), claim.max_attempts),
        attempts_within(after_ack(rows, lease, claim.now), claim.max_attempts),
        attempts_within(after_ack_batch(rows, leases, claim.now), claim.max_attempts),
        attempts_within(
            after_nack(rows, lease, claim.max_attempts, delay, claim.now),
            claim.max_attempts,
        ),
        attempts_within(after_touch(rows, lease, seconds, claim.now), claim.max_attempts),
{
    next_batch_is_determined(rows, claim);
    let picks = next_batch(rows, claim);
    let after = after_dequeue(rows, claim, worker, lease_ids);
    assert forall|i: int| 0 <= i < after.len() implies #[trigger] after[i].attempt_count
        <= claim.max_attempts by {
        assert(rows[i].attempt_count <= claim.max_attempts);
        if picks.contains(i) {
            let k = choose|k: int| 0 <= k < picks.len() && picks[k] == i;
            assert(is_candidate(rows, claim, picks[k]));
        }
    }
}

/// Whether the lease ids that a dequeue generates are new: no two are the same, and no row is
/// leased under one of them.
pub open spec fn lease_ids_fresh(rows: Seq<JobView>, lease_ids: Seq<u128>) -> bool {
    &&& lease_ids.no_duplicates()
    &&& forall|i: int|
        0 <= i < rows.len() && #[trigger] rows[i].lease_id is Some ==> !lease_ids.contains(
            rows[i].lease_id->0,
        )
}

/// As long as the server generates new lease ids, no two jobs are ever leased under the same one.
pub proof fn active_lease_ids_stay_distinct(
    rows: Seq<JobView>,
    new_job: JobView,
    claim: Claim,
    worker: Seq<char>,
    lease_ids: Seq<u128>,
    lease: LeaseKey,
    leases: Seq<LeaseKey>,
    delay: int,
    seconds: int,
)
    requires
        table_wf(rows),
        leases_distinct(rows),
        claim.batch_size >= 0,
        next_batch(rows, claim).len() <= lease_ids.len(),
        lease_ids_fresh(rows, lease_ids),
        new_job.lease_id is None,
    ensures
        leases_distinct(rows.push(new_job)),
        leases_distinct(after_dequeue(rows, claim, worker, lease_ids)),
        leases_distinct(after_ack(rows, lease, claim.now)),
        leases_distinct(after_ack_batch(rows, leases, claim.now)),
        leases_distinct(after_nack(rows, lease, claim.max_attempts, delay, claim.now)),
        leases_distinct(after_touch(rows, lease, seconds, claim.now)),
{
    next_batch_is_determined(rows, claim);
    let picks = next_batch(rows, claim);
    let after = after_dequeue(rows, claim, worker, lease_ids);
    lemma_batch_distinct(rows, claim, picks);
    assert forall|i: int, j: int|
        0 <= i < j < after.len() && #[trigger] after[i].lease_id is Some
            && #[trigger] after[j].lease_id is Some implies after[i].lease_id != after[j].lease_id by {
        if picks.contains(i) {
            assert(lease_ids.contains(lease_ids[picks.index_of(i)]));
        }
        if picks.contains(j) {
            assert(lease_ids.contains(lease_ids[picks.index_of(j)]));
        }
        assert(rows[i].lease_id is Some || picks.contains(i));
        assert(rows[j].lease_id is Some || picks.contains(j));
    }
}

/// Completing a batch of leases is completing them one after the other.
pub proof fn ack_batch_acks_each(rows: Seq<JobView>, leases: Seq<LeaseKey>, lease: LeaseKey, now: int)
    ensures
        after_ack_batch(rows, Seq::empty(), now) == rows,
        after_ack_batch(rows, leases.push(lease), now) == after_ack(
            after_ack_batch(rows, leases, now),
            lease,
            now,
        ),
{
    let none = Seq::<LeaseKey>::empty();
    assert(after_ack_batch(rows, none, now) =~= rows);
    let more = leases.push(lease);
    assert forall|row: JobView| #[trigger] holds_any(row, more) == (holds_any(row, leases)
        || holds_lease(row, lease)) by {
        if holds_any(row, leases) {
            let k = choose|k: int| 0 <= k < leases.len() && #[trigger] holds_lease(row, leases[k]);
            assert(holds_lease(row, more[k]));
        }
        if holds_lease(row, lease) {
            assert(holds_lease(row, more[leases.len() as int]));
        }
        if holds_any(row, more) {
            let k = choose|k: int| 0 <= k < more.len() && #[trigger] holds_lease(row, more[k]);
            if k < leases.len() {
                assert(holds_lease(row, leases[k]));
            }
        }
    }
    assert(after_ack_batch(rows, more, now) =~= after_ack(
        after_ack_batch(rows, leases, now),
        lease,
        now,
    ));
}

/// Whether the row is one that was held under one of `leases`, after its holder has completed it.
pub open spec fn was_held(rows: Seq<JobView>, leases: Seq<LeaseKey>, row: JobView, now: int) -> bool {
    exists|i: int|
        0 <= i < rows.len() && #[trigger] holds_any(rows[i], leases) && acked(rows[i], now) == row
}

/// A row is among those that come back from a batch if and only if it was held under one of the
/// leases.
pub(crate) proof fn lemma_acked_rows(rows: Seq<JobView>, leases: Seq<LeaseKey>, now: int)
    requires
        ids_distinct(rows),
    ensures
        forall|i: int|
            0 <= i < rows.len() && #[trigger] holds_any(rows[i], leases) ==> acked_rows(
                rows,
                leases,
                now,
            ).contains(acked(rows[i], now)),
        forall|k: int|
            0 <= k < acked_rows(rows, leases, now).len() ==> was_held(
                rows,
                leases,
                #[trigger] acked_rows(rows, leases, now)[k],
                now,
            ),
        ids_distinct(acked_rows(rows, leases, now)),
    decreases rows.len(),
{
    let held = |row: JobView| holds_any(row, leases);
    let all = acked_rows(rows, leases, now);
    if rows.len() == 0 {
        reveal(Seq::filter);
        assert(all.len() == 0);
    } else {
        let rest = rows.drop_last();
        let last = rows.last();
        let some = acked_rows(rest, leases, now);
        assert(ids_distinct(rest)) by {
            assert forall|i: int, j: int| 0 <= i < j < rest.len() implies #[trigger] rest[i].id
                != #[trigger] rest[j].id by {
                assert(rows[i].id != rows[j].id);
            }
        }
        lemma_acked_rows(rest, leases, now);
        lemma_filter_push(rest, held, last);
        assert(rest.push(last) =~= rows);
        if holds_any(last, leases) {
            assert(all =~= some.push(acked(last, now)));
        } else {
            assert(all =~= some);
        }
        assert forall|i: int| 0 <= i < rows.len() && #[trigger] holds_any(
            rows[i],
            leases,
        ) implies all.contains(acked(rows[i], now)) by {
            if i < rest.len() {
                assert(holds_any(rest[i], leases));
                let k = choose|k: int| 0 <= k < some.len() && some[k] == acked(rows[i], now);
                assert(all[k] == some[k]);
            } else {
                assert(all[some.len() as int] == acked(last, now));
            }
        }
        assert forall|k: int| 0 <= k < all.len() implies was_held(
            rows,
            leases,
            #[trigger] all[k],
            now,
        ) by {
            if k < some.len() {
                assert(was_held(rest, leases, some[k], now));
                let i = choose|i: int|
                    0 <= i < rest.len() && #[trigger] holds_any(rest[i], leases) && acked(
                        rest[i],
                        now,
                    ) == some[k];
                assert(holds_any(rows[i], leases));
            } else {
                assert(holds_any(rows[rest.len() as int], leases));
            }
        }
        assert forall|k: int, l: int| 0 <= k < l < all.len() implies #[trigger] all[k].id
            != #[trigger] all[l].id by {
            assert(all[k] == some[k]);
            if l < some.len() {
                assert(some[k].id != some[l].id);
            } else {
                assert(was_held(rest, leases, some[k], now));
                let i = choose|i: int|
                    0 <= i < rest.len() && #[trigger] holds_any(rest[i], leases) && acked(
                        rest[i],
                        now,
                    ) == some[k];
                assert(rows[i].id != rows[rest.len() as int].id);
            }
        }
    }
}

/// Whether the row is what the holder of one of `leases` gets for completing its job.
pub open spec fn is_reply_to_one(
    rows: Seq<JobView>,
    leases: Seq<LeaseKey>,
    row: JobView,
    now: int,
) -> bool {
    exists|k: int|
        0 <= k < leases.len() && lease_current(rows, #[trigger] leases[k]) && row == acked(
            leased_row(rows, leases[k]),
            now,
        )
}

/// What comes back from completing a batch: for each lease of it that was current the job that was
/// held under it, as it is afterwards; nothing else; and no job twice.
pub proof fn ack_batch_returns_what_it_completed(
    rows: Seq<JobView>,
    leases: Seq<LeaseKey>,
    now: int,
)
    requires
        ids_distinct(rows),
    ensures
        forall|k: int|
            0 <= k < leases.len() && lease_current(rows, #[trigger] leases[k]) ==> acked_rows(
                rows,
                leases,
                now,
            ).contains(acked(leased_row(rows, leases[k]), now)),
        forall|n: int|
            0 <= n < acked_rows(rows, leases, now).len() ==> is_reply_to_one(
                rows,
                leases,
                #[trigger] acked_rows(rows, leases, now)[n],
                now,
            ),
        ids_distinct(acked_rows(rows, leases, now)),
{
    let all = acked_rows(rows, leases, now);
    lemma_acked_rows(rows, leases, now);
    assert forall|k: int|
        0 <= k < leases.len() && lease_current(rows, #[trigger] leases[k]) implies all.contains(
        acked(leased_row(rows, leases[k]), now),
    ) by {
        let i = choose|i: int| 0 <= i < rows.len() && #[trigger] holds_lease(rows[i], leases[k]);
        assert(holds_any(rows[i], leases));
    }
    assert forall|n: int| 0 <= n < all.len() implies is_reply_to_one(
        rows,
        leases,
        #[trigger] all[n],
        now,
    ) by {
        assert(was_held(rows, leases, all[n], now));
        let i = choose|i: int|
            0 <= i < rows.len() && #[trigger] holds_any(rows[i], leases) && acked(rows[i], now)
                == all[n];
        let k = choose|k: int| 0 <= k < leases.len() && #[trigger] holds_lease(rows[i], leases[k]);
        lemma_leased_row(rows, leases[k], i);
        assert(lease_current(rows, leases[k]));
    }
}

/// Whether every job that waits for a worker has attempts left.
pub open spec fn waiting_jobs_have_attempts(rows: Seq<JobView>, max_attempts: int) -> bool {
    forall|i: int|
        0 <= i < rows.len() && #[trigger] rows[i].status == JobStatus::Pending
            ==> rows[i].attempt_count < max_attempts
}

/// Where every statement allows the same number of attempts, a job that waits for a worker always
/// has one left.
pub proof fn waiting_jobs_keep_an_attempt(
    rows: Seq<JobView>,
    new_job: JobView,
    claim: Claim,
    worker: Seq<char>,
    lease_ids: Seq<u128>,
    lease: LeaseKey,
    leases: Seq<LeaseKey>,
    delay: int,
    seconds: int,
)
    requires
        claim.max_attempts > 0,
        waiting_jobs_have_attempts(rows, claim.max_attempts),
        new_job.attempt_count == 0,
    ensures
        waiting_jobs_have_attempts(rows.push(new_job), claim.max_attempts),
        waiting_jobs_have_attempts(
            after_dequeue(rows, claim, worker, lease_ids),
            claim.max_attempts,
        ),
        waiting_jobs_have_attempts(after_ack(rows, lease, claim.now), claim.max_attempts),
        waiting_jobs_have_attempts(after_ack_batch(rows, leases, claim.now), claim.max_attempts),
        waiting_jobs_have_attempts(
            after_nack(rows, lease, claim.max_attempts, delay, claim.now),
            claim.max_attempts,
        ),
        waiting_jobs_have_attempts(
            after_touch(rows, lease, seconds, claim.now),
            claim.max_attempts,
        ),
{
}

/// Whether every job that is past waiting for its first worker has been handed out.
pub open spec fn started_jobs_were_handed_out(rows: Seq<JobView>) -> bool {
    forall|i: int|
        0 <= i < rows.len() && #[trigger] rows[i].status != JobStatus::Pending
            ==> rows[i].attempt_count >= 1
}

/// Delivery is at least once: no job is done or failed that was not handed to a worker first.
pub proof fn jobs_finish_after_delivery(
    rows: Seq<JobView>,
    new_job: JobView,
    claim: Claim,
    worker: Seq<char>,
    lease_ids: Seq<u128>,
    lease: LeaseKey,
    leases: Seq<LeaseKey>,
    delay: int,
    seconds: int,
)
    requires
        table_wf(rows),
        started_jobs_were_handed_out(rows),
        new_job.status == JobStatus::Pending,
    ensures
        started_jobs_were_handed_out(rows.push(new_job)),
        started_jobs_were_handed_out(after_dequeue(rows, claim, worker, lease_ids)),
        started_jobs_were_handed_out(after_ack(rows, lease, claim.now)),
        started_jobs_were_handed_out(after_ack_batch(rows, leases, claim.now)),
        started_jobs_were_handed_out(
            after_nack(rows, lease, claim.max_attempts, delay, claim.now),
        ),
        started_jobs_were_handed_out(after_touch(rows, lease, seconds, claim.now)),
{
    let after = after_dequeue(rows, claim, worker, lease_ids);
    assert forall|i: int|
        0 <= i < after.len() && #[trigger] after[i].status != JobStatus::Pending implies
        after[i].attempt_count >= 1 by {
        assert(row_wf(rows[i]));
    }
}

/// No job is lost: one that is neither done nor failed, and whose time has come, may be handed out,
/// or the next dequeue fails it because its last attempt has timed out.
pub proof fn unfinished_job_is_served(
    rows: Seq<JobView>,
    claim: Claim,
    worker: Seq<char>,
    lease_ids: Seq<u128>,
    i: int,
)
    requires
        ids_distinct(rows),
        claim.batch_size >= 0,
        waiting_jobs_have_attempts(rows, claim.max_attempts),
        0 <= i < rows.len(),
        rows[i].status == JobStatus::Pending || rows[i].status == JobStatus::InProgress,
        rows[i].visible_at <= claim.now,
        !claim.locked.contains(rows[i].id),
    ensures
        is_candidate(rows, claim, i) || after_dequeue(rows, claim, worker, lease_ids)[i]
            == timed_out(rows[i], claim.now),
{
    if rows[i].status == JobStatus::InProgress {
        expired_lease_recovers(rows, claim, worker, lease_ids, i);
    }
}

/// As long as a job may be handed out, a dequeue hands one out, and the first that it hands out is
/// the one that comes before all others.
pub proof fn dequeue_makes_progress(rows: Seq<JobView>, claim: Claim, i: int)
    requires
        ids_distinct(rows),
        claim.batch_size > 0,
        is_candidate(rows, claim, i),
    ensures
        ({
            let picks = next_batch(rows, claim);
            picks.len() > 0 && (picks[0] == i || before(rows[picks[0]], rows[i]))
        }),
{
    next_batch_is_determined(rows, claim);
    let picks = next_batch(rows, claim);
    if picks.contains(i) {
        let k = choose|k: int| 0 <= k < picks.len() && picks[k] == i;
        if k > 0 {
            assert(before(rows[picks[0]], rows[picks[k]]));
        }
    }
}

} // verus!
