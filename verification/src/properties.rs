//! The safety properties that a state of the [model](crate::model) can be checked for. How far they
//! hold in the states that can be reached is in [`model_laws`](crate::model_laws).

use crate::job::JobStatus;
use crate::model::{QueueModel, State, StateView, Worker};
use vstd::prelude::*;

verus! {

/// The number of attempts for any job never exceeds the configured maximum.
pub open spec fn attempt_leq_max(model: QueueModel, st: StateView) -> bool {
    forall|i: int|
        0 <= i < st.jobs.len() ==> (#[trigger] st.jobs[i] matches Some(job) ==> job.attempt_count
            <= model.max_attempts)
}

/// Any job that is in progress has a lease assigned to it.
pub open spec fn inprogress_has_lease(st: StateView) -> bool {
    forall|i: int|
        0 <= i < st.jobs.len() ==> (#[trigger] st.jobs[i] matches Some(job) ==> (job.status
            == JobStatus::InProgress ==> job.lease_id is Some && job.leased_by is Some))
}

/// Once a job is done or failed, its lease fields are cleared.
pub open spec fn terminal_clears_lease(st: StateView) -> bool {
    forall|i: int|
        0 <= i < st.jobs.len() ==> (#[trigger] st.jobs[i] matches Some(job) ==> (job.status
            == JobStatus::Done || job.status == JobStatus::Failed ==> job.lease_id is None
            && job.leased_by is None))
}

/// A job that is done was completed by its last attempt: no worker has completed a job that had
/// been handed to another one since.
pub open spec fn done_attempt_matches(st: StateView) -> bool {
    forall|i: int|
        0 <= i < st.jobs.len() ==> (#[trigger] st.jobs[i] matches Some(job) ==> (job.status
            == JobStatus::Done ==> job.completed_attempt == Some(job.attempt_count)))
}

/// A job that has failed did so at its last attempt.
pub open spec fn failed_attempt_matches(st: StateView) -> bool {
    forall|i: int|
        0 <= i < st.jobs.len() ==> (#[trigger] st.jobs[i] matches Some(job) ==> (job.status
            == JobStatus::Failed ==> job.failed_attempt == Some(job.attempt_count)))
}

/// Every active lease has an id of its own.
pub open spec fn unique_active_lease_ids(st: StateView) -> bool {
    forall|i: int, j: int|
        0 <= i < j < st.jobs.len() ==> (#[trigger] st.jobs[i] matches Some(a)
            ==> #[trigger] st.jobs[j] matches Some(b) ==> (a.lease_id is Some && b.lease_id is Some
            ==> a.lease_id != b.lease_id))
}

/// Whether the worker remembers the lease `lease_id` on the job in slot `j`.
pub open spec fn remembers(worker: Worker, j: int, lease_id: u8) -> bool {
    worker.held matches Some(mem) && mem.job == j && mem.lease_id == lease_id
}

/// No job is owned by two workers: no two remember its current lease. A worker may still remember a
/// lease that it has lost.
pub open spec fn no_two_current_owners(st: StateView) -> bool {
    forall|j: int, v: int, w: int|
        0 <= j < st.jobs.len() && 0 <= v < w < st.workers.len() ==> (#[trigger] st.jobs[j]
            matches Some(job) ==> (job.lease_id matches Some(current) ==> !(remembers(
            #[trigger] st.workers[v],
            j,
            current,
        ) && remembers(#[trigger] st.workers[w], j, current))))
}

/// No two jobs in the queue have the same idempotency key.
pub open spec fn unique_idempotency_keys(st: StateView) -> bool {
    forall|i: int, j: int|
        0 <= i < j < st.jobs.len() ==> (#[trigger] st.jobs[i] matches Some(a)
            ==> #[trigger] st.jobs[j] matches Some(b) ==> a.idempotency_key != b.idempotency_key)
}

/// Checks [`attempt_leq_max`].
pub fn prop_attempt_leq_max(model: &QueueModel, st: &State) -> (holds: bool)
    ensures
        holds == attempt_leq_max(*model, st@),
{
    let mut i: usize = 0;
    while i < st.jobs.len()
        invariant
            i <= st.jobs.len(),
            forall|k: int|
                0 <= k < i ==> (#[trigger] st@.jobs[k] matches Some(job) ==> job.attempt_count
                    <= model.max_attempts),
        decreases st.jobs.len() - i,
    {
        if let Some(job) = st.jobs[i] {
            if job.attempt_count > model.max_attempts {
                assert(st@.jobs[i as int] == Some(job));
                return false;
            }
        }
        i += 1;
    }
    true
}

/// Checks [`inprogress_has_lease`].
pub fn prop_inprogress_has_lease(st: &State) -> (holds: bool)
    ensures
        holds == inprogress_has_lease(st@),
{
    let mut i: usize = 0;
    while i < st.jobs.len()
        invariant
            i <= st.jobs.len(),
            forall|k: int|
                0 <= k < i ==> (#[trigger] st@.jobs[k] matches Some(job) ==> (job.status
                    == JobStatus::InProgress ==> job.lease_id is Some && job.leased_by is Some)),
        decreases st.jobs.len() - i,
    {
        if let Some(job) = st.jobs[i] {
            if job.status == JobStatus::InProgress && !(job.lease_id.is_some()
                && job.leased_by.is_some()) {
                assert(st@.jobs[i as int] == Some(job));
                return false;
            }
        }
        i += 1;
    }
    true
}

/// Checks [`terminal_clears_lease`].
pub fn prop_terminal_clears_lease(st: &State) -> (holds: bool)
    ensures
        holds == terminal_clears_lease(st@),
{
    let mut i: usize = 0;
    while i < st.jobs.len()
        invariant
            i <= st.jobs.len(),
            forall|k: int|
                0 <= k < i ==> (#[trigger] st@.jobs[k] matches Some(job) ==> (job.status
                    == JobStatus::Done || job.status == JobStatus::Failed ==> job.lease_id is None
                    && job.leased_by is None)),
        decreases st.jobs.len() - i,
    {
        if let Some(job) = st.jobs[i] {
            if (job.status == JobStatus::Done || job.status == JobStatus::Failed) && !(
            job.lease_id.is_none() && job.leased_by.is_none()) {
                assert(st@.jobs[i as int] == Some(job));
                return false;
            }
        }
        i += 1;
    }
    true
}

/// Checks [`done_attempt_matches`].
pub fn prop_done_attempt_matches(st: &State) -> (holds: bool)
    ensures
        holds == done_attempt_matches(st@),
{
    let mut i: usize = 0;
    while i < st.jobs.len()
        invariant
            i <= st.jobs.len(),
            forall|k: int|
                0 <= k < i ==> (#[trigger] st@.jobs[k] matches Some(job) ==> (job.status
                    == JobStatus::Done ==> job.completed_attempt == Some(job.attempt_count))),
        decreases st.jobs.len() - i,
    {
        if let Some(job) = st.jobs[i] {
            if job.status == JobStatus::Done && job.completed_attempt != Some(job.attempt_count) {
                assert(st@.jobs[i as int] == Some(job));
                return false;
            }
        }
        i += 1;
    }
    true
}

/// Checks [`failed_attempt_matches`].
pub fn prop_failed_attempt_matches(st: &State) -> (holds: bool)
    ensures
        holds == failed_attempt_matches(st@),
{
    let mut i: usize = 0;
    while i < st.jobs.len()
        invariant
            i <= st.jobs.len(),
            forall|k: int|
                0 <= k < i ==> (#[trigger] st@.jobs[k] matches Some(job) ==> (job.status
                    == JobStatus::Failed ==> job.failed_attempt == Some(job.attempt_count))),
        decreases st.jobs.len() - i,
    {
        if let Some(job) = st.jobs[i] {
            if job.status == JobStatus::Failed && job.failed_attempt != Some(job.attempt_count) {
                assert(st@.jobs[i as int] == Some(job));
                return false;
            }
        }
        i += 1;
    }
    true
}

/// Checks [`unique_active_lease_ids`].
pub fn prop_unique_active_lease_ids(st: &State) -> (holds: bool)
    ensures
        holds == unique_active_lease_ids(st@),
{
    let mut j: usize = 0;
    while j < st.jobs.len()
        invariant
            j <= st.jobs.len(),
            forall|k: int, l: int|
                0 <= k < l < j ==> (#[trigger] st@.jobs[k] matches Some(a)
                    ==> #[trigger] st@.jobs[l] matches Some(b) ==> (a.lease_id is Some
                    && b.lease_id is Some ==> a.lease_id != b.lease_id)),
        decreases st.jobs.len() - j,
    {
        if let Some(b) = st.jobs[j] {
            let mut i: usize = 0;
            while i < j
                invariant
                    i <= j < st.jobs.len(),
                    st@.jobs[j as int] == Some(b),
                    forall|k: int|
                        0 <= k < i ==> (#[trigger] st@.jobs[k] matches Some(a) ==> (
                        a.lease_id is Some && b.lease_id is Some ==> a.lease_id != b.lease_id)),
                decreases j - i,
            {
                if let Some(a) = st.jobs[i] {
                    if a.lease_id.is_some() && a.lease_id == b.lease_id {
                        assert(st@.jobs[i as int] == Some(a));
                        return false;
                    }
                }
                i += 1;
            }
        }
        j += 1;
    }
    true
}

/// Whether the worker remembers the lease `lease_id` on the job in slot `j`.
fn worker_remembers(worker: &Worker, j: usize, lease_id: u8) -> (yes: bool)
    ensures
        yes == remembers(*worker, j as int, lease_id),
{
    match worker.held {
        Some(mem) => mem.job as usize == j && mem.lease_id == lease_id,
        None => false,
    }
}

/// Whether at most one worker remembers the lease `current` on the job in slot `j`.
fn has_one_owner(st: &State, j: usize, current: u8) -> (holds: bool)
    ensures
        holds == forall|v: int, w: int|
            0 <= v < w < st@.workers.len() ==> !(remembers(
                #[trigger] st@.workers[v],
                j as int,
                current,
            ) && remembers(#[trigger] st@.workers[w], j as int, current)),
{
    let mut owner: Option<usize> = None;
    let mut n: usize = 0;
    while n < st.workers.len()
        invariant
            n <= st.workers.len(),
            owner matches Some(o) ==> o < n && remembers(st@.workers[o as int], j as int, current),
            forall|v: int|
                0 <= v < n && remembers(#[trigger] st@.workers[v], j as int, current) ==> owner
                    == Some(v as usize),
        decreases st.workers.len() - n,
    {
        if worker_remembers(&st.workers[n], j, current) {
            assert(remembers(st@.workers[n as int], j as int, current));
            match owner {
                Some(o) => {
                    assert(remembers(st@.workers[o as int], j as int, current));
                    return false;
                },
                None => {
                    owner = Some(n);
                },
            }
        }
        n += 1;
    }
    true
}

/// Checks [`no_two_current_owners`].
pub fn prop_no_two_current_owners(st: &State) -> (holds: bool)
    ensures
        holds == no_two_current_owners(st@),
{
    let mut j: usize = 0;
    while j < st.jobs.len()
        invariant
            j <= st.jobs.len(),
            forall|k: int, v: int, w: int|
                0 <= k < j && 0 <= v < w < st@.workers.len() ==> (#[trigger] st@.jobs[k]
                    matches Some(job) ==> (job.lease_id matches Some(current) ==> !(remembers(
                    #[trigger] st@.workers[v],
                    k,
                    current,
                ) && remembers(#[trigger] st@.workers[w], k, current)))),
        decreases st.jobs.len() - j,
    {
        if let Some(job) = st.jobs[j] {
            if let Some(current) = job.lease_id {
                if !has_one_owner(st, j, current) {
                    assert(st@.jobs[j as int] == Some(job));
                    return false;
                }
            }
        }
        j += 1;
    }
    true
}

/// Checks [`unique_idempotency_keys`].
pub fn prop_unique_idempotency_keys(st: &State) -> (holds: bool)
    ensures
        holds == unique_idempotency_keys(st@),
{
    let mut j: usize = 0;
    while j < st.jobs.len()
        invariant
            j <= st.jobs.len(),
            forall|k: int, l: int|
                0 <= k < l < j ==> (#[trigger] st@.jobs[k] matches Some(a)
                    ==> #[trigger] st@.jobs[l] matches Some(b) ==> a.idempotency_key
                    != b.idempotency_key),
        decreases st.jobs.len() - j,
    {
        if let Some(b) = st.jobs[j] {
            let mut i: usize = 0;
            while i < j
                invariant
                    i <= j < st.jobs.len(),
                    st@.jobs[j as int] == Some(b),
                    forall|k: int|
                        0 <= k < i ==> (#[trigger] st@.jobs[k] matches Some(a)
                            ==> a.idempotency_key != b.idempotency_key),
                decreases j - i,
            {
                if let Some(a) = st.jobs[i] {
                    if a.idempotency_key == b.idempotency_key {
                        assert(st@.jobs[i as int] == Some(a));
                        return false;
                    }
                }
                i += 1;
            }
        }
        j += 1;
    }
    true
}

} // verus!
