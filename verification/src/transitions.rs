//! What each action of the [model](crate::model) does, slot by slot and worker by worker, and what
//! makes a state break one of its [properties](crate::properties).

use crate::job::JobStatus;
use crate::model::{
    actions_of, dequeue_actions, eligible, first_free, initial, key_taken, next, offered, reaped,
    worker_actions, Action, LeaseMem, ModelJob, QueueModel, State, StateView,
};
use crate::model_laws::lemma_first_free;
use crate::properties::{
    attempt_leq_max, done_attempt_matches, failed_attempt_matches, inprogress_has_lease,
    no_two_current_owners, terminal_clears_lease, unique_active_lease_ids, unique_idempotency_keys,
};
use vstd::prelude::*;

verus! {

/// What a state says is what it holds.
pub proof fn state_says_what_it_holds(st: State)
    ensures
        st@.now == st.now,
        st@.next_lease_id == st.next_lease_id,
        st@.jobs == st.jobs@,
        st@.workers == st.workers@,
{
}

/// At the start there is no job in any slot, every worker is idle, time is zero and the first lease
/// id is one.
pub proof fn model_starts_idle(model: QueueModel)
    ensures
        initial(model).now == 0,
        initial(model).next_lease_id == 1,
        initial(model).jobs.len() == model.jobs,
        initial(model).workers.len() == model.workers,
        forall|i: int| 0 <= i < model.jobs ==> #[trigger] initial(model).jobs[i] is None,
        forall|w: int|
            0 <= w < model.workers ==> (#[trigger] initial(model).workers[w]).held is None,
{
}

/// Whether the job may be dequeued: it is not finished, is due and has attempts left.
pub proof fn due_job_is_eligible(model: QueueModel, st: StateView, j: int)
    requires
        0 <= j < st.jobs.len(),
    ensures
        st.jobs[j] is None ==> !eligible(model, st, j),
        st.jobs[j] matches Some(job) ==> (eligible(model, st, j) <==> job.status != JobStatus::Done
            && job.status != JobStatus::Failed && job.visible_at <= st.now && job.attempt_count
            < model.max_attempts),
{
}

/// Reaping fails the jobs whose lease has expired with no attempt left, and keeps all else.
pub proof fn reaping_fails_only_the_exhausted(model: QueueModel, st: StateView, i: int)
    requires
        0 <= i < st.jobs.len(),
    ensures
        reaped(model, st).now == st.now,
        reaped(model, st).next_lease_id == st.next_lease_id,
        reaped(model, st).workers == st.workers,
        reaped(model, st).jobs.len() == st.jobs.len(),
        st.jobs[i] is None ==> reaped(model, st).jobs[i] is None,
        st.jobs[i] matches Some(job) ==> (reaped(model, st).jobs[i] matches Some(after) && (
        if job.status == JobStatus::InProgress && job.visible_at <= st.now && job.attempt_count
            >= model.max_attempts {
            &&& after.status == JobStatus::Failed
            &&& after.failed_attempt == Some(job.attempt_count)
            &&& after.lease_id is None
            &&& after.leased_by is None
            &&& after.idempotency_key == job.idempotency_key
            &&& after.visible_at == job.visible_at
            &&& after.attempt_count == job.attempt_count
            &&& after.lease_timeout == job.lease_timeout
            &&& after.completed_attempt == job.completed_attempt
        } else {
            after == job
        })),
{
}

/// A tick moves the clock by one, up to the last time that it can show, and nothing else.
pub proof fn tick_moves_the_clock(model: QueueModel, st: StateView)
    ensures
        next(model, st, Action::Tick) matches Some(after) && {
            &&& st.now < 255 ==> after.now == st.now + 1
            &&& st.now == 255 ==> after.now == 255
            &&& after.next_lease_id == st.next_lease_id
            &&& after.jobs == st.jobs
            &&& after.workers == st.workers
        },
{
}

/// A crash makes the worker forget, and changes nothing else.
pub proof fn crash_only_makes_the_worker_forget(model: QueueModel, st: StateView, worker: u8)
    requires
        worker < st.workers.len(),
    ensures
        next(model, st, Action::Crash { worker }) matches Some(after) && {
            &&& after.now == st.now
            &&& after.next_lease_id == st.next_lease_id
            &&& after.jobs == st.jobs
            &&& after.workers.len() == st.workers.len()
            &&& after.workers[worker as int].held is None
            &&& forall|w: int|
                0 <= w < st.workers.len() && w != worker ==> #[trigger] after.workers[w]
                    == st.workers[w]
        },
{
}

/// Enqueuing under a key that some job has, or without a free slot, changes nothing.
pub proof fn enqueue_is_idempotent(model: QueueModel, st: StateView, key: u8, i: int)
    requires
        0 <= i < st.jobs.len(),
        (st.jobs[i] matches Some(job) && job.idempotency_key == key) || forall|k: int|
            0 <= k < st.jobs.len() ==> #[trigger] st.jobs[k] is Some,
    ensures
        next(model, st, Action::Enqueue { key }) == Some(st),
{
    lemma_first_free(st.jobs, 0);
    if st.jobs[i] matches Some(job) && job.idempotency_key == key {
        assert(key_taken(st.jobs, key));
    }
}

/// Enqueuing under a new key fills the first free slot with a job that waits, due at once, with no
/// attempt and no lease, whose lease lasts two ticks or, under the second key, one more. Nothing else
/// changes.
pub proof fn enqueue_fills_the_first_free_slot(model: QueueModel, st: StateView, key: u8, slot: int)
    requires
        key <= 253,
        0 <= slot < st.jobs.len(),
        st.jobs[slot] is None,
        forall|i: int| 0 <= i < slot ==> #[trigger] st.jobs[i] is Some,
        forall|i: int|
            0 <= i < st.jobs.len() ==> (#[trigger] st.jobs[i] matches Some(job)
                ==> job.idempotency_key != key),
    ensures
        next(model, st, Action::Enqueue { key }) matches Some(after) && {
            &&& after.now == st.now
            &&& after.next_lease_id == st.next_lease_id
            &&& after.workers == st.workers
            &&& after.jobs.len() == st.jobs.len()
            &&& forall|i: int|
                0 <= i < st.jobs.len() && i != slot ==> #[trigger] after.jobs[i] == st.jobs[i]
            &&& after.jobs[slot] matches Some(job) && {
                &&& job.idempotency_key == key
                &&& job.status == JobStatus::Pending
                &&& job.visible_at == st.now
                &&& job.attempt_count == 0
                &&& job.lease_timeout == 2 + key
                &&& job.lease_id is None
                &&& job.leased_by is None
                &&& job.completed_attempt is None
                &&& job.failed_attempt is None
            }
        },
{
    lemma_first_free(st.jobs, 0);
    let free = first_free(st.jobs, 0);
    assert(free == slot) by {
        if free < slot {
            assert(st.jobs[free] is Some);
        } else if slot < free {
            assert(st.jobs[slot] is Some);
        }
    }
    assert(!key_taken(st.jobs, key));
}

/// A dequeue is possible if and only if the worker is idle and the job is not finished, is due and
/// has attempts left. It counts one attempt, hands the job to the worker under the next lease id,
/// hides it for its lease timeout and has the worker remember the lease. Exhausted jobs fail, and
/// nothing else changes.
pub proof fn dequeue_hands_the_job_to_the_worker(
    model: QueueModel,
    st: StateView,
    worker: u8,
    j: u8,
)
    requires
        worker < st.workers.len(),
        j < st.jobs.len(),
    ensures
        next(model, st, Action::Dequeue { worker, job: j }) is Some <==> {
            &&& st.workers[worker as int].held is None
            &&& st.jobs[j as int] matches Some(job) && job.status != JobStatus::Done && job.status
                != JobStatus::Failed && job.visible_at <= st.now && job.attempt_count
                < model.max_attempts
        },
        next(model, st, Action::Dequeue { worker, job: j }) matches Some(after) ==> {
            &&& after.now == st.now
            &&& after.next_lease_id == if st.next_lease_id < 255 {
                st.next_lease_id + 1
            } else {
                255
            }
            &&& after.jobs.len() == st.jobs.len()
            &&& after.workers.len() == st.workers.len()
            &&& after.jobs[j as int] matches Some(job) && st.jobs[j as int] matches Some(was) && {
                &&& job.status == JobStatus::InProgress
                &&& job.attempt_count == was.attempt_count + 1
                &&& job.visible_at == if st.now + was.lease_timeout <= 255 {
                    st.now + was.lease_timeout
                } else {
                    255
                }
                &&& job.lease_id == Some(st.next_lease_id)
                &&& job.leased_by == Some(worker)
                &&& job.idempotency_key == was.idempotency_key
                &&& job.lease_timeout == was.lease_timeout
                &&& job.completed_attempt == was.completed_attempt
                &&& job.failed_attempt == was.failed_attempt
                &&& after.workers[worker as int].held == Some(
                    LeaseMem {
                        job: j,
                        lease_id: st.next_lease_id,
                        attempt_count: job.attempt_count,
                    },
                )
            }
            &&& forall|i: int|
                0 <= i < st.jobs.len() && i != j ==> #[trigger] after.jobs[i] == reaped(
                    model,
                    st,
                ).jobs[i]
            &&& forall|w: int|
                0 <= w < st.workers.len() && w != worker ==> #[trigger] after.workers[w]
                    == st.workers[w]
        },
{
    assert(reaped(model, st).jobs[j as int] is Some <==> st.jobs[j as int] is Some);
}

/// Whether a step of `worker` on the slot leaves the clock, the other slots and the other workers
/// alone.
pub open spec fn only_concerns(st: StateView, after: StateView, worker: u8, slot: u8) -> bool {
    &&& after.now == st.now
    &&& after.next_lease_id == st.next_lease_id
    &&& after.jobs.len() == st.jobs.len()
    &&& after.workers.len() == st.workers.len()
    &&& forall|i: int|
        0 <= i < st.jobs.len() && i != slot ==> #[trigger] after.jobs[i] == st.jobs[i]
    &&& forall|w: int|
        0 <= w < st.workers.len() && w != worker ==> #[trigger] after.workers[w] == st.workers[w]
}

/// A worker that remembers nothing has nothing to ack, to nack or to touch.
pub proof fn idle_worker_settles_nothing(model: QueueModel, st: StateView, worker: u8)
    requires
        worker < st.workers.len(),
        st.workers[worker as int].held is None,
    ensures
        next(model, st, Action::Ack { worker }) is None,
        next(model, st, Action::Nack { worker }) is None,
        next(model, st, Action::Touch { worker }) is None,
{
}

/// An ack under the current lease on the job leaves it done by the attempt that the worker remembers;
/// under a lost one it leaves the job as it is. The worker forgets the lease either way.
pub proof fn ack_completes_under_the_current_lease_only(
    model: QueueModel,
    st: StateView,
    worker: u8,
    lease: LeaseMem,
    job: ModelJob,
)
    requires
        worker < st.workers.len(),
        st.workers[worker as int].held == Some(lease),
        lease.job < st.jobs.len(),
        st.jobs[lease.job as int] == Some(job),
    ensures
        next(model, st, Action::Ack { worker }) matches Some(after) && {
            &&& only_concerns(st, after, worker, lease.job)
            &&& after.workers[worker as int].held is None
            &&& after.jobs[lease.job as int] matches Some(settled) && (if job.status
                == JobStatus::InProgress && job.lease_id == Some(lease.lease_id) {
                &&& settled.status == JobStatus::Done
                &&& settled.completed_attempt == Some(lease.attempt_count)
                &&& settled.lease_id is None
                &&& settled.leased_by is None
                &&& settled.failed_attempt == job.failed_attempt
                &&& settled.visible_at == job.visible_at
                &&& settled.attempt_count == job.attempt_count
                &&& settled.idempotency_key == job.idempotency_key
                &&& settled.lease_timeout == job.lease_timeout
            } else {
                settled == job
            })
        },
{
}

/// A nack under the current lease on the job fails it, by the attempt that the worker remembers, if
/// no attempt is left, and else has it wait again, due at once; under a lost one it leaves the job as
/// it is. The worker forgets the lease either way.
pub proof fn nack_retries_or_fails_under_the_current_lease_only(
    model: QueueModel,
    st: StateView,
    worker: u8,
    lease: LeaseMem,
    job: ModelJob,
)
    requires
        worker < st.workers.len(),
        st.workers[worker as int].held == Some(lease),
        lease.job < st.jobs.len(),
        st.jobs[lease.job as int] == Some(job),
    ensures
        next(model, st, Action::Nack { worker }) matches Some(after) && {
            &&& only_concerns(st, after, worker, lease.job)
            &&& after.workers[worker as int].held is None
            &&& after.jobs[lease.job as int] matches Some(settled) && (if job.status
                == JobStatus::InProgress && job.lease_id == Some(lease.lease_id) {
                &&& job.attempt_count >= model.max_attempts ==> {
                    &&& settled.status == JobStatus::Failed
                    &&& settled.failed_attempt == Some(lease.attempt_count)
                    &&& settled.visible_at == job.visible_at
                }
                &&& job.attempt_count < model.max_attempts ==> {
                    &&& settled.status == JobStatus::Pending
                    &&& settled.failed_attempt == job.failed_attempt
                    &&& settled.visible_at == st.now
                }
                &&& settled.lease_id is None
                &&& settled.leased_by is None
                &&& settled.completed_attempt == job.completed_attempt
                &&& settled.attempt_count == job.attempt_count
                &&& settled.idempotency_key == job.idempotency_key
                &&& settled.lease_timeout == job.lease_timeout
            } else {
                settled == job
            })
        },
{
}

/// A touch under the current lease on the job hides it for its lease timeout from now, and the worker
/// keeps the lease; under a lost one the job stays as it is and the worker forgets.
pub proof fn touch_extends_the_current_lease_only(
    model: QueueModel,
    st: StateView,
    worker: u8,
    lease: LeaseMem,
    job: ModelJob,
)
    requires
        worker < st.workers.len(),
        st.workers[worker as int].held == Some(lease),
        lease.job < st.jobs.len(),
        st.jobs[lease.job as int] == Some(job),
    ensures
        next(model, st, Action::Touch { worker }) matches Some(after) && {
            &&& only_concerns(st, after, worker, lease.job)
            &&& after.jobs[lease.job as int] matches Some(kept) && (if job.status
                == JobStatus::InProgress && job.lease_id == Some(lease.lease_id) {
                &&& kept.visible_at == if st.now + job.lease_timeout <= 255 {
                    st.now + job.lease_timeout
                } else {
                    255
                }
                &&& kept.status == JobStatus::InProgress
                &&& kept.lease_id == job.lease_id
                &&& kept.leased_by == job.leased_by
                &&& kept.attempt_count == job.attempt_count
                &&& kept.completed_attempt == job.completed_attempt
                &&& kept.failed_attempt == job.failed_attempt
                &&& kept.idempotency_key == job.idempotency_key
                &&& kept.lease_timeout == job.lease_timeout
                &&& after.workers[worker as int].held == Some(lease)
            } else {
                &&& kept == job
                &&& after.workers[worker as int].held is None
            })
        },
{
}

// ---------------------------
// Which actions are offered
// ---------------------------

proof fn lemma_dequeue_actions_complete(
    model: QueueModel,
    st: StateView,
    w: u8,
    n: nat,
    action: Action,
)
    requires
        n <= model.jobs,
    ensures
        dequeue_actions(model, st, w, n).contains(action) <==> {
            action matches Action::Dequeue { worker, job } && worker == w && job < n && eligible(
                model,
                st,
                job as int,
            )
        },
        dequeue_actions(model, st, w, n).no_duplicates(),
    decreases n,
{
    let all = dequeue_actions(model, st, w, n);
    if n > 0 {
        let rest = dequeue_actions(model, st, w, (n - 1) as nat);
        let last = Action::Dequeue { worker: w, job: (n - 1) as u8 };
        lemma_dequeue_actions_complete(model, st, w, (n - 1) as nat, action);
        lemma_dequeue_actions_complete(model, st, w, (n - 1) as nat, last);
        if eligible(model, st, n - 1) {
            assert(all == rest.push(last));
            assert(all[rest.len() as int] == last);
            if rest.contains(action) {
                let k = choose|k: int| 0 <= k < rest.len() && rest[k] == action;
                assert(all[k] == action);
            }
            if all.contains(action) {
                let k = choose|k: int| 0 <= k < all.len() && all[k] == action;
                if k < rest.len() {
                    assert(rest[k] == action);
                }
            }
            assert forall|k: int, l: int| 0 <= k < l < all.len() implies all[k] != all[l] by {
                if l == rest.len() {
                    assert(rest[k] == all[k]);
                    assert(rest.contains(rest[k]));
                } else {
                    assert(rest[k] != rest[l]);
                }
            }
        }
    }
}

/// Whether the action is one of the worker's, and one that it can take.
spec fn can_take(model: QueueModel, st: StateView, w: int, action: Action) -> bool {
    let idle = st.workers[w].held is None;
    match action {
        Action::Dequeue { worker, job } => worker == w && idle && job < model.jobs && eligible(
            model,
            st,
            job as int,
        ),
        Action::Ack { worker } => worker == w && !idle,
        Action::Nack { worker } => worker == w && !idle,
        Action::Touch { worker } => worker == w && !idle,
        Action::Crash { worker } => worker == w && !idle,
        Action::Tick => false,
        Action::Enqueue { key } => false,
    }
}

/// The worker whose action it is.
spec fn actor(action: Action) -> int {
    match action {
        Action::Dequeue { worker, job } => worker as int,
        Action::Ack { worker } => worker as int,
        Action::Nack { worker } => worker as int,
        Action::Touch { worker } => worker as int,
        Action::Crash { worker } => worker as int,
        _ => -1,
    }
}

proof fn lemma_actions_of_complete(model: QueueModel, st: StateView, w: u8, action: Action)
    ensures
        actions_of(model, st, w).contains(action) <==> can_take(model, st, w as int, action),
        actions_of(model, st, w).no_duplicates(),
{
    if st.workers[w as int].held is None {
        lemma_dequeue_actions_complete(model, st, w, model.jobs as nat, action);
    } else {
        let all = actions_of(model, st, w);
        assert(all[0] == Action::Ack { worker: w });
        assert(all[1] == Action::Nack { worker: w });
        assert(all[2] == Action::Touch { worker: w });
        assert(all[3] == Action::Crash { worker: w });
        if all.contains(action) {
            let k = choose|k: int| 0 <= k < all.len() && all[k] == action;
            assert(k == 0 || k == 1 || k == 2 || k == 3);
        }
    }
}

proof fn lemma_worker_actions_complete(
    model: QueueModel,
    st: StateView,
    n: nat,
    action: Action,
)
    requires
        n <= model.workers,
    ensures
        worker_actions(model, st, n).contains(action) <==> 0 <= actor(action) < n && can_take(
            model,
            st,
            actor(action),
            action,
        ),
    decreases n,
{
    if n > 0 {
        let rest = worker_actions(model, st, (n - 1) as nat);
        let last = actions_of(model, st, (n - 1) as u8);
        let all = worker_actions(model, st, n);
        assert(all == rest + last);
        lemma_worker_actions_complete(model, st, (n - 1) as nat, action);
        lemma_actions_of_complete(model, st, (n - 1) as u8, action);
        if rest.contains(action) {
            let k = choose|k: int| 0 <= k < rest.len() && rest[k] == action;
            assert(all[k] == action);
        }
        if last.contains(action) {
            let k = choose|k: int| 0 <= k < last.len() && last[k] == action;
            assert(all[rest.len() + k] == action);
        }
        if all.contains(action) {
            let k = choose|k: int| 0 <= k < all.len() && all[k] == action;
            if k < rest.len() {
                assert(rest[k] == action);
            } else {
                assert(last[k - rest.len()] == action);
            }
        }
    }
}

proof fn lemma_worker_actions_distinct(model: QueueModel, st: StateView, n: nat)
    requires
        n <= model.workers,
    ensures
        worker_actions(model, st, n).no_duplicates(),
    decreases n,
{
    if n > 0 {
        let rest = worker_actions(model, st, (n - 1) as nat);
        let last = actions_of(model, st, (n - 1) as u8);
        let all = worker_actions(model, st, n);
        assert(all == rest + last);
        lemma_worker_actions_distinct(model, st, (n - 1) as nat);
        lemma_actions_of_complete(model, st, (n - 1) as u8, Action::Tick);
        assert forall|k: int, l: int| 0 <= k < l < all.len() implies all[k] != all[l] by {
            if k < rest.len() && l >= rest.len() {
                assert(rest.contains(rest[k]));
                assert(last.contains(last[l - rest.len()]));
                lemma_worker_actions_complete(model, st, (n - 1) as nat, rest[k]);
                lemma_actions_of_complete(model, st, (n - 1) as u8, last[l - rest.len()]);
            } else if l < rest.len() {
                assert(rest[k] != rest[l]);
            } else {
                assert(last[k - rest.len()] != last[l - rest.len()]);
            }
        }
    }
}

/// What is offered in a state, and offered once: a tick until the time limit, an enqueue under each
/// of two keys, a dequeue of each job that is due by each idle worker, and for each worker that
/// remembers a lease an ack, a nack, a touch and a crash.
pub proof fn offered_is_what_can_happen(model: QueueModel, st: StateView, action: Action)
    requires
        model.jobs <= st.jobs.len(),
        model.workers <= st.workers.len(),
    ensures
        offered(model, st).no_duplicates(),
        offered(model, st).contains(action) <==> match action {
            Action::Tick => st.now < model.max_time,
            Action::Enqueue { key } => key == 0 || key == 1,
            Action::Dequeue { worker, job } => {
                &&& worker < model.workers
                &&& job < model.jobs
                &&& st.workers[worker as int].held is None
                &&& st.jobs[job as int] matches Some(due) && due.status != JobStatus::Done
                    && due.status != JobStatus::Failed && due.visible_at <= st.now
                    && due.attempt_count < model.max_attempts
            },
            Action::Ack { worker } => worker < model.workers && st.workers[worker as int].held
                is Some,
            Action::Nack { worker } => worker < model.workers && st.workers[worker as int].held
                is Some,
            Action::Touch { worker } => worker < model.workers && st.workers[worker as int].held
                is Some,
            Action::Crash { worker } => worker < model.workers && st.workers[worker as int].held
                is Some,
        },
{
    let workers = worker_actions(model, st, model.workers as nat);
    let all = offered(model, st);
    let head = all.len() - workers.len();
    lemma_worker_actions_complete(model, st, model.workers as nat, action);
    lemma_worker_actions_distinct(model, st, model.workers as nat);
    assert(head == if st.now < model.max_time {
        3int
    } else {
        2
    });
    assert forall|k: int| 0 <= k < workers.len() implies all[head + k] == workers[k] by {}
    assert(all[head - 2] == Action::Enqueue { key: 0 });
    assert(all[head - 1] == Action::Enqueue { key: 1 });
    assert(st.now < model.max_time ==> all[0] == Action::Tick);
    if workers.contains(action) {
        let k = choose|k: int| 0 <= k < workers.len() && workers[k] == action;
        assert(all[head + k] == action);
    }
    if all.contains(action) {
        let k = choose|k: int| 0 <= k < all.len() && all[k] == action;
        if k >= head {
            assert(workers[k - head] == action);
        }
    }
    assert forall|k: int, l: int| 0 <= k < l < all.len() implies all[k] != all[l] by {
        if l >= head {
            assert(all[l] == workers[l - head]);
            assert(workers.contains(workers[l - head]));
            lemma_worker_actions_complete(
                model,
                st,
                model.workers as nat,
                workers[l - head],
            );
            if k >= head {
                assert(workers[k - head] != workers[l - head]);
            }
        }
    }
}

// ---------------------------
// What breaks a property
// ---------------------------

/// A state keeps the properties of its jobs if and only if each job does: no more attempts than
/// allowed; a lease and a holder while in progress; neither of them once done or failed; and the last
/// attempt on record as the one that finished it.
pub proof fn jobs_keep_the_properties_one_by_one(model: QueueModel, st: StateView)
    ensures
        !attempt_leq_max(model, st) <==> exists|i: int|
            0 <= i < st.jobs.len() && #[trigger] st.jobs[i] is Some && st.jobs[i]->0.attempt_count
                > model.max_attempts,
        !inprogress_has_lease(st) <==> exists|i: int|
            0 <= i < st.jobs.len() && #[trigger] st.jobs[i] is Some && st.jobs[i]->0.status
                == JobStatus::InProgress && (st.jobs[i]->0.lease_id is None
                || st.jobs[i]->0.leased_by is None),
        !terminal_clears_lease(st) <==> exists|i: int|
            0 <= i < st.jobs.len() && #[trigger] st.jobs[i] is Some && (st.jobs[i]->0.status
                == JobStatus::Done || st.jobs[i]->0.status == JobStatus::Failed) && (
            st.jobs[i]->0.lease_id is Some || st.jobs[i]->0.leased_by is Some),
        !done_attempt_matches(st) <==> exists|i: int|
            0 <= i < st.jobs.len() && #[trigger] st.jobs[i] is Some && st.jobs[i]->0.status
                == JobStatus::Done && st.jobs[i]->0.completed_attempt != Some(
                st.jobs[i]->0.attempt_count,
            ),
        !failed_attempt_matches(st) <==> exists|i: int|
            0 <= i < st.jobs.len() && #[trigger] st.jobs[i] is Some && st.jobs[i]->0.status
                == JobStatus::Failed && st.jobs[i]->0.failed_attempt != Some(
                st.jobs[i]->0.attempt_count,
            ),
{
}

/// Two jobs under the same lease id break the uniqueness of lease ids, two with the same key that of
/// keys, and two workers that remember the current lease on one job its single ownership; nothing
/// else does.
pub proof fn pairs_break_the_other_properties(st: StateView)
    ensures
        !unique_active_lease_ids(st) <==> exists|i: int, j: int|
            0 <= i < j < st.jobs.len() && #[trigger] st.jobs[i] is Some && #[trigger] st.jobs[j]
                is Some && st.jobs[i]->0.lease_id is Some && st.jobs[i]->0.lease_id
                == st.jobs[j]->0.lease_id,
        !unique_idempotency_keys(st) <==> exists|i: int, j: int|
            0 <= i < j < st.jobs.len() && #[trigger] st.jobs[i] is Some && #[trigger] st.jobs[j]
                is Some && st.jobs[i]->0.idempotency_key == st.jobs[j]->0.idempotency_key,
        !no_two_current_owners(st) <==> exists|j: int, v: int, w: int|
            0 <= j < st.jobs.len() && 0 <= v < w < st.workers.len() && #[trigger] st.jobs[j] is Some
                && st.jobs[j]->0.lease_id is Some && (#[trigger] st.workers[v]).held is Some
                && st.workers[v].held->0.job == j && Some(st.workers[v].held->0.lease_id)
                == st.jobs[j]->0.lease_id && (#[trigger] st.workers[w]).held is Some
                && st.workers[w].held->0.job == j && Some(st.workers[w].held->0.lease_id)
                == st.jobs[j]->0.lease_id,
{
}

} // verus!
