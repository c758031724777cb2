//! The safety of the [model](crate::model) in every state that can be reached.
//!
//! Four of the eight [properties](crate::properties) hold whatever the parameters are. The other four
//! have a limit, because the model counts its lease ids in one byte. Unique lease ids take
//! [`lease_ids_suffice`]; matching attempts, of done and of failed jobs, and single ownership take
//! that or [`leases_stay_held`].

use crate::job::JobStatus;
use crate::model::{
    action_in_range, actions_of, after_dequeue, after_enqueue, dequeue_actions, eligible,
    first_free, initial, key_taken, next, offered, reaped, worker_actions, Action, LeaseMem,
    ModelJob, QueueModel, StateView,
};
use crate::properties::{
    attempt_leq_max, done_attempt_matches, failed_attempt_matches, inprogress_has_lease,
    no_two_current_owners, remembers, terminal_clears_lease, unique_active_lease_ids,
    unique_idempotency_keys,
};
use vstd::prelude::*;

verus! {

/// Whether `states` are the states that the model goes through when it takes `steps`, each offered
/// in the state before it.
pub open spec fn is_run(model: QueueModel, states: Seq<StateView>, steps: Seq<Action>) -> bool {
    &&& states.len() == steps.len() + 1
    &&& states[0] == initial(model)
    &&& forall|k: int|
        0 <= k < steps.len() ==> {
            &&& offered(model, states[k]).contains(#[trigger] steps[k])
            &&& next(model, states[k], steps[k]) == Some(states[k + 1])
        }
}

// ---------------------------
// What is offered
// ---------------------------

/// Whether the action is one that the state calls for.
spec fn called_for(model: QueueModel, st: StateView, action: Action) -> bool {
    match action {
        Action::Tick => st.now < model.max_time,
        Action::Enqueue { key } => key < 2,
        Action::Dequeue { worker, job } => {
            &&& worker < model.workers
            &&& job < model.jobs
            &&& st.workers[worker as int].held is None
            &&& eligible(model, st, job as int)
        },
        Action::Ack { worker } => worker < model.workers && st.workers[worker as int].held is Some,
        Action::Nack { worker } => worker < model.workers && st.workers[worker as int].held is Some,
        Action::Touch { worker } => worker < model.workers && st.workers[worker as int].held
            is Some,
        Action::Crash { worker } => worker < model.workers && st.workers[worker as int].held
            is Some,
    }
}

proof fn lemma_dequeue_actions(model: QueueModel, st: StateView, w: u8, j: nat, action: Action)
    requires
        w < model.workers,
        j <= model.jobs,
        st.workers[w as int].held is None,
        dequeue_actions(model, st, w, j).contains(action),
    ensures
        called_for(model, st, action),
    decreases j,
{
    if j > 0 {
        let rest = dequeue_actions(model, st, w, (j - 1) as nat);
        let all = dequeue_actions(model, st, w, j);
        let k = choose|k: int| 0 <= k < all.len() && all[k] == action;
        if k < rest.len() {
            assert(rest[k] == action);
            lemma_dequeue_actions(model, st, w, (j - 1) as nat, action);
        }
    }
}

proof fn lemma_worker_actions(model: QueueModel, st: StateView, w: nat, action: Action)
    requires
        w <= model.workers,
        worker_actions(model, st, w).contains(action),
    ensures
        called_for(model, st, action),
    decreases w,
{
    if w > 0 {
        let rest = worker_actions(model, st, (w - 1) as nat);
        let last = actions_of(model, st, (w - 1) as u8);
        let k = choose|k: int| 0 <= k < (rest + last).len() && (rest + last)[k] == action;
        if k < rest.len() {
            assert(rest[k] == action);
            lemma_worker_actions(model, st, (w - 1) as nat, action);
        } else {
            assert(last[k - rest.len()] == action);
            if st.workers[w - 1].held is None {
                lemma_dequeue_actions(model, st, (w - 1) as u8, model.jobs as nat, action);
            }
        }
    }
}

proof fn lemma_offered(model: QueueModel, st: StateView, action: Action)
    requires
        offered(model, st).contains(action),
    ensures
        called_for(model, st, action),
{
    let workers = worker_actions(model, st, model.workers as nat);
    let all = offered(model, st);
    let k = choose|k: int| 0 <= k < all.len() && all[k] == action;
    let head = all.len() - workers.len();
    if k >= head {
        assert(workers[k - head] == action);
        lemma_worker_actions(model, st, model.workers as nat, action);
    }
}

// ---------------------------
// What every step keeps, whatever the parameters
// ---------------------------

/// Whether a job is as the steps leave it.
spec fn job_sound(model: QueueModel, job: ModelJob) -> bool {
    &&& job.idempotency_key < 2
    &&& job.attempt_count <= model.max_attempts
    &&& job.lease_id is Some <==> job.status == JobStatus::InProgress
    &&& job.leased_by is Some <==> job.status == JobStatus::InProgress
}

/// What every step keeps.
spec fn sound(model: QueueModel, st: StateView) -> bool {
    &&& st.jobs.len() == model.jobs
    &&& st.workers.len() == model.workers
    &&& forall|i: int|
        0 <= i < st.jobs.len() ==> (#[trigger] st.jobs[i] matches Some(job) ==> job_sound(
            model,
            job,
        ))
    &&& unique_idempotency_keys(st)
    &&& forall|w: int|
        0 <= w < st.workers.len() ==> (#[trigger] st.workers[w].held matches Some(lease)
            ==> lease.job < st.jobs.len() && st.jobs[lease.job as int] is Some)
}

pub(crate) proof fn lemma_first_free(jobs: Seq<Option<ModelJob>>, from: int)
    requires
        0 <= from <= jobs.len(),
    ensures
        from <= first_free(jobs, from) <= jobs.len(),
        first_free(jobs, from) < jobs.len() ==> jobs[first_free(jobs, from)] is None,
        forall|i: int| from <= i < first_free(jobs, from) ==> #[trigger] jobs[i] is Some,
    decreases jobs.len() - from,
{
    if from < jobs.len() && jobs[from] is Some {
        lemma_first_free(jobs, from + 1);
    }
}

proof fn lemma_step_sound(model: QueueModel, st: StateView, action: Action)
    requires
        sound(model, st),
        called_for(model, st, action),
    ensures
        next(model, st, action) is Some,
        sound(model, next(model, st, action)->0),
        action_in_range(st, action),
{
    let after = next(model, st, action)->0;
    match action {
        Action::Tick => {},
        Action::Enqueue { key } => {
            lemma_first_free(st.jobs, 0);
            let slot = first_free(st.jobs, 0);
            if !key_taken(st.jobs, key) && slot < st.jobs.len() {
                assert forall|i: int, j: int| 0 <= i < j < after.jobs.len() implies (
                #[trigger] after.jobs[i] matches Some(a) ==> #[trigger] after.jobs[j] matches Some(
                    b,
                ) ==> a.idempotency_key != b.idempotency_key) by {
                    if i != slot {
                        assert(after.jobs[i] == st.jobs[i]);
                    }
                    if j != slot {
                        assert(after.jobs[j] == st.jobs[j]);
                    }
                }
            }
        },
        Action::Dequeue { worker, job } => {
            let clean = reaped(model, st);
            assert(clean.jobs[job as int] == st.jobs[job as int]);
            assert forall|i: int, j: int| 0 <= i < j < after.jobs.len() implies (
            #[trigger] after.jobs[i] matches Some(a) ==> #[trigger] after.jobs[j] matches Some(b)
                ==> a.idempotency_key != b.idempotency_key) by {
                assert(st.jobs[i] is Some <==> after.jobs[i] is Some);
                assert(st.jobs[j] is Some <==> after.jobs[j] is Some);
            }
        },
        Action::Ack { worker } => {
            lemma_slot_update(model, st, after, st.workers[worker as int].held->0.job as int);
        },
        Action::Nack { worker } => {
            lemma_slot_update(model, st, after, st.workers[worker as int].held->0.job as int);
        },
        Action::Touch { worker } => {
            lemma_slot_update(model, st, after, st.workers[worker as int].held->0.job as int);
        },
        Action::Crash { worker } => {},
    }
}

/// A step that changes one job and keeps its key leaves the keys unique.
proof fn lemma_slot_update(model: QueueModel, st: StateView, after: StateView, slot: int)
    requires
        sound(model, st),
        0 <= slot < st.jobs.len(),
        st.jobs[slot] is Some,
        after.jobs.len() == st.jobs.len(),
        after.jobs[slot] is Some,
        after.jobs[slot]->0.idempotency_key == st.jobs[slot]->0.idempotency_key,
        forall|i: int| 0 <= i < st.jobs.len() && i != slot ==> #[trigger] after.jobs[i]
            == st.jobs[i],
    ensures
        unique_idempotency_keys(after),
{
    assert forall|i: int, j: int| 0 <= i < j < after.jobs.len() implies (
    #[trigger] after.jobs[i] matches Some(a) ==> #[trigger] after.jobs[j] matches Some(b)
        ==> a.idempotency_key != b.idempotency_key) by {
        if i != slot {
            assert(after.jobs[i] == st.jobs[i]);
        }
        if j != slot {
            assert(after.jobs[j] == st.jobs[j]);
        }
    }
}

proof fn lemma_run_sound(model: QueueModel, states: Seq<StateView>, steps: Seq<Action>, k: int)
    requires
        is_run(model, states, steps),
        0 <= k < states.len(),
    ensures
        sound(model, states[k]),
    decreases k,
{
    if k > 0 {
        lemma_run_sound(model, states, steps, k - 1);
        assert(offered(model, states[k - 1]).contains(steps[k - 1]));
        lemma_offered(model, states[k - 1], steps[k - 1]);
        lemma_step_sound(model, states[k - 1], steps[k - 1]);
    }
}

/// In every state that can be reached: there are as many slots and workers as the model has, no job
/// has been attempted more often than allowed, a job in progress has its lease, a job that is done
/// or failed has none, and no two jobs share a key.
pub proof fn queue_invariants_hold(
    model: QueueModel,
    states: Seq<StateView>,
    steps: Seq<Action>,
    k: int,
)
    requires
        is_run(model, states, steps),
        0 <= k < states.len(),
    ensures
        states[k].jobs.len() == model.jobs,
        states[k].workers.len() == model.workers,
        attempt_leq_max(model, states[k]),
        inprogress_has_lease(states[k]),
        terminal_clears_lease(states[k]),
        unique_idempotency_keys(states[k]),
{
    lemma_run_sound(model, states, steps, k);
}

/// In every state that can be reached, each action that is offered can be taken.
pub proof fn offered_actions_are_possible(
    model: QueueModel,
    states: Seq<StateView>,
    steps: Seq<Action>,
    k: int,
    action: Action,
)
    requires
        is_run(model, states, steps),
        0 <= k < states.len(),
        offered(model, states[k]).contains(action),
    ensures
        action_in_range(states[k], action),
        next(model, states[k], action) is Some,
{
    lemma_run_sound(model, states, steps, k);
    lemma_offered(model, states[k], action);
    lemma_step_sound(model, states[k], action);
}

// ---------------------------
// What every step keeps while lease ids do not run out
// ---------------------------

/// Whether the lease ids of the model, which are counted in one byte, are enough for every lease
/// that it can hand out: there are at most two jobs, each handed out at most `max_attempts` times.
pub open spec fn lease_ids_suffice(model: QueueModel) -> bool {
    model.workers == 0 || model.jobs < 2 || 2 * model.max_attempts <= u8::MAX
}

/// How often the job in slot `i` has been handed out.
spec fn attempts_at(st: StateView, i: int) -> int {
    if 0 <= i < st.jobs.len() {
        match st.jobs[i] {
            Some(job) => job.attempt_count as int,
            None => 0,
        }
    } else {
        0
    }
}

/// How many leases have been handed out.
spec fn leases_issued(st: StateView) -> int {
    attempts_at(st, 0) + attempts_at(st, 1)
}

/// What every step keeps of the leases: ids count up with the leases that were handed out, no two
/// workers remember the same one, and a worker that remembers the current lease on a job knows its
/// attempt.
spec fn exclusive(model: QueueModel, st: StateView) -> bool {
    &&& sound(model, st)
    &&& forall|i: int| 2 <= i < st.jobs.len() ==> #[trigger] st.jobs[i] is None
    &&& st.next_lease_id == if leases_issued(st) < u8::MAX {
        1 + leases_issued(st)
    } else {
        u8::MAX as int
    }
    &&& forall|i: int|
        0 <= i < st.jobs.len() ==> (#[trigger] st.jobs[i] matches Some(job) ==> (
        job.lease_id matches Some(id) ==> id <= leases_issued(st)))
    &&& forall|w: int|
        0 <= w < st.workers.len() ==> (#[trigger] st.workers[w].held matches Some(lease) ==> {
            &&& lease.lease_id <= leases_issued(st)
            &&& st.jobs[lease.job as int]->0.lease_id == Some(lease.lease_id)
                ==> st.jobs[lease.job as int]->0.attempt_count == lease.attempt_count
        })
    &&& forall|v: int, w: int|
        0 <= v < w < st.workers.len() ==> (#[trigger] st.workers[v].held matches Some(a)
            ==> #[trigger] st.workers[w].held matches Some(b) ==> a.lease_id != b.lease_id)
    &&& unique_active_lease_ids(st)
    &&& done_attempt_matches(st)
    &&& failed_attempt_matches(st)
}

proof fn lemma_enqueue_exclusive(model: QueueModel, st: StateView, key: u8)
    requires
        exclusive(model, st),
        key < 2,
        sound(model, after_enqueue(st, key)),
    ensures
        exclusive(model, after_enqueue(st, key)),
{
    let after = after_enqueue(st, key);
    lemma_first_free(st.jobs, 0);
    let slot = first_free(st.jobs, 0);
    if !key_taken(st.jobs, key) && slot < st.jobs.len() {
        assert(slot < 2) by {
            if slot >= 2 {
                assert(st.jobs[0] is Some && st.jobs[1] is Some);
                let a = st.jobs[0]->0;
                let b = st.jobs[1]->0;
                assert(job_sound(model, a) && job_sound(model, b));
                assert(a.idempotency_key == key || b.idempotency_key == key);
            }
        }
        assert(leases_issued(after) == leases_issued(st));
        assert forall|i: int, j: int| 0 <= i < j < after.jobs.len() implies (
        #[trigger] after.jobs[i] matches Some(a) ==> #[trigger] after.jobs[j] matches Some(b) ==> (
        a.lease_id is Some && b.lease_id is Some ==> a.lease_id != b.lease_id)) by {
            if i != slot {
                assert(after.jobs[i] == st.jobs[i]);
            }
            if j != slot {
                assert(after.jobs[j] == st.jobs[j]);
            }
        }
        assert forall|w: int| 0 <= w < after.workers.len() implies (
        #[trigger] after.workers[w].held matches Some(lease) ==> {
            &&& lease.lease_id <= leases_issued(after)
            &&& after.jobs[lease.job as int]->0.lease_id == Some(lease.lease_id)
                ==> after.jobs[lease.job as int]->0.attempt_count == lease.attempt_count
        }) by {
            assert(after.workers[w] == st.workers[w]);
        }
    }
}

proof fn lemma_dequeue_exclusive(model: QueueModel, st: StateView, worker: u8, j: u8)
    requires
        exclusive(model, st),
        lease_ids_suffice(model),
        called_for(model, st, Action::Dequeue { worker, job: j }),
        after_dequeue(model, st, worker, j) is Some,
        sound(model, after_dequeue(model, st, worker, j)->0),
    ensures
        exclusive(model, after_dequeue(model, st, worker, j)->0),
{
    let clean = reaped(model, st);
    let after = after_dequeue(model, st, worker, j)->0;
    assert(clean.jobs[j as int] == st.jobs[j as int]);
    assert(j < 2);
    assert forall|i: int| 0 <= i < st.jobs.len() implies attempts_at(clean, i)
        == #[trigger] attempts_at(st, i) && attempts_at(st, i) <= model.max_attempts by {
        if st.jobs[i] is Some {
            assert(job_sound(model, st.jobs[i]->0));
        }
    }
    assert(attempts_at(st, 0) <= model.max_attempts || st.jobs.len() == 0);
    assert(attempts_at(st, 1) <= model.max_attempts || st.jobs.len() < 2);
    assert(attempts_at(st, j as int) < model.max_attempts);
    assert(leases_issued(st) < u8::MAX);
    assert(leases_issued(after) == leases_issued(st) + 1);
    assert forall|i: int| 0 <= i < st.jobs.len() && i != j implies {
        &&& (#[trigger] after.jobs[i] is Some <==> st.jobs[i] is Some)
        &&& after.jobs[i] is Some ==> after.jobs[i]->0.attempt_count == st.jobs[i]->0.attempt_count
        &&& after.jobs[i] is Some && after.jobs[i]->0.lease_id is Some
            ==> after.jobs[i]->0.lease_id == st.jobs[i]->0.lease_id
    } by {}
    assert forall|i: int, l: int| 0 <= i < l < after.jobs.len() implies (
    #[trigger] after.jobs[i] matches Some(a) ==> #[trigger] after.jobs[l] matches Some(b) ==> (
    a.lease_id is Some && b.lease_id is Some ==> a.lease_id != b.lease_id)) by {
        assert(st.jobs[i] is Some <==> after.jobs[i] is Some);
        assert(st.jobs[l] is Some <==> after.jobs[l] is Some);
    }
    assert forall|w: int| 0 <= w < after.workers.len() implies (
    #[trigger] after.workers[w].held matches Some(lease) ==> {
        &&& lease.lease_id <= leases_issued(after)
        &&& after.jobs[lease.job as int]->0.lease_id == Some(lease.lease_id)
            ==> after.jobs[lease.job as int]->0.attempt_count == lease.attempt_count
    }) by {
        if w != worker {
            assert(after.workers[w] == st.workers[w]);
        }
    }
    assert forall|v: int, w: int| 0 <= v < w < after.workers.len() implies (
    #[trigger] after.workers[v].held matches Some(a) ==> #[trigger] after.workers[w].held
        matches Some(b) ==> a.lease_id != b.lease_id) by {
        if v != worker {
            assert(after.workers[v] == st.workers[v]);
        }
        if w != worker {
            assert(after.workers[w] == st.workers[w]);
        }
    }
}

/// A step that changes one job, keeps its attempts and its lease id or drops the latter, and lets
/// workers forget, keeps what `exclusive` says of the leases.
proof fn lemma_settle_exclusive(model: QueueModel, st: StateView, after: StateView, slot: int)
    requires
        exclusive(model, st),
        sound(model, after),
        after.next_lease_id == st.next_lease_id,
        0 <= slot < st.jobs.len(),
        st.jobs[slot] is Some,
        forall|i: int| 0 <= i < st.jobs.len() && i != slot ==> #[trigger] after.jobs[i]
            == st.jobs[i],
        after.jobs[slot] is Some,
        ({
            let was = st.jobs[slot]->0;
            let is = after.jobs[slot]->0;
            &&& is.attempt_count == was.attempt_count
            &&& is.lease_id is Some ==> is.lease_id == was.lease_id
            &&& is.status == JobStatus::Done ==> is.completed_attempt == Some(is.attempt_count)
            &&& is.status == JobStatus::Failed ==> is.failed_attempt == Some(is.attempt_count)
        }),
        forall|w: int|
            0 <= w < st.workers.len() ==> #[trigger] after.workers[w] == st.workers[w]
                || after.workers[w].held is None,
    ensures
        exclusive(model, after),
{
    assert(leases_issued(after) == leases_issued(st));
    assert forall|i: int| 2 <= i < after.jobs.len() implies #[trigger] after.jobs[i] is None by {
        assert(st.jobs[i] is None);
    }
    assert forall|i: int| 0 <= i < after.jobs.len() implies (#[trigger] after.jobs[i]
        matches Some(job) ==> (job.lease_id matches Some(id) ==> id <= leases_issued(after))) by {
        assert(st.jobs[i] is Some <==> after.jobs[i] is Some);
    }
    assert forall|i: int, l: int| 0 <= i < l < after.jobs.len() implies (
    #[trigger] after.jobs[i] matches Some(a) ==> #[trigger] after.jobs[l] matches Some(b) ==> (
    a.lease_id is Some && b.lease_id is Some ==> a.lease_id != b.lease_id)) by {
        assert(st.jobs[i] is Some <==> after.jobs[i] is Some);
        assert(st.jobs[l] is Some <==> after.jobs[l] is Some);
    }
    assert forall|w: int| 0 <= w < after.workers.len() implies (
    #[trigger] after.workers[w].held matches Some(lease) ==> {
        &&& lease.lease_id <= leases_issued(after)
        &&& after.jobs[lease.job as int]->0.lease_id == Some(lease.lease_id)
            ==> after.jobs[lease.job as int]->0.attempt_count == lease.attempt_count
    }) by {
        if after.workers[w].held is Some {
            assert(after.workers[w] == st.workers[w]);
            assert(st.workers[w].held is Some);
        }
    }
    assert forall|v: int, w: int| 0 <= v < w < after.workers.len() implies (
    #[trigger] after.workers[v].held matches Some(a) ==> #[trigger] after.workers[w].held
        matches Some(b) ==> a.lease_id != b.lease_id) by {
        if after.workers[v].held is Some && after.workers[w].held is Some {
            assert(after.workers[v] == st.workers[v]);
            assert(after.workers[w] == st.workers[w]);
        }
    }
}

proof fn lemma_step_exclusive(model: QueueModel, st: StateView, action: Action)
    requires
        exclusive(model, st),
        lease_ids_suffice(model),
        called_for(model, st, action),
    ensures
        next(model, st, action) is Some,
        exclusive(model, next(model, st, action)->0),
{
    lemma_step_sound(model, st, action);
    let after = next(model, st, action)->0;
    match action {
        Action::Tick => {
            assert(leases_issued(after) == leases_issued(st));
        },
        Action::Enqueue { key } => {
            lemma_enqueue_exclusive(model, st, key);
        },
        Action::Dequeue { worker, job } => {
            lemma_dequeue_exclusive(model, st, worker, job);
        },
        Action::Ack { worker } => {
            assert(st.workers[worker as int].held is Some);
            lemma_settle_exclusive(
                model,
                st,
                after,
                st.workers[worker as int].held->0.job as int,
            );
        },
        Action::Nack { worker } => {
            assert(st.workers[worker as int].held is Some);
            lemma_settle_exclusive(
                model,
                st,
                after,
                st.workers[worker as int].held->0.job as int,
            );
        },
        Action::Touch { worker } => {
            assert(st.workers[worker as int].held is Some);
            lemma_settle_exclusive(
                model,
                st,
                after,
                st.workers[worker as int].held->0.job as int,
            );
        },
        Action::Crash { worker } => {
            assert(st.workers[worker as int].held is Some);
            lemma_settle_exclusive(
                model,
                st,
                after,
                st.workers[worker as int].held->0.job as int,
            );
        },
    }
}

proof fn lemma_run_exclusive(model: QueueModel, states: Seq<StateView>, steps: Seq<Action>, k: int)
    requires
        is_run(model, states, steps),
        lease_ids_suffice(model),
        0 <= k < states.len(),
    ensures
        exclusive(model, states[k]),
    decreases k,
{
    if k > 0 {
        lemma_run_exclusive(model, states, steps, k - 1);
        assert(offered(model, states[k - 1]).contains(steps[k - 1]));
        lemma_offered(model, states[k - 1], steps[k - 1]);
        lemma_step_exclusive(model, states[k - 1], steps[k - 1]);
    }
}

// ---------------------------
// What every step keeps while no worker can lose a lease that it remembers
// ---------------------------

/// Whether no worker can lose a lease that it remembers: there is no other worker to take the job,
/// or the time is up before the shortest lease expires.
pub open spec fn leases_stay_held(model: QueueModel) -> bool {
    model.workers <= 1 || model.max_time < 2
}

/// What every step keeps of the leases then: a lease that a worker remembers is the current one on
/// its job, and was handed to that worker.
spec fn held_fast(model: QueueModel, st: StateView) -> bool {
    &&& sound(model, st)
    &&& st.now <= model.max_time
    &&& forall|i: int|
        0 <= i < st.jobs.len() ==> (#[trigger] st.jobs[i] matches Some(job) ==> {
            &&& job.lease_timeout >= 2
            &&& job.status == JobStatus::InProgress ==> job.visible_at >= 2
        })
    &&& forall|w: int|
        0 <= w < st.workers.len() ==> (#[trigger] st.workers[w].held matches Some(lease)
            ==> is_held_by(st.jobs[lease.job as int]->0, w, lease))
    &&& done_attempt_matches(st)
    &&& failed_attempt_matches(st)
}

/// Whether the job is in progress under the lease that worker `w` remembers.
spec fn is_held_by(job: ModelJob, w: int, lease: LeaseMem) -> bool {
    &&& job.status == JobStatus::InProgress
    &&& job.lease_id == Some(lease.lease_id)
    &&& job.leased_by matches Some(holder) && holder == w
    &&& job.attempt_count == lease.attempt_count
}

/// A step in which a worker settles or extends its lease leaves the other workers' leases alone.
proof fn lemma_settle_held_fast(
    model: QueueModel,
    st: StateView,
    after: StateView,
    worker: int,
    slot: int,
)
    requires
        held_fast(model, st),
        sound(model, after),
        after.now == st.now,
        0 <= worker < st.workers.len(),
        st.workers[worker].held matches Some(lease) && lease.job == slot,
        0 <= slot < st.jobs.len(),
        forall|i: int| 0 <= i < st.jobs.len() && i != slot ==> #[trigger] after.jobs[i]
            == st.jobs[i],
        after.jobs[slot] is Some,
        ({
            let job = after.jobs[slot]->0;
            &&& job.lease_timeout >= 2
            &&& job.status == JobStatus::InProgress ==> job.visible_at >= 2
            &&& job.status == JobStatus::Done ==> job.completed_attempt == Some(job.attempt_count)
            &&& job.status == JobStatus::Failed ==> job.failed_attempt == Some(job.attempt_count)
            &&& after.workers[worker].held matches Some(lease) ==> is_held_by(job, worker, lease)
        }),
        after.workers[worker].held is Some ==> after.workers[worker] == st.workers[worker],
        forall|w: int| 0 <= w < st.workers.len() && w != worker ==> #[trigger] after.workers[w]
            == st.workers[w],
    ensures
        held_fast(model, after),
{
    assert(is_held_by(st.jobs[slot]->0, worker, st.workers[worker].held->0));
    assert forall|i: int| 0 <= i < after.jobs.len() implies (#[trigger] after.jobs[i]
        matches Some(job) ==> {
        &&& job.lease_timeout >= 2
        &&& job.status == JobStatus::InProgress ==> job.visible_at >= 2
        &&& job.status == JobStatus::Done ==> job.completed_attempt == Some(job.attempt_count)
        &&& job.status == JobStatus::Failed ==> job.failed_attempt == Some(job.attempt_count)
    }) by {
        if i != slot {
            assert(after.jobs[i] == st.jobs[i]);
        }
    }
    assert forall|w: int| 0 <= w < after.workers.len() implies (#[trigger] after.workers[w].held
        matches Some(lease) ==> is_held_by(after.jobs[lease.job as int]->0, w, lease)) by {
        if w != worker && after.workers[w].held is Some {
            let lease = st.workers[w].held->0;
            assert(after.workers[w] == st.workers[w]);
            assert(is_held_by(st.jobs[lease.job as int]->0, w, lease));
            assert(lease.job != slot);
        }
    }
}

proof fn lemma_step_held_fast(model: QueueModel, st: StateView, action: Action)
    requires
        held_fast(model, st),
        leases_stay_held(model),
        called_for(model, st, action),
    ensures
        next(model, st, action) is Some,
        held_fast(model, next(model, st, action)->0),
{
    lemma_step_sound(model, st, action);
    let after = next(model, st, action)->0;
    match action {
        Action::Tick => {},
        Action::Enqueue { key } => {
            lemma_first_free(st.jobs, 0);
            assert forall|w: int| 0 <= w < after.workers.len() implies (
            #[trigger] after.workers[w].held matches Some(lease) ==> is_held_by(
                after.jobs[lease.job as int]->0,
                w,
                lease,
            )) by {
                assert(after.workers[w] == st.workers[w]);
            }
        },
        Action::Dequeue { worker, job } => {
            let clean = reaped(model, st);
            assert(clean.jobs[job as int] == st.jobs[job as int]);
            assert forall|w: int| 0 <= w < after.workers.len() implies (
            #[trigger] after.workers[w].held matches Some(lease) ==> is_held_by(
                after.jobs[lease.job as int]->0,
                w,
                lease,
            )) by {
                if w != worker && after.workers[w].held is Some {
                    let lease = st.workers[w].held->0;
                    assert(after.workers[w] == st.workers[w]);
                    assert(is_held_by(st.jobs[lease.job as int]->0, w, lease));
                    assert(st.jobs[lease.job as int]->0.visible_at > st.now);
                    assert(clean.jobs[lease.job as int] == st.jobs[lease.job as int]);
                    assert(lease.job != job);
                }
            }
        },
        Action::Ack { worker } => {
            let lease = st.workers[worker as int].held->0;
            assert(is_held_by(st.jobs[lease.job as int]->0, worker as int, lease));
            lemma_settle_held_fast(model, st, after, worker as int, lease.job as int);
        },
        Action::Nack { worker } => {
            let lease = st.workers[worker as int].held->0;
            assert(is_held_by(st.jobs[lease.job as int]->0, worker as int, lease));
            lemma_settle_held_fast(model, st, after, worker as int, lease.job as int);
        },
        Action::Touch { worker } => {
            let lease = st.workers[worker as int].held->0;
            assert(is_held_by(st.jobs[lease.job as int]->0, worker as int, lease));
            lemma_settle_held_fast(model, st, after, worker as int, lease.job as int);
        },
        Action::Crash { worker } => {
            let lease = st.workers[worker as int].held->0;
            assert(is_held_by(st.jobs[lease.job as int]->0, worker as int, lease));
            lemma_settle_held_fast(model, st, after, worker as int, lease.job as int);
        },
    }
}

proof fn lemma_run_held_fast(model: QueueModel, states: Seq<StateView>, steps: Seq<Action>, k: int)
    requires
        is_run(model, states, steps),
        leases_stay_held(model),
        0 <= k < states.len(),
    ensures
        held_fast(model, states[k]),
    decreases k,
{
    if k > 0 {
        lemma_run_held_fast(model, states, steps, k - 1);
        assert(offered(model, states[k - 1]).contains(steps[k - 1]));
        lemma_offered(model, states[k - 1], steps[k - 1]);
        lemma_step_held_fast(model, states[k - 1], steps[k - 1]);
    }
}

// ---------------------------
// Exclusive leases
// ---------------------------

/// In every state that can be reached, active lease ids are unique, as long as the lease ids of the
/// model do not run out.
pub proof fn lease_ids_are_unique(
    model: QueueModel,
    states: Seq<StateView>,
    steps: Seq<Action>,
    k: int,
)
    requires
        is_run(model, states, steps),
        lease_ids_suffice(model),
        0 <= k < states.len(),
    ensures
        unique_active_lease_ids(states[k]),
{
    lemma_run_exclusive(model, states, steps, k);
}

/// In every state that can be reached, leases are exclusive: a job that is done or failed got there
/// by its last attempt, and no job has two current owners. That takes lease ids that do not run out,
/// or workers that cannot lose a lease that they remember.
pub proof fn leases_are_exclusive(
    model: QueueModel,
    states: Seq<StateView>,
    steps: Seq<Action>,
    k: int,
)
    requires
        is_run(model, states, steps),
        lease_ids_suffice(model) || leases_stay_held(model),
        0 <= k < states.len(),
    ensures
        done_attempt_matches(states[k]),
        failed_attempt_matches(states[k]),
        no_two_current_owners(states[k]),
{
    let st = states[k];
    if lease_ids_suffice(model) {
        lemma_run_exclusive(model, states, steps, k);
    } else {
        lemma_run_held_fast(model, states, steps, k);
    }
    assert forall|j: int, v: int, w: int|
        0 <= j < st.jobs.len() && 0 <= v < w < st.workers.len() implies (#[trigger] st.jobs[j]
        matches Some(job) ==> (job.lease_id matches Some(current) ==> !(remembers(
        #[trigger] st.workers[v],
        j,
        current,
    ) && remembers(#[trigger] st.workers[w], j, current)))) by {
        if st.workers[v].held is Some && st.workers[w].held is Some {
            let a = st.workers[v].held->0;
            let b = st.workers[w].held->0;
            if lease_ids_suffice(model) {
                assert(a.lease_id != b.lease_id);
            } else {
                assert(is_held_by(st.jobs[a.job as int]->0, v, a));
                assert(is_held_by(st.jobs[b.job as int]->0, w, b));
            }
        }
    }
}

} // verus!
