//! A model of the queue with its workers, small enough for a model checker to explore.
//!
//! The model covers the core of the queue: visibility timeouts (jobs become visible again if they
//! are not finished), lease safety (only the current holder can ACK or NACK), the limit on attempts
//! and the races between concurrent workers. A state is the queue's table together with what each
//! worker remembers; an action is one step that the clock, a client or a worker can take. The
//! actions that [`QueueModel::actions`] offers in a state are all that can happen in it.

use crate::job::JobStatus;
use vstd::prelude::*;

verus! {

/// A simplified representation of a job in the queue.
#[derive(Debug, Clone, Copy, PartialEq, Eq, Hash)]
pub struct ModelJob {
    pub idempotency_key: u8,
    pub status: JobStatus,
    /// The time at which this job becomes visible to workers.
    pub visible_at: u8,
    /// How many times this job has been dequeued.
    pub attempt_count: u8,
    /// How long a lease lasts for this job.
    pub lease_timeout: u8,
    /// The ID of the current lease (if any).
    pub lease_id: Option<u8>,
    /// The ID of the worker currently holding the lease (if any).
    pub leased_by: Option<u8>,
    /// Which attempt successfully completed the job.
    pub completed_attempt: Option<u8>,
    /// Which attempt caused the job to fail.
    pub failed_attempt: Option<u8>,
}

/// The local memory of a worker about a lease it holds.
#[derive(Debug, Clone, Copy, PartialEq, Eq, Hash)]
pub struct LeaseMem {
    pub job: u8,
    pub lease_id: u8,
    pub attempt_count: u8,
}

/// A worker that can interact with the queue.
#[derive(Debug, Clone, Copy, PartialEq, Eq, Hash)]
pub struct Worker {
    /// The lease information the worker currently remembers.
    pub held: Option<LeaseMem>,
}

/// The global state of the modelled world.
#[derive(Debug, PartialEq, Eq, Hash)]
pub struct State {
    /// Monotonic "logical clock" to model passage of time.
    pub now: u8,
    /// Generator for unique lease IDs.
    pub next_lease_id: u8,
    /// The set of jobs in the queue.
    pub jobs: Vec<Option<ModelJob>>,
    /// The set of workers in the system.
    pub workers: Vec<Worker>,
}

/// Actions that can cause a state transition.
#[derive(Debug, Clone, Copy, PartialEq, Eq, Hash)]
pub enum Action {
    /// Time passes (increment `now`).
    Tick,
    /// A worker dequeues a specific job.
    Dequeue { worker: u8, job: u8 },
    /// A worker attempts to ACK its current lease.
    Ack { worker: u8 },
    /// A worker attempts to NACK its current lease.
    Nack { worker: u8 },
    /// A worker attempts to extend its lease.
    Touch { worker: u8 },
    /// A worker crashes, losing its local memory but not affecting the global DB state.
    Crash { worker: u8 },
    /// Enqueue a job with a given idempotency key.
    Enqueue { key: u8 },
}

/// Parameters for the model.
#[derive(Debug, Clone, Copy)]
pub struct QueueModel {
    /// Number of workers to simulate.
    pub workers: u8,
    /// Number of jobs to simulate.
    pub jobs: u8,
    /// Maximum allowed attempts before a job is considered failed.
    pub max_attempts: u8,
    /// Time limit for the simulation (to keep the search space finite).
    pub max_time: u8,
}

/// What a [`State`] says, with its lists as sequences.
#[verifier::ext_equal]
pub struct StateView {
    pub now: u8,
    pub next_lease_id: u8,
    pub jobs: Seq<Option<ModelJob>>,
    pub workers: Seq<Worker>,
}

impl View for State {
    type V = StateView;

    open spec fn view(&self) -> StateView {
        StateView {
            now: self.now,
            next_lease_id: self.next_lease_id,
            jobs: self.jobs@,
            workers: self.workers@,
        }
    }
}

impl Clone for State {
    fn clone(&self) -> (copy: State)
        ensures
            copy@ == self@,
    {
        let mut jobs: Vec<Option<ModelJob>> = Vec::new();
        let mut i: usize = 0;
        while i < self.jobs.len()
            invariant
                i <= self.jobs.len(),
                jobs@ == self.jobs@.take(i as int),
            decreases self.jobs.len() - i,
        {
            jobs.push(self.jobs[i]);
            i += 1;
            assert(jobs@ =~= self.jobs@.take(i as int));
        }
        let mut workers: Vec<Worker> = Vec::new();
        let mut i: usize = 0;
        while i < self.workers.len()
            invariant
                i <= self.workers.len(),
                workers@ == self.workers@.take(i as int),
            decreases self.workers.len() - i,
        {
            workers.push(self.workers[i]);
            i += 1;
            assert(workers@ =~= self.workers@.take(i as int));
        }
        let copy = State {
            now: self.now,
            next_lease_id: self.next_lease_id,
            jobs,
            workers,
        };
        assert(copy@ =~= self@);
        copy
    }
}

// ---------------------------
// What an action does
// ---------------------------

/// The state at the start: no jobs, idle workers, time zero.
pub open spec fn initial(model: QueueModel) -> StateView {
    StateView {
        now: 0,
        next_lease_id: 1,
        jobs: Seq::new(model.jobs as nat, |i: int| None),
        workers: Seq::new(model.workers as nat, |i: int| Worker { held: None }),
    }
}

/// Whether the job in slot `j` may be dequeued.
pub open spec fn eligible(model: QueueModel, st: StateView, j: int) -> bool {
    match st.jobs[j] {
        Some(job) => {
            &&& job.status == JobStatus::Pending || job.status == JobStatus::InProgress
            &&& job.visible_at <= st.now
            &&& job.attempt_count < model.max_attempts
        },
        None => false,
    }
}

/// A job once the exhausted ones have been reaped: failed if its last attempt has timed out.
pub open spec fn reaped_job(model: QueueModel, now: u8, job: ModelJob) -> ModelJob {
    if job.status == JobStatus::InProgress && job.visible_at <= now && job.attempt_count
        >= model.max_attempts {
        ModelJob {
            status: JobStatus::Failed,
            failed_attempt: Some(job.attempt_count),
            lease_id: None,
            leased_by: None,
            ..job
        }
    } else {
        job
    }
}

/// The state once the exhausted jobs have been reaped.
pub open spec fn reaped(model: QueueModel, st: StateView) -> StateView {
    StateView {
        jobs: st.jobs.map_values(
            |slot: Option<ModelJob>|
                match slot {
                    Some(job) => Some(reaped_job(model, st.now, job)),
                    None => None,
                },
        ),
        ..st
    }
}

/// Whether a job with the key is in the queue.
pub open spec fn key_taken(jobs: Seq<Option<ModelJob>>, key: u8) -> bool {
    exists|i: int|
        0 <= i < jobs.len() && (#[trigger] jobs[i] matches Some(job) && job.idempotency_key == key)
}

/// The first free slot from `from` on, or the number of slots if none is free.
pub open spec fn first_free(jobs: Seq<Option<ModelJob>>, from: int) -> int
    decreases jobs.len() - from,
{
    if from >= jobs.len() {
        jobs.len() as int
    } else if jobs[from] is None {
        from
    } else {
        first_free(jobs, from + 1)
    }
}

/// A job as it enters the queue.
pub open spec fn fresh_job(key: u8, now: u8) -> ModelJob {
    ModelJob {
        idempotency_key: key,
        status: JobStatus::Pending,
        visible_at: now,
        attempt_count: 0,
        lease_timeout: (2 + key) as u8,
        lease_id: None,
        leased_by: None,
        completed_attempt: None,
        failed_attempt: None,
    }
}

/// The state after a client has enqueued under `key`: unchanged if the key is taken or no slot is
/// free.
pub open spec fn after_enqueue(st: StateView, key: u8) -> StateView {
    let slot = first_free(st.jobs, 0);
    if key_taken(st.jobs, key) || slot >= st.jobs.len() {
        st
    } else {
        StateView { jobs: st.jobs.update(slot, Some(fresh_job(key, st.now))), ..st }
    }
}

/// A job as `worker` gets it.
pub open spec fn leased_job(job: ModelJob, worker: u8, lease_id: u8, now: u8) -> ModelJob {
    ModelJob {
        status: JobStatus::InProgress,
        attempt_count: job.attempt_count.saturating_add(1),
        visible_at: now.saturating_add(job.lease_timeout),
        lease_id: Some(lease_id),
        leased_by: Some(worker),
        ..job
    }
}

/// The state after `worker` has dequeued the job in slot `j`, if it can.
pub open spec fn after_dequeue(model: QueueModel, st: StateView, worker: u8, j: u8) -> Option<
    StateView,
> {
    let clean = reaped(model, st);
    if st.workers[worker as int].held is Some || !eligible(model, clean, j as int) {
        None
    } else {
        let job = leased_job(clean.jobs[j as int]->0, worker, st.next_lease_id, st.now);
        Some(
            StateView {
                now: st.now,
                next_lease_id: st.next_lease_id.saturating_add(1),
                jobs: clean.jobs.update(j as int, Some(job)),
                workers: st.workers.update(
                    worker as int,
                    Worker {
                        held: Some(
                            LeaseMem {
                                job: j,
                                lease_id: st.next_lease_id,
                                attempt_count: job.attempt_count,
                            },
                        ),
                    },
                ),
            },
        )
    }
}

/// Whether the lease that a worker remembers is the current one on the job.
pub open spec fn lease_valid(job: ModelJob, lease: LeaseMem) -> bool {
    job.status == JobStatus::InProgress && job.lease_id == Some(lease.lease_id)
}

/// The state with `job` in the slot that `lease` speaks of, and `worker` remembering nothing.
pub open spec fn settled(st: StateView, worker: u8, lease: LeaseMem, job: ModelJob) -> StateView {
    StateView {
        jobs: st.jobs.update(lease.job as int, Some(job)),
        workers: st.workers.update(worker as int, Worker { held: None }),
        ..st
    }
}

/// A job after the worker that remembers `lease` has tried to complete it.
pub open spec fn acked_job(job: ModelJob, lease: LeaseMem) -> ModelJob {
    if lease_valid(job, lease) {
        ModelJob {
            status: JobStatus::Done,
            completed_attempt: Some(lease.attempt_count),
            lease_id: None,
            leased_by: None,
            ..job
        }
    } else {
        job
    }
}

/// A job after the worker that remembers `lease` has tried to give it up.
pub open spec fn nacked_job(model: QueueModel, now: u8, job: ModelJob, lease: LeaseMem) -> ModelJob {
    if !lease_valid(job, lease) {
        job
    } else if job.attempt_count >= model.max_attempts {
        ModelJob {
            status: JobStatus::Failed,
            failed_attempt: Some(lease.attempt_count),
            lease_id: None,
            leased_by: None,
            ..job
        }
    } else {
        ModelJob {
            status: JobStatus::Pending,
            visible_at: now,
            lease_id: None,
            leased_by: None,
            ..job
        }
    }
}

/// The state after `worker` has tried to extend the lease that it remembers; it forgets a lease
/// that it has lost.
pub open spec fn after_touch(st: StateView, worker: u8, lease: LeaseMem, job: ModelJob) -> StateView {
    if lease_valid(job, lease) {
        let kept = ModelJob { visible_at: st.now.saturating_add(job.lease_timeout), ..job };
        StateView { jobs: st.jobs.update(lease.job as int, Some(kept)), ..st }
    } else {
        StateView {
            workers: st.workers.update(worker as int, Worker { held: None }),
            ..st
        }
    }
}

/// The state after the action, or `None` where the action is not possible.
pub open spec fn next(model: QueueModel, st: StateView, action: Action) -> Option<StateView> {
    match action {
        Action::Tick => Some(StateView { now: st.now.saturating_add(1), ..st }),
        Action::Enqueue { key } => Some(after_enqueue(st, key)),
        Action::Dequeue { worker, job } => after_dequeue(model, st, worker, job),
        Action::Crash { worker } => Some(
            StateView {
                workers: st.workers.update(worker as int, Worker { held: None }),
                ..st
            },
        ),
        Action::Ack { worker } => match st.workers[worker as int].held {
            Some(lease) => match st.jobs[lease.job as int] {
                Some(job) => Some(settled(st, worker, lease, acked_job(job, lease))),
                None => None,
            },
            None => None,
        },
        Action::Nack { worker } => match st.workers[worker as int].held {
            Some(lease) => match st.jobs[lease.job as int] {
                Some(job) => Some(
                    settled(st, worker, lease, nacked_job(model, st.now, job, lease)),
                ),
                None => None,
            },
            None => None,
        },
        Action::Touch { worker } => match st.workers[worker as int].held {
            Some(lease) => match st.jobs[lease.job as int] {
                Some(job) => Some(after_touch(st, worker, lease, job)),
                None => None,
            },
            None => None,
        },
    }
}

/// Whether the worker exists, and the lease that it remembers, if any, is on a slot that exists.
pub open spec fn worker_in_range(st: StateView, worker: u8) -> bool {
    &&& worker < st.workers.len()
    &&& st.workers[worker as int].held matches Some(lease) ==> lease.job < st.jobs.len()
}

/// Whether what the action comes to look at exists, and the lease timeout of a job that it inserts
/// fits.
pub open spec fn action_in_range(st: StateView, action: Action) -> bool {
    match action {
        Action::Tick => true,
        Action::Enqueue { key } => {
            ||| 2 + key <= u8::MAX
            ||| key_taken(st.jobs, key)
            ||| first_free(st.jobs, 0) >= st.jobs.len()
        },
        Action::Dequeue { worker, job } => {
            &&& worker < st.workers.len()
            &&& st.workers[worker as int].held is None ==> job < st.jobs.len()
        },
        Action::Ack { worker } => worker_in_range(st, worker),
        Action::Nack { worker } => worker_in_range(st, worker),
        Action::Touch { worker } => worker_in_range(st, worker),
        Action::Crash { worker } => worker < st.workers.len(),
    }
}

// ---------------------------
// Which actions are offered
// ---------------------------

/// The dequeues of slots before `j` that are open to the idle worker `w`.
pub open spec fn dequeue_actions(model: QueueModel, st: StateView, w: u8, j: nat) -> Seq<Action>
    decreases j,
{
    if j == 0 {
        Seq::empty()
    } else {
        let rest = dequeue_actions(model, st, w, (j - 1) as nat);
        if eligible(model, st, j - 1) {
            rest.push(Action::Dequeue { worker: w, job: (j - 1) as u8 })
        } else {
            rest
        }
    }
}

/// The actions that worker `w` can take: an idle one can dequeue, one with a lease can try to use
/// it, or crash.
pub open spec fn actions_of(model: QueueModel, st: StateView, w: u8) -> Seq<Action> {
    if st.workers[w as int].held is None {
        dequeue_actions(model, st, w, model.jobs as nat)
    } else {
        seq![
            Action::Ack { worker: w },
            Action::Nack { worker: w },
            Action::Touch { worker: w },
            Action::Crash { worker: w },
        ]
    }
}

/// The actions that the workers before `w` can take.
pub open spec fn worker_actions(model: QueueModel, st: StateView, w: nat) -> Seq<Action>
    decreases w,
{
    if w == 0 {
        Seq::empty()
    } else {
        worker_actions(model, st, (w - 1) as nat) + actions_of(model, st, (w - 1) as u8)
    }
}

/// All actions that can happen in a state: time passes up to the limit, a client enqueues under one
/// of two keys, a worker acts.
pub open spec fn offered(model: QueueModel, st: StateView) -> Seq<Action> {
    (if st.now < model.max_time {
        seq![Action::Tick]
    } else {
        Seq::empty()
    }) + seq![Action::Enqueue { key: 0 }, Action::Enqueue { key: 1 }] + worker_actions(
        model,
        st,
        model.workers as nat,
    )
}

impl QueueModel {
    /// A model with the given parameters.
    pub fn new(workers: u8, jobs: u8, max_attempts: u8, max_time: u8) -> (model: QueueModel)
        ensures
            model == (QueueModel { workers, jobs, max_attempts, max_time }),
    {
        QueueModel { workers, jobs, max_attempts, max_time }
    }

    /// Whether the job in slot `j` may be dequeued.
    pub fn job_eligible(&self, st: &State, j: u8) -> (yes: bool)
        requires
            j < st@.jobs.len(),
        ensures
            yes == eligible(*self, st@, j as int),
    {
        match st.jobs[j as usize] {
            Some(job) => {
                let non_terminal: bool = job.status == JobStatus::Pending || job.status
                    == JobStatus::InProgress;
                non_terminal && job.visible_at <= st.now && job.attempt_count < self.max_attempts
            },
            None => false,
        }
    }

    /// Fails every job whose last allowed attempt has timed out.
    pub fn reap_exhausted(&self, st: &mut State)
        ensures
            final(st)@ == reaped(*self, old(st)@),
    {
        let ghost before = st@;
        let mut i: usize = 0;
        while i < st.jobs.len()
            invariant
                i <= st.jobs.len(),
                st.now == before.now,
                st.next_lease_id == before.next_lease_id,
                st.workers@ == before.workers,
                st.jobs@.len() == before.jobs.len(),
                forall|k: int|
                    0 <= k < i ==> #[trigger] st.jobs@[k] == reaped(*self, before).jobs[k],
                forall|k: int| i <= k < before.jobs.len() ==> #[trigger] st.jobs@[k]
                    == before.jobs[k],
            decreases st.jobs.len() - i,
        {
            if let Some(job) = st.jobs[i] {
                if job.status == JobStatus::InProgress && job.visible_at <= st.now
                    && job.attempt_count >= self.max_attempts {
                    let failed = ModelJob {
                        status: JobStatus::Failed,
                        failed_attempt: Some(job.attempt_count),
                        lease_id: None,
                        leased_by: None,
                        ..job
                    };
                    st.jobs.set(i, Some(failed));
                }
            }
            i += 1;
        }
        assert(st@ =~= reaped(*self, before));
    }

    /// The starting states of the system: there is one.
    pub fn init_states(&self) -> (states: Vec<State>)
        ensures
            states@.len() == 1,
            states@[0]@ == initial(*self),
    {
        let mut jobs: Vec<Option<ModelJob>> = Vec::new();
        let mut i: u8 = 0;
        while i < self.jobs
            invariant
                i <= self.jobs,
                jobs@ == Seq::new(i as nat, |k: int| None::<ModelJob>),
            decreases self.jobs - i,
        {
            jobs.push(None);
            i += 1;
            assert(jobs@ =~= Seq::new(i as nat, |k: int| None::<ModelJob>));
        }
        let mut workers: Vec<Worker> = Vec::new();
        let mut i: u8 = 0;
        while i < self.workers
            invariant
                i <= self.workers,
                workers@ == Seq::new(i as nat, |k: int| Worker { held: None }),
            decreases self.workers - i,
        {
            workers.push(Worker { held: None });
            i += 1;
            assert(workers@ =~= Seq::new(i as nat, |k: int| Worker { held: None }));
        }
        let st = State { now: 0, next_lease_id: 1, jobs, workers };
        assert(st@ =~= initial(*self));
        let mut states: Vec<State> = Vec::new();
        states.push(st);
        states
    }

    /// Appends all actions that can be taken in the state.
    pub fn actions(&self, st: &State, actions: &mut Vec<Action>)
        requires
            self.workers <= st@.workers.len(),
            forall|w: int|
                0 <= w < self.workers && (#[trigger] st@.workers[w]).held is None ==> self.jobs
                    <= st@.jobs.len(),
        ensures
            final(actions)@ == old(actions)@ + offered(*self, st@),
    {
        let ghost before = actions@;
        if st.now < self.max_time {
            actions.push(Action::Tick);
        }
        actions.push(Action::Enqueue { key: 0 });
        actions.push(Action::Enqueue { key: 1 });
        let ghost head = actions@;
        let mut w: u8 = 0;
        while w < self.workers
            invariant
                w <= self.workers,
                self.workers <= st@.workers.len(),
                forall|v: int|
                    0 <= v < self.workers && (#[trigger] st@.workers[v]).held is None ==> self.jobs
                        <= st@.jobs.len(),
                actions@ == head + worker_actions(*self, st@, w as nat),
            decreases self.workers - w,
        {
            let ghost so_far = actions@;
            if st.workers[w as usize].held.is_none() {
                let mut j: u8 = 0;
                while j < self.jobs
                    invariant
                        j <= self.jobs,
                        self.jobs <= st@.jobs.len(),
                        actions@ == so_far + dequeue_actions(*self, st@, w, j as nat),
                    decreases self.jobs - j,
                {
                    if self.job_eligible(st, j) {
                        actions.push(Action::Dequeue { worker: w, job: j });
                    }
                    j += 1;
                    assert(actions@ =~= so_far + dequeue_actions(*self, st@, w, j as nat));
                }
            } else {
                actions.push(Action::Ack { worker: w });
                actions.push(Action::Nack { worker: w });
                actions.push(Action::Touch { worker: w });
                actions.push(Action::Crash { worker: w });
            }
            assert(actions@ =~= so_far + actions_of(*self, st@, w));
            w += 1;
            assert(actions@ =~= head + worker_actions(*self, st@, w as nat));
        }
        assert(actions@ =~= before + offered(*self, st@));
    }

    /// How the state changes when an action is taken, or `None` where the action is not possible.
    pub fn next_state(&self, st: &State, action: Action) -> (after: Option<State>)
        requires
            action_in_range(st@, action),
        ensures
            after is Some <==> next(*self, st@, action) is Some,
            after matches Some(state) ==> Some(state@) == next(*self, st@, action),
    {
        let mut st2: State = st.clone();
        match action {
            Action::Tick => {
                st2.now = st2.now.saturating_add(1);
                Some(st2)
            },
            Action::Enqueue { key } => {
                enqueue(&mut st2, key);
                Some(st2)
            },
            Action::Dequeue { worker, job } => {
                if self.dequeue(&mut st2, worker, job) {
                    Some(st2)
                } else {
                    None
                }
            },
            Action::Ack { worker } => {
                match st2.workers[worker as usize].held {
                    Some(lease) => match st2.jobs[lease.job as usize] {
                        Some(job) => {
                            let mut job: ModelJob = job;
                            // Only the holder of the current lease may complete the job: this keeps
                            // a worker from completing one that it has lost to a timeout.
                            if job.status == JobStatus::InProgress && job.lease_id == Some(
                                lease.lease_id,
                            ) {
                                job.status = JobStatus::Done;
                                job.completed_attempt = Some(lease.attempt_count);
                                job.lease_id = None;
                                job.leased_by = None;
                            }
                            st2.jobs.set(lease.job as usize, Some(job));
                            // A worker drops its memory of the lease after every attempt to ACK.
                            st2.workers.set(worker as usize, Worker { held: None });
                            Some(st2)
                        },
                        None => None,
                    },
                    None => None,
                }
            },
            Action::Nack { worker } => {
                match st2.workers[worker as usize].held {
                    Some(lease) => match st2.jobs[lease.job as usize] {
                        Some(job) => {
                            let mut job: ModelJob = job;
                            if job.status == JobStatus::InProgress && job.lease_id == Some(
                                lease.lease_id,
                            ) {
                                if job.attempt_count >= self.max_attempts {
                                    job.status = JobStatus::Failed;
                                    job.failed_attempt = Some(lease.attempt_count);
                                } else {
                                    job.status = JobStatus::Pending;
                                    job.visible_at = st2.now;
                                }
                                job.lease_id = None;
                                job.leased_by = None;
                            }
                            st2.jobs.set(lease.job as usize, Some(job));
                            st2.workers.set(worker as usize, Worker { held: None });
                            Some(st2)
                        },
                        None => None,
                    },
                    None => None,
                }
            },
            Action::Touch { worker } => {
                match st2.workers[worker as usize].held {
                    Some(lease) => match st2.jobs[lease.job as usize] {
                        Some(job) => {
                            let mut job: ModelJob = job;
                            if job.status == JobStatus::InProgress && job.lease_id == Some(
                                lease.lease_id,
                            ) {
                                job.visible_at = st2.now.saturating_add(job.lease_timeout);
                                st2.jobs.set(lease.job as usize, Some(job));
                            } else {
                                // The lease is lost: the worker realises it and drops it.
                                st2.workers.set(worker as usize, Worker { held: None });
                            }
                            Some(st2)
                        },
                        None => None,
                    },
                    None => None,
                }
            },
            Action::Crash { worker } => {
                st2.workers.set(worker as usize, Worker { held: None });
                Some(st2)
            },
        }
    }

    /// Hands the job in slot `job` to `worker`; says whether it could.
    fn dequeue(&self, st: &mut State, worker: u8, job: u8) -> (done: bool)
        requires
            action_in_range(old(st)@, Action::Dequeue { worker, job }),
        ensures
            done <==> after_dequeue(*self, old(st)@, worker, job) is Some,
            done ==> Some(final(st)@) == after_dequeue(*self, old(st)@, worker, job),
    {
        if st.workers[worker as usize].held.is_some() {
            return false;
        }
        // Reaping and dequeuing are one atomic step.
        self.reap_exhausted(st);
        if !self.job_eligible(st, job) {
            return false;
        }
        let lease_id: u8 = st.next_lease_id;
        match st.jobs[job as usize] {
            Some(found) => {
                let mut found: ModelJob = found;
                st.next_lease_id = st.next_lease_id.saturating_add(1);
                found.status = JobStatus::InProgress;
                found.attempt_count = found.attempt_count.saturating_add(1);
                found.visible_at = st.now.saturating_add(found.lease_timeout);
                found.lease_id = Some(lease_id);
                found.leased_by = Some(worker);
                st.jobs.set(job as usize, Some(found));
                let held = LeaseMem { job, lease_id, attempt_count: found.attempt_count };
                st.workers.set(worker as usize, Worker { held: Some(held) });
                true
            },
            None => false,
        }
    }

    /// Whether the state is within the time limit.
    pub fn within_boundary(&self, st: &State) -> (yes: bool)
        ensures
            yes == (st@.now <= self.max_time),
    {
        st.now <= self.max_time
    }
}

/// Puts a job with the key in the first free slot, unless the key is taken or no slot is free.
fn enqueue(st: &mut State, key: u8)
    requires
        action_in_range(old(st)@, Action::Enqueue { key }),
    ensures
        final(st)@ == after_enqueue(old(st)@, key),
{
    let ghost before = st@;
    let mut free: Option<usize> = None;
    let mut i: usize = 0;
    while i < st.jobs.len()
        invariant
            i <= st.jobs.len(),
            st@ == before,
            forall|k: int|
                0 <= k < i ==> (#[trigger] before.jobs[k] matches Some(job) ==> job.idempotency_key
                    != key),
            free is None ==> first_free(before.jobs, 0) == first_free(before.jobs, i as int),
            free matches Some(slot) ==> slot < before.jobs.len() && slot == first_free(
                before.jobs,
                0,
            ),
        decreases st.jobs.len() - i,
    {
        match st.jobs[i] {
            Some(job) => {
                if job.idempotency_key == key {
                    assert(key_taken(before.jobs, key)) by {
                        assert(before.jobs[i as int] == Some(job));
                    }
                    return ;
                }
            },
            None => {
                if free.is_none() {
                    free = Some(i);
                }
            },
        }
        i += 1;
    }
    assert(!key_taken(before.jobs, key));
    if let Some(slot) = free {
        let job = ModelJob {
            idempotency_key: key,
            status: JobStatus::Pending,
            visible_at: st.now,
            attempt_count: 0,
            lease_timeout: 2 + key,
            lease_id: None,
            leased_by: None,
            completed_attempt: None,
            failed_attempt: None,
        };
        st.jobs.set(slot, Some(job));
    }
}

} // verus!
