//! The model of the queue under a model checker, and step by step.
//!
//! `stateright` explores every possible sequence of actions. If there is any path that leads to a
//! state where a property is violated, it finds it and shows the steps that lead there.

use slonq::model::{Action, LeaseMem, ModelJob, QueueModel, State, Worker};
use slonq::properties::{
    prop_attempt_leq_max, prop_done_attempt_matches, prop_failed_attempt_matches,
    prop_inprogress_has_lease, prop_no_two_current_owners, prop_terminal_clears_lease,
    prop_unique_active_lease_ids, prop_unique_idempotency_keys,
};
use slonq::JobStatus;
use stateright::{Checker, Model, Property};

/// The model, as the checker takes it.
#[derive(Clone)]
struct Checked(QueueModel);

impl Model for Checked {
    type State = State;
    type Action = Action;

    fn init_states(&self) -> Vec<Self::State> {
        self.0.init_states()
    }

    fn actions(&self, st: &Self::State, actions: &mut Vec<Self::Action>) {
        self.0.actions(st, actions)
    }

    fn next_state(&self, st: &Self::State, action: Self::Action) -> Option<Self::State> {
        self.0.next_state(st, action)
    }

    fn properties(&self) -> Vec<Property<Self>> {
        vec![
            Property::always(
                "attempt_count never exceeds max_attempts",
                |m: &Checked, st: &State| prop_attempt_leq_max(&m.0, st),
            ),
            Property::always(
                "in_progress implies lease_id and leased_by are set",
                |_: &Checked, st: &State| prop_inprogress_has_lease(st),
            ),
            Property::always(
                "done/failed imply lease fields cleared",
                |_: &Checked, st: &State| prop_terminal_clears_lease(st),
            ),
            Property::always(
                "done attempt matches final attempt_count",
                |_: &Checked, st: &State| prop_done_attempt_matches(st),
            ),
            Property::always(
                "failed attempt matches final attempt_count",
                |_: &Checked, st: &State| prop_failed_attempt_matches(st),
            ),
            Property::always(
                "active lease_ids are unique",
                |_: &Checked, st: &State| prop_unique_active_lease_ids(st),
            ),
            Property::always(
                "no job has two CURRENT owners",
                |_: &Checked, st: &State| prop_no_two_current_owners(st),
            ),
            Property::always(
                "no duplicate idempotency keys among jobs",
                |_: &Checked, st: &State| prop_unique_idempotency_keys(st),
            ),
        ]
    }

    fn within_boundary(&self, st: &Self::State) -> bool {
        self.0.within_boundary(st)
    }
}

#[test]
fn queue_model_safety_holds() {
    // Small parameters but they are enough to explore a massive state space
    // of interleavings, timeouts, and crashes.
    let model = Checked(QueueModel::new(
        2, // workers
        2, // jobs
        2, // max_attempts
        6, // max_time ticks
    ));

    // Standard Stateright pattern: spawn BFS, join, assert properties.
    // BFS (Breadth-First Search) ensures the shortest possible bug trace is found.
    model.checker().spawn_bfs().join().assert_properties();
}

fn start(model: &QueueModel) -> State {
    let states = model.init_states();
    assert_eq!(states.len(), 1);
    states[0].clone()
}

fn take(model: &QueueModel, st: &State, action: Action) -> State {
    let mut offered = vec![];
    model.actions(st, &mut offered);
    assert!(offered.contains(&action), "{:?} is not offered", action);
    model.next_state(st, action).expect("an offered action is possible")
}

fn job(st: &State, slot: usize) -> ModelJob {
    st.jobs[slot].expect("the slot is taken")
}

#[test]
fn model_starts_empty() {
    let model = QueueModel::new(2, 3, 4, 5);
    let st = start(&model);
    assert_eq!(st.now, 0);
    assert_eq!(st.next_lease_id, 1);
    assert_eq!(st.jobs, vec![None, None, None]);
    assert_eq!(st.workers, vec![Worker { held: None }, Worker { held: None }]);
}

#[test]
fn model_offers_time_and_enqueues_at_the_start() {
    let model = QueueModel::new(2, 2, 2, 6);
    let mut offered = vec![];
    model.actions(&start(&model), &mut offered);
    assert_eq!(
        offered,
        vec![Action::Tick, Action::Enqueue { key: 0 }, Action::Enqueue { key: 1 }]
    );

    let still = QueueModel::new(2, 2, 2, 0);
    let mut offered = vec![];
    still.actions(&start(&still), &mut offered);
    assert_eq!(offered, vec![Action::Enqueue { key: 0 }, Action::Enqueue { key: 1 }]);
}

#[test]
fn model_enqueue_is_idempotent() {
    let model = QueueModel::new(1, 2, 2, 6);
    let st = take(&model, &start(&model), Action::Enqueue { key: 1 });
    assert_eq!(
        st.jobs[0],
        Some(ModelJob {
            idempotency_key: 1,
            status: JobStatus::Pending,
            visible_at: 0,
            attempt_count: 0,
            lease_timeout: 3,
            lease_id: None,
            leased_by: None,
            completed_attempt: None,
            failed_attempt: None,
        })
    );
    assert_eq!(take(&model, &st, Action::Enqueue { key: 1 }), st);
}

#[test]
fn model_enqueue_needs_a_free_slot() {
    let model = QueueModel::new(1, 1, 2, 6);
    let st = take(&model, &start(&model), Action::Enqueue { key: 0 });
    assert_eq!(take(&model, &st, Action::Enqueue { key: 1 }), st);
}

#[test]
fn model_dequeue_leases_the_job() {
    let model = QueueModel::new(2, 2, 2, 6);
    let st = take(&model, &start(&model), Action::Enqueue { key: 0 });
    let st = take(&model, &st, Action::Dequeue { worker: 1, job: 0 });
    let leased = job(&st, 0);
    assert_eq!(leased.status, JobStatus::InProgress);
    assert_eq!(leased.attempt_count, 1);
    assert_eq!(leased.visible_at, 2);
    assert_eq!(leased.lease_id, Some(1));
    assert_eq!(leased.leased_by, Some(1));
    assert_eq!(st.next_lease_id, 2);
    assert_eq!(
        st.workers[1].held,
        Some(LeaseMem { job: 0, lease_id: 1, attempt_count: 1 })
    );
    // The job is hidden from the other worker, and the holder has its hands full.
    assert_eq!(model.next_state(&st, Action::Dequeue { worker: 0, job: 0 }), None);
    assert_eq!(model.next_state(&st, Action::Dequeue { worker: 1, job: 0 }), None);
    assert!(!model.job_eligible(&st, 0));
    assert!(!model.job_eligible(&st, 1));
}

#[test]
fn model_ack_completes() {
    let model = QueueModel::new(1, 1, 2, 6);
    let st = take(&model, &start(&model), Action::Enqueue { key: 0 });
    let st = take(&model, &st, Action::Dequeue { worker: 0, job: 0 });
    let st = take(&model, &st, Action::Ack { worker: 0 });
    let done = job(&st, 0);
    assert_eq!(done.status, JobStatus::Done);
    assert_eq!(done.completed_attempt, Some(1));
    assert_eq!(done.lease_id, None);
    assert_eq!(done.leased_by, None);
    assert_eq!(st.workers[0].held, None);
    // There is no lease left to use.
    assert_eq!(model.next_state(&st, Action::Ack { worker: 0 }), None);
    assert_eq!(model.next_state(&st, Action::Nack { worker: 0 }), None);
    assert_eq!(model.next_state(&st, Action::Touch { worker: 0 }), None);
}

#[test]
fn model_stale_ack_is_ignored() {
    let model = QueueModel::new(2, 1, 2, 6);
    let st = take(&model, &start(&model), Action::Enqueue { key: 0 });
    let st = take(&model, &st, Action::Dequeue { worker: 0, job: 0 });
    let st = take(&model, &st, Action::Tick);
    let st = take(&model, &st, Action::Tick);
    let st = take(&model, &st, Action::Dequeue { worker: 1, job: 0 });
    assert_eq!(job(&st, 0).lease_id, Some(2));
    let after = take(&model, &st, Action::Ack { worker: 0 });
    assert_eq!(job(&after, 0), job(&st, 0));
    assert_eq!(after.workers[0].held, None);
    // A touch of the lost lease makes the worker forget it, and changes no job.
    let after = take(&model, &st, Action::Touch { worker: 0 });
    assert_eq!(job(&after, 0), job(&st, 0));
    assert_eq!(after.workers[0].held, None);
    // The new holder can still finish.
    let after = take(&model, &after, Action::Ack { worker: 1 });
    assert_eq!(job(&after, 0).completed_attempt, Some(2));
}

#[test]
fn model_nack_retries_then_fails() {
    let model = QueueModel::new(1, 1, 2, 6);
    let st = take(&model, &start(&model), Action::Enqueue { key: 0 });
    let st = take(&model, &st, Action::Dequeue { worker: 0, job: 0 });
    let st = take(&model, &st, Action::Nack { worker: 0 });
    assert_eq!(job(&st, 0).status, JobStatus::Pending);
    assert_eq!(job(&st, 0).visible_at, 0);
    let st = take(&model, &st, Action::Dequeue { worker: 0, job: 0 });
    let st = take(&model, &st, Action::Nack { worker: 0 });
    assert_eq!(job(&st, 0).status, JobStatus::Failed);
    assert_eq!(job(&st, 0).failed_attempt, Some(2));
    assert!(!model.job_eligible(&st, 0));
}

#[test]
fn model_touch_extends_the_lease() {
    let model = QueueModel::new(1, 1, 2, 6);
    let st = take(&model, &start(&model), Action::Enqueue { key: 1 });
    let st = take(&model, &st, Action::Dequeue { worker: 0, job: 0 });
    assert_eq!(job(&st, 0).visible_at, 3);
    let st = take(&model, &st, Action::Tick);
    let st = take(&model, &st, Action::Touch { worker: 0 });
    assert_eq!(job(&st, 0).visible_at, 4);
    assert!(st.workers[0].held.is_some());
}

#[test]
fn model_crash_leaves_the_job_to_others() {
    let model = QueueModel::new(2, 1, 2, 6);
    let st = take(&model, &start(&model), Action::Enqueue { key: 0 });
    let st = take(&model, &st, Action::Dequeue { worker: 0, job: 0 });
    let st = take(&model, &st, Action::Crash { worker: 0 });
    assert_eq!(st.workers[0].held, None);
    assert_eq!(job(&st, 0).status, JobStatus::InProgress);
    let st = take(&model, &st, Action::Tick);
    let st = take(&model, &st, Action::Tick);
    assert!(model.job_eligible(&st, 0));
}

#[test]
fn model_reaps_exhausted_jobs() {
    let model = QueueModel::new(1, 1, 1, 6);
    let st = take(&model, &start(&model), Action::Enqueue { key: 0 });
    let st = take(&model, &st, Action::Dequeue { worker: 0, job: 0 });
    let st = take(&model, &st, Action::Tick);
    let mut early = st.clone();
    model.reap_exhausted(&mut early);
    assert_eq!(early, st);
    let mut late = take(&model, &st, Action::Tick);
    model.reap_exhausted(&mut late);
    assert_eq!(job(&late, 0).status, JobStatus::Failed);
    assert_eq!(job(&late, 0).failed_attempt, Some(1));
    assert_eq!(job(&late, 0).lease_id, None);
}

#[test]
fn model_boundary_is_the_time_limit() {
    let model = QueueModel::new(1, 1, 1, 1);
    let st = start(&model);
    assert!(model.within_boundary(&st));
    let st = take(&model, &st, Action::Tick);
    assert!(model.within_boundary(&st));
    let st = model.next_state(&st, Action::Tick).unwrap();
    assert!(!model.within_boundary(&st));
}

fn broken(jobs: Vec<ModelJob>, held: Vec<Option<LeaseMem>>) -> State {
    State {
        now: 0,
        next_lease_id: 9,
        jobs: jobs.into_iter().map(Some).collect(),
        workers: held.into_iter().map(|held| Worker { held }).collect(),
    }
}

fn plain(key: u8, status: JobStatus) -> ModelJob {
    ModelJob {
        idempotency_key: key,
        status,
        visible_at: 0,
        attempt_count: 1,
        lease_timeout: 2,
        lease_id: None,
        leased_by: None,
        completed_attempt: None,
        failed_attempt: None,
    }
}

#[test]
fn properties_see_what_is_wrong() {
    let model = QueueModel::new(2, 2, 1, 6);

    let mut job = plain(0, JobStatus::Pending);
    assert!(prop_attempt_leq_max(&model, &broken(vec![job], vec![])));
    job.attempt_count = 2;
    assert!(!prop_attempt_leq_max(&model, &broken(vec![job], vec![])));

    let mut job = plain(0, JobStatus::InProgress);
    assert!(!prop_inprogress_has_lease(&broken(vec![job], vec![])));
    job.lease_id = Some(1);
    assert!(!prop_inprogress_has_lease(&broken(vec![job], vec![])));
    job.leased_by = Some(0);
    assert!(prop_inprogress_has_lease(&broken(vec![job], vec![])));

    let mut job = plain(0, JobStatus::Done);
    assert!(prop_terminal_clears_lease(&broken(vec![job], vec![])));
    job.leased_by = Some(0);
    assert!(!prop_terminal_clears_lease(&broken(vec![job], vec![])));

    let mut job = plain(0, JobStatus::Done);
    assert!(!prop_done_attempt_matches(&broken(vec![job], vec![])));
    job.completed_attempt = Some(1);
    assert!(prop_done_attempt_matches(&broken(vec![job], vec![])));

    let mut job = plain(0, JobStatus::Failed);
    job.failed_attempt = Some(2);
    assert!(!prop_failed_attempt_matches(&broken(vec![job], vec![])));
    job.failed_attempt = Some(1);
    assert!(prop_failed_attempt_matches(&broken(vec![job], vec![])));

    let mut a = plain(0, JobStatus::InProgress);
    let mut b = plain(1, JobStatus::InProgress);
    assert!(prop_unique_active_lease_ids(&broken(vec![a, b], vec![])));
    a.lease_id = Some(3);
    b.lease_id = Some(3);
    assert!(!prop_unique_active_lease_ids(&broken(vec![a, b], vec![])));

    let held = Some(LeaseMem { job: 0, lease_id: 3, attempt_count: 1 });
    let stale = Some(LeaseMem { job: 0, lease_id: 2, attempt_count: 1 });
    assert!(prop_no_two_current_owners(&broken(vec![a], vec![held, stale, None])));
    assert!(!prop_no_two_current_owners(&broken(vec![a], vec![held, None, held])));

    assert!(prop_unique_idempotency_keys(&broken(vec![a, b], vec![])));
    assert!(!prop_unique_idempotency_keys(&broken(vec![a, a], vec![])));
}

/// Dequeues the job in the slot and gives it up, `times` times.
fn retry(model: &QueueModel, st: State, slot: u8, times: usize) -> State {
    (0..times).fold(st, |st, _| {
        let st = take(model, &st, Action::Dequeue { worker: 0, job: slot });
        take(model, &st, Action::Nack { worker: 0 })
    })
}

#[test]
fn lease_ids_run_out_beyond_one_byte() {
    let model = QueueModel::new(1, 2, 128, 0);
    let st = take(&model, &start(&model), Action::Enqueue { key: 0 });
    let st = take(&model, &st, Action::Enqueue { key: 1 });
    let st = retry(&model, retry(&model, st, 0, 127), 1, 127);
    let st = take(&model, &st, Action::Dequeue { worker: 0, job: 0 });
    assert!(prop_unique_active_lease_ids(&st));
    let st = take(&model, &st, Action::Crash { worker: 0 });
    let st = take(&model, &st, Action::Dequeue { worker: 0, job: 1 });
    assert_eq!(job(&st, 0).lease_id, Some(255));
    assert_eq!(job(&st, 1).lease_id, Some(255));
    assert!(!prop_unique_active_lease_ids(&st));
    // With a single worker every attempt is still accounted for.
    let st = take(&model, &st, Action::Ack { worker: 0 });
    assert!(prop_done_attempt_matches(&st));
    assert!(prop_no_two_current_owners(&st));
}

#[test]
fn stale_worker_is_let_in_once_lease_ids_have_run_out() {
    let model = QueueModel::new(2, 2, 128, 2);
    let st = take(&model, &start(&model), Action::Enqueue { key: 0 });
    let st = take(&model, &st, Action::Enqueue { key: 1 });
    let st = retry(&model, retry(&model, st, 1, 128), 0, 126);
    assert_eq!(job(&st, 1).status, JobStatus::Failed);
    let st = take(&model, &st, Action::Dequeue { worker: 0, job: 0 });
    let st = take(&model, &take(&model, &st, Action::Tick), Action::Tick);
    let st = take(&model, &st, Action::Dequeue { worker: 1, job: 0 });
    assert!(!prop_no_two_current_owners(&st));
    assert!(!prop_done_attempt_matches(&take(&model, &st, Action::Ack { worker: 0 })));
    assert!(!prop_failed_attempt_matches(&take(&model, &st, Action::Nack { worker: 0 })));
}

#[test]
fn model_looks_only_at_what_the_action_names() {
    let model = QueueModel::new(1, 1, 1, 1);
    let lost = Some(LeaseMem { job: 9, lease_id: 1, attempt_count: 1 });
    let st = broken(vec![plain(7, JobStatus::Pending)], vec![lost]);
    assert_eq!(model.next_state(&st, Action::Tick).unwrap().now, 1);
    assert_eq!(model.next_state(&st, Action::Crash { worker: 0 }).unwrap().workers[0].held, None);
    assert_eq!(model.next_state(&st, Action::Dequeue { worker: 0, job: 200 }), None);
    assert_eq!(model.next_state(&st, Action::Enqueue { key: 255 }), Some(st.clone()));
}
