//! What a statement does to one row of the `jobs` table.

use crate::job::{Job, JobStatus, JobView, LeaseKey};
use vstd::prelude::*;

verus! {

/// Microseconds in a second.
pub const MICROS: i64 = 1_000_000;

/// Whether `lease` is the current lease on the row: the row is in progress and was leased
/// under that id.
pub open spec fn holds_lease(row: JobView, lease: LeaseKey) -> bool {
    &&& row.id == lease.job_id
    &&& row.lease_id == Some(lease.lease_id)
    &&& row.status == JobStatus::InProgress
}

/// Whether a worker may be given the row: it is not finished, its time has come and it has
/// attempts left.
pub open spec fn claimable(row: JobView, max_attempts: int, now: int) -> bool {
    &&& row.status == JobStatus::Pending || row.status == JobStatus::InProgress
    &&& row.visible_at <= now
    &&& row.attempt_count < max_attempts
}

/// Whether the row's last allowed attempt has timed out.
pub open spec fn exhausted(row: JobView, max_attempts: int, now: int) -> bool {
    &&& row.status == JobStatus::InProgress
    &&& row.visible_at <= now
    &&& row.attempt_count >= max_attempts
}

/// The order in which rows are handed out: by the time at which they became visible, then by
/// age, then by id.
pub open spec fn before(a: JobView, b: JobView) -> bool {
    ||| a.visible_at < b.visible_at
    ||| a.visible_at == b.visible_at && a.created_at < b.created_at
    ||| a.visible_at == b.visible_at && a.created_at == b.created_at && a.id < b.id
}

/// The row as `worker` gets it, under the lease `lease_id`.
pub open spec fn leased(row: JobView, worker: Seq<char>, lease_id: u128, now: int) -> JobView {
    JobView {
        status: JobStatus::InProgress,
        updated_at: now,
        visible_at: now + MICROS * row.lease_timeout_seconds,
        attempt_count: row.attempt_count + 1,
        lease_id: Some(lease_id),
        leased_by: Some(worker),
        ..row
    }
}

/// The row after its last allowed attempt has timed out.
pub open spec fn timed_out(row: JobView, now: int) -> JobView {
    JobView { status: JobStatus::Failed, updated_at: now, lease_id: None, leased_by: None, ..row }
}

/// The row after its holder has completed it.
pub open spec fn acked(row: JobView, now: int) -> JobView {
    JobView { status: JobStatus::Done, updated_at: now, lease_id: None, leased_by: None, ..row }
}

/// The row after its holder has given it up: back in the queue after `delay` microseconds, or
/// failed where that was the last allowed attempt.
pub open spec fn nacked(row: JobView, max_attempts: int, delay: int, now: int) -> JobView {
    if row.attempt_count >= max_attempts {
        JobView {
            status: JobStatus::Failed,
            updated_at: now,
            visible_at: now,
            lease_id: None,
            leased_by: None,
            ..row
        }
    } else {
        JobView {
            status: JobStatus::Pending,
            updated_at: now,
            visible_at: now + delay,
            lease_id: None,
            leased_by: None,
            ..row
        }
    }
}

/// The row after its holder has extended the lease to `seconds` from now.
pub open spec fn touched(row: JobView, seconds: int, now: int) -> JobView {
    JobView { visible_at: now + MICROS * seconds, updated_at: now, ..row }
}

/// The row that a new job starts as. Its payload is the document as the `jsonb` column stores it.
pub open spec fn created(
    id: i64,
    key: Seq<char>,
    stored: serde_json::Value,
    lease_timeout_seconds: int,
    visible_at: Option<int>,
    now: int,
) -> JobView {
    JobView {
        id,
        idempotency_key: key,
        status: JobStatus::Pending,
        payload: stored,
        visible_at: match visible_at {
            Some(at) => at,
            None => now,
        },
        attempt_count: 0,
        lease_timeout_seconds,
        lease_id: None,
        leased_by: None,
        created_at: now,
        updated_at: now,
    }
}

/// Whether `now` is early enough for every lease that starts then to end at a time that fits.
pub open spec fn clock_fits(now: int) -> bool {
    now + MICROS * i32::MAX <= i64::MAX
}

impl Job {
    pub(crate) fn holds(&self, lease: LeaseKey) -> (held: bool)
        ensures
            held == holds_lease(self@, lease),
    {
        self.id == lease.job_id && self.status == JobStatus::InProgress && match self.lease_id {
            Some(lease_id) => lease_id == lease.lease_id,
            None => false,
        }
    }

    pub(crate) fn is_claimable(&self, max_attempts: i32, now: i64) -> (yes: bool)
        ensures
            yes == claimable(self@, max_attempts as int, now as int),
    {
        (self.status == JobStatus::Pending || self.status == JobStatus::InProgress)
            && self.visible_at <= now && self.attempt_count < max_attempts
    }

    pub(crate) fn is_exhausted(&self, max_attempts: i32, now: i64) -> (yes: bool)
        ensures
            yes == exhausted(self@, max_attempts as int, now as int),
    {
        self.status == JobStatus::InProgress && self.visible_at <= now && self.attempt_count
            >= max_attempts
    }

    pub(crate) fn is_before(&self, other: &Job) -> (yes: bool)
        ensures
            yes == before(self@, other@),
    {
        self.visible_at < other.visible_at || (self.visible_at == other.visible_at && (
        self.created_at < other.created_at || (self.created_at == other.created_at && self.id
            < other.id)))
    }

    /// Leases the row to `worker`.
    pub(crate) fn lease(&self, worker: &str, lease_id: u128, now: i64) -> (row: Job)
        requires
            now + MICROS * self.lease_timeout_seconds <= i64::MAX,
            self.lease_timeout_seconds > 0,
            self.attempt_count < i32::MAX,
        ensures
            row@ == leased(self@, worker@, lease_id, now as int),
    {
        let mut row: Job = self.clone();
        row.status = JobStatus::InProgress;
        row.updated_at = now;
        row.visible_at = now + MICROS * (self.lease_timeout_seconds as i64);
        row.attempt_count = self.attempt_count + 1;
        row.lease_id = Some(lease_id);
        row.leased_by = Some(worker.to_owned());
        row
    }

    /// Fails the row, whose last attempt has timed out.
    pub(crate) fn time_out(&self, now: i64) -> (row: Job)
        ensures
            row@ == timed_out(self@, now as int),
    {
        let mut row: Job = self.clone();
        row.status = JobStatus::Failed;
        row.updated_at = now;
        row.lease_id = None;
        row.leased_by = None;
        row
    }

    /// Completes the row.
    pub(crate) fn complete(&self, now: i64) -> (row: Job)
        ensures
            row@ == acked(self@, now as int),
    {
        let mut row: Job = self.clone();
        row.status = JobStatus::Done;
        row.updated_at = now;
        row.lease_id = None;
        row.leased_by = None;
        row
    }

    /// Gives the row back, or fails it where no attempt is left.
    pub(crate) fn give_up(&self, max_attempts: i32, delay_micros: u64, now: i64) -> (row: Job)
        requires
            self.attempt_count < max_attempts ==> now + delay_micros <= i64::MAX,
        ensures
            row@ == nacked(self@, max_attempts as int, delay_micros as int, now as int),
    {
        let mut row: Job = self.clone();
        if self.attempt_count >= max_attempts {
            row.status = JobStatus::Failed;
            row.visible_at = now;
        } else {
            row.status = JobStatus::Pending;
            row.visible_at = (now as i128 + delay_micros as i128) as i64;
        }
        row.updated_at = now;
        row.lease_id = None;
        row.leased_by = None;
        row
    }

    /// Extends the lease on the row.
    pub(crate) fn extend(&self, seconds: i32, now: i64) -> (row: Job)
        requires
            now + MICROS * seconds <= i64::MAX,
            seconds > 0,
        ensures
            row@ == touched(self@, seconds as int, now as int),
    {
        let mut row: Job = self.clone();
        row.visible_at = now + MICROS * (seconds as i64);
        row.updated_at = now;
        row
    }
}

} // verus!
