//! The shapes that jobs and leases have for Python.

use crate::job::{Job, JobStatus, LeaseKey};
use crate::outside::{
    hyphenated, in_calendar, parse_json, parsed_json, reads_as, rfc3339, rfc3339_text, uuid_text,
    write_json, written_json,
};
use serde_json::Value;
use vstd::prelude::*;

verus! {

/// The status of a job, as Python's `JobStatus`.
#[derive(Debug, Clone, Copy, PartialEq, Eq, Structural)]
pub enum PyJobStatus {
    Pending,
    InProgress,
    Done,
    Failed,
}

impl From<JobStatus> for PyJobStatus {
    fn from(status: JobStatus) -> (shown: PyJobStatus) {
        match status {
            JobStatus::Pending => PyJobStatus::Pending,
            JobStatus::InProgress => PyJobStatus::InProgress,
            JobStatus::Done => PyJobStatus::Done,
            JobStatus::Failed => PyJobStatus::Failed,
        }
    }
}

impl vstd::std_specs::convert::FromSpecImpl<JobStatus> for PyJobStatus {
    open spec fn obeys_from_spec() -> bool {
        true
    }

    open spec fn from_spec(status: JobStatus) -> PyJobStatus {
        match status {
            JobStatus::Pending => PyJobStatus::Pending,
            JobStatus::InProgress => PyJobStatus::InProgress,
            JobStatus::Done => PyJobStatus::Done,
            JobStatus::Failed => PyJobStatus::Failed,
        }
    }
}

impl PyJobStatus {
    /// The status as Python shows it.
    pub fn __repr__(&self) -> (text: String)
        ensures
            text@ == match *self {
                PyJobStatus::Pending => "JobStatus.Pending"@,
                PyJobStatus::InProgress => "JobStatus.InProgress"@,
                PyJobStatus::Done => "JobStatus.Done"@,
                PyJobStatus::Failed => "JobStatus.Failed"@,
            },
    {
        match self {
            PyJobStatus::Pending => "JobStatus.Pending".to_owned(),
            PyJobStatus::InProgress => "JobStatus.InProgress".to_owned(),
            PyJobStatus::Done => "JobStatus.Done".to_owned(),
            PyJobStatus::Failed => "JobStatus.Failed".to_owned(),
        }
    }
}

/// The lease on a job, as Python's `LeaseKey`.
#[derive(Debug, Clone, Copy)]
pub struct PyLeaseKey {
    pub inner: LeaseKey,
}

impl PyLeaseKey {
    /// The ID of the job.
    pub fn job_id(&self) -> (id: i64)
        ensures
            id == self.inner.job_id,
    {
        self.inner.job_id
    }

    /// The unique ID of the lease, in the usual form of a UUID.
    pub fn lease_id(&self) -> (text: String)
        ensures
            text@ == hyphenated(self.inner.lease_id),
            reads_as(text@, self.inner.lease_id),
    {
        uuid_text(self.inner.lease_id)
    }
}

/// A job, as Python's `Job`.
#[derive(Debug)]
pub struct PyJob {
    pub inner: Job,
}

impl PyJob {
    /// Unique identifier for the job.
    pub fn id(&self) -> (id: i64)
        ensures
            id == self.inner.id,
    {
        self.inner.id
    }

    /// Unique idempotency key for the job.
    pub fn idempotency_key(&self) -> (key: String)
        ensures
            key@ == self.inner.idempotency_key@,
    {
        self.inner.idempotency_key.clone()
    }

    /// Current status of the job.
    pub fn status(&self) -> (status: PyJobStatus)
        ensures
            status == match self.inner.status {
                JobStatus::Pending => PyJobStatus::Pending,
                JobStatus::InProgress => PyJobStatus::InProgress,
                JobStatus::Done => PyJobStatus::Done,
                JobStatus::Failed => PyJobStatus::Failed,
            },
    {
        PyJobStatus::from(self.inner.status)
    }

    /// The JSON text of the payload, from which Python loads it, or the error that is raised because
    /// it cannot be written.
    pub fn payload(&self) -> (json: Result<String, String>)
        ensures
            match json {
                Ok(text) => written_json(self.inner.payload) == Ok::<Seq<char>, Seq<char>>(text@),
                Err(reason) => written_json(self.inner.payload) == Err::<Seq<char>, Seq<char>>(
                    reason@,
                ),
            },
    {
        write_json(&self.inner.payload)
    }

    /// When the job becomes visible to workers, by RFC 3339.
    pub fn visible_at(&self) -> (text: String)
        requires
            in_calendar(self.inner.visible_at as int),
        ensures
            text@ == rfc3339(self.inner.visible_at),
    {
        rfc3339_text(self.inner.visible_at)
    }

    /// Number of times this job has been dequeued.
    pub fn attempt_count(&self) -> (count: i32)
        ensures
            count == self.inner.attempt_count,
    {
        self.inner.attempt_count
    }

    /// Duration (in seconds) that a worker has to process the job before it becomes visible again.
    pub fn lease_timeout_seconds(&self) -> (seconds: i32)
        ensures
            seconds == self.inner.lease_timeout_seconds,
    {
        self.inner.lease_timeout_seconds
    }

    /// The lease on the job, if it is currently leased.
    pub fn lease_key(&self) -> (key: Option<PyLeaseKey>)
        ensures
            key == match self.inner.lease_id {
                Some(lease_id) => Some(
                    PyLeaseKey { inner: LeaseKey { job_id: self.inner.id, lease_id } },
                ),
                None => None,
            },
    {
        match self.inner.lease_key() {
            Some(inner) => Some(PyLeaseKey { inner }),
            None => None,
        }
    }
}

/// The payload that the JSON text of a Python value stands for, or the error that is raised because
/// the text is no JSON.
pub fn load_payload(json: &str) -> (payload: Result<Value, String>)
    ensures
        match payload {
            Ok(value) => parsed_json(json@) == Ok::<Value, Seq<char>>(value),
            Err(reason) => parsed_json(json@) == Err::<Value, Seq<char>>(reason@),
        },
{
    parse_json(json)
}

} // verus!
