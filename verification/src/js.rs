//! The shapes that jobs, leases and errors have for JavaScript.

use crate::error::{worded, QueueError};
use crate::job::{Job, JobStatus, JobView, LeaseKey};
use crate::outside::{
    hyphenated, in_calendar, parse_json, parse_uuid, parsed_json, parsed_uuid, rfc3339,
    rfc3339_text, uuid_text, write_json, written_json,
};
use serde_json::Value;
use vstd::prelude::*;

verus! {

/// The properties of the object that stands for a job. The payload is its JSON text; the lease is
/// there while the job is leased.
#[derive(Debug)]
pub struct JobObject {
    pub id: i64,
    pub idempotency_key: String,
    pub status: &'static str,
    pub payload_json: String,
    pub visible_at: String,
    pub attempt_count: i32,
    pub lease_timeout_seconds: i32,
    pub lease_id: Option<String>,
}

/// What a [`JobObject`] says, with its texts as sequences of characters.
#[verifier::ext_equal]
pub struct JobObjectView {
    pub id: i64,
    pub idempotency_key: Seq<char>,
    pub status: Seq<char>,
    pub payload_json: Seq<char>,
    pub visible_at: Seq<char>,
    pub attempt_count: int,
    pub lease_timeout_seconds: int,
    pub lease_id: Option<Seq<char>>,
}

impl View for JobObject {
    type V = JobObjectView;

    open spec fn view(&self) -> JobObjectView {
        JobObjectView {
            id: self.id,
            idempotency_key: self.idempotency_key@,
            status: self.status@,
            payload_json: self.payload_json@,
            visible_at: self.visible_at@,
            attempt_count: self.attempt_count as int,
            lease_timeout_seconds: self.lease_timeout_seconds as int,
            lease_id: match self.lease_id {
                Some(text) => Some(text@),
                None => None,
            },
        }
    }
}

/// The lease key for a job id and the text of a lease id, or the error that is thrown because it is
/// no UUID.
pub open spec fn extracted_lease(job_id: i64, lease_id: Seq<char>) -> Result<LeaseKey, Seq<char>> {
    match parsed_uuid(lease_id) {
        Ok(id) => Ok(LeaseKey { job_id, lease_id: id }),
        Err(reason) => Err("invalid leaseId '"@ + lease_id + "': "@ + reason),
    }
}

/// Whether a lease id in text leads back to the lease on the job.
pub open spec fn leads_back(job: Job, lease_id: Option<String>) -> bool {
    lease_id matches Some(text) ==> job.lease_id is Some && extracted_lease(job.id, text@) == Ok::<
        LeaseKey,
        Seq<char>,
    >(LeaseKey { job_id: job.id, lease_id: job.lease_id->0 })
}

/// The text of a status: its label in the PostgreSQL enum `job_status`.
pub open spec fn status_text(status: JobStatus) -> Seq<char> {
    match status {
        JobStatus::Pending => "pending"@,
        JobStatus::InProgress => "in_progress"@,
        JobStatus::Done => "done"@,
        JobStatus::Failed => "failed"@,
    }
}

/// The object for a job whose payload and time of visibility have been put in text.
pub open spec fn object_of(
    job: JobView,
    payload_json: Seq<char>,
    visible_at: Seq<char>,
) -> JobObjectView {
    JobObjectView {
        id: job.id,
        idempotency_key: job.idempotency_key,
        status: status_text(job.status),
        payload_json,
        visible_at,
        attempt_count: job.attempt_count,
        lease_timeout_seconds: job.lease_timeout_seconds,
        lease_id: match job.lease_id {
            Some(id) => Some(hyphenated(id)),
            None => None,
        },
    }
}

/// The text of a status: its label in the PostgreSQL enum `job_status`.
pub fn status_str(status: JobStatus) -> (text: &'static str)
    ensures
        text@ == status_text(status),
{
    match status {
        JobStatus::Pending => "pending",
        JobStatus::InProgress => "in_progress",
        JobStatus::Done => "done",
        JobStatus::Failed => "failed",
    }
}

/// The object for a job whose payload and time of visibility have been put in text. A payload that
/// could not be written gives its error instead.
pub fn describe_job(job: &Job, payload_json: Result<String, String>, visible_at: String) -> (object:
    Result<JobObject, String>)
    ensures
        match payload_json {
            Ok(json) => object matches Ok(described) && {
                &&& described@ == object_of(job@, json@, visible_at@)
                &&& leads_back(*job, described.lease_id)
            },
            Err(reason) => object matches Err(thrown) && thrown@ == reason@,
        },
{
    match payload_json {
        Ok(json) => {
            let lease_id: Option<String> = match job.lease_key() {
                Some(lease) => Some(uuid_text(lease.lease_id)),
                None => None,
            };
            let described = JobObject {
                id: job.id,
                idempotency_key: job.idempotency_key.clone(),
                status: status_str(job.status),
                payload_json: json,
                visible_at,
                attempt_count: job.attempt_count,
                lease_timeout_seconds: job.lease_timeout_seconds,
                lease_id,
            };
            Ok(described)
        },
        Err(reason) => Err(reason),
    }
}

/// What a job becomes: an object, or the error that is thrown because its payload cannot be
/// written.
pub open spec fn object_result(job: Job) -> Result<JobObjectView, Seq<char>> {
    match written_json(job.payload) {
        Ok(json) => Ok(object_of(job@, json, rfc3339(job.visible_at))),
        Err(reason) => Err(reason),
    }
}

/// The object for a job. Its lease id is a text from which [`extract_lease`] makes the job's lease
/// key again.
pub fn job_to_object(job: &Job) -> (object: Result<JobObject, String>)
    requires
        in_calendar(job.visible_at as int),
    ensures
        match object {
            Ok(described) => {
                &&& object_result(*job) == Ok::<JobObjectView, Seq<char>>(described@)
                &&& leads_back(*job, described.lease_id)
            },
            Err(thrown) => object_result(*job) == Err::<JobObjectView, Seq<char>>(thrown@),
        },
{
    let payload_json: Result<String, String> = write_json(&job.payload);
    let visible_at: String = rfc3339_text(job.visible_at);
    describe_job(job, payload_json, visible_at)
}

/// The objects for jobs, in order; if one of them cannot be had, the first error.
pub open spec fn objects_result(jobs: Seq<Job>) -> Result<Seq<JobObjectView>, Seq<char>>
    decreases jobs.len(),
{
    if jobs.len() == 0 {
        Ok(Seq::empty())
    } else {
        match objects_result(jobs.drop_last()) {
            Err(reason) => Err(reason),
            Ok(objects) => match object_result(jobs.last()) {
                Err(reason) => Err(reason),
                Ok(object) => Ok(objects.push(object)),
            },
        }
    }
}

/// An error among the first jobs is the error of them all.
proof fn lemma_first_error(jobs: Seq<Job>, n: int)
    requires
        0 <= n <= jobs.len(),
        objects_result(jobs.take(n)) is Err,
    ensures
        objects_result(jobs) == objects_result(jobs.take(n)),
    decreases jobs.len() - n,
{
    if n < jobs.len() {
        assert(jobs.take(n + 1).drop_last() =~= jobs.take(n));
        lemma_first_error(jobs, n + 1);
    } else {
        assert(jobs.take(n) =~= jobs);
    }
}

/// Whether the lease ids of the objects lead back to the leases on their jobs.
pub open spec fn all_lead_back(jobs: Seq<Job>, objects: Seq<JobObject>) -> bool {
    &&& objects.len() == jobs.len()
    &&& forall|i: int| 0 <= i < jobs.len() ==> leads_back(jobs[i], #[trigger] objects[i].lease_id)
}

/// The objects for jobs, in order.
pub fn jobs_to_array(jobs: &Vec<Job>) -> (array: Result<Vec<JobObject>, String>)
    requires
        forall|i: int| 0 <= i < jobs@.len() ==> in_calendar((#[trigger] jobs@[i]).visible_at as int),
    ensures
        match array {
            Ok(objects) => {
                &&& objects_result(jobs@) == Ok::<Seq<JobObjectView>, Seq<char>>(
                    objects@.map_values(|object: JobObject| object@),
                )
                &&& all_lead_back(jobs@, objects@)
            },
            Err(thrown) => objects_result(jobs@) == Err::<Seq<JobObjectView>, Seq<char>>(thrown@),
        },
{
    let mut objects: Vec<JobObject> = Vec::new();
    let mut i: usize = 0;
    assert(jobs@.take(0) =~= Seq::<Job>::empty());
    assert(objects@.map_values(|object: JobObject| object@) =~= Seq::<JobObjectView>::empty());
    while i < jobs.len()
        invariant
            i <= jobs.len(),
            forall|k: int|
                0 <= k < jobs@.len() ==> in_calendar((#[trigger] jobs@[k]).visible_at as int),
            objects_result(jobs@.take(i as int)) == Ok::<Seq<JobObjectView>, Seq<char>>(
                objects@.map_values(|object: JobObject| object@),
            ),
            all_lead_back(jobs@.take(i as int), objects@),
        decreases jobs.len() - i,
    {
        assert(jobs@.take(i + 1).drop_last() =~= jobs@.take(i as int));
        match job_to_object(&jobs[i]) {
            Ok(object) => {
                let ghost before = objects@.map_values(|object: JobObject| object@);
                let ghost described = object@;
                objects.push(object);
                assert(objects@.map_values(|object: JobObject| object@) =~= before.push(described));
            },
            Err(thrown) => {
                proof {
                    lemma_first_error(jobs@, i + 1);
                }
                return Err(thrown);
            },
        }
        i += 1;
    }
    assert(jobs@.take(i as int) =~= jobs@);
    Ok(objects)
}

/// Turns the outcome of an operation on one job into what its promise settles to: an object for a
/// job, `null` for none, a thrown error for an error.
pub fn settle_optional_job(res: Result<Option<Job>, QueueError>) -> (settled: Result<
    Option<JobObject>,
    String,
>)
    requires
        res matches Ok(Some(job)) ==> in_calendar(job.visible_at as int),
    ensures
        match res {
            Ok(Some(job)) => match object_result(job) {
                Ok(object) => settled matches Ok(Some(described)) && described@ == object
                    && leads_back(job, described.lease_id),
                Err(reason) => settled matches Err(thrown) && thrown@ == reason,
            },
            Ok(None) => settled == Ok::<Option<JobObject>, String>(None),
            Err(error) => settled matches Err(thrown) && thrown@ == worded(error),
        },
{
    match res {
        Ok(Some(job)) => match job_to_object(&job) {
            Ok(object) => Ok(Some(object)),
            Err(thrown) => Err(thrown),
        },
        Ok(None) => Ok(None),
        Err(error) => Err(error.to_string()),
    }
}

/// Turns the outcome of an operation on several jobs into what its promise settles to: an array of
/// objects for jobs, a thrown error for an error.
pub fn settle_jobs(res: Result<Vec<Job>, QueueError>) -> (settled: Result<Vec<JobObject>, String>)
    requires
        res matches Ok(jobs) ==> forall|i: int|
            0 <= i < jobs@.len() ==> in_calendar((#[trigger] jobs@[i]).visible_at as int),
    ensures
        match res {
            Ok(jobs) => match objects_result(jobs@) {
                Ok(objects) => settled matches Ok(described) && described@.map_values(
                    |object: JobObject| object@,
                ) == objects && all_lead_back(jobs@, described@),
                Err(reason) => settled matches Err(thrown) && thrown@ == reason,
            },
            Err(error) => settled matches Err(thrown) && thrown@ == worded(error),
        },
{
    match res {
        Ok(jobs) => jobs_to_array(&jobs),
        Err(error) => Err(error.to_string()),
    }
}

/// The lease key for a job id and a lease id that has been parsed, or the error that is thrown
/// because it is no UUID.
pub fn lease_of(job_id: i64, lease_id: &str, parsed: Result<u128, String>) -> (lease: Result<
    LeaseKey,
    String,
>)
    ensures
        match parsed {
            Ok(id) => lease == Ok::<LeaseKey, String>(LeaseKey { job_id, lease_id: id }),
            Err(reason) => lease matches Err(thrown) && thrown@ == "invalid leaseId '"@ + lease_id@
                + "': "@ + reason@,
        },
{
    match parsed {
        Ok(id) => Ok(LeaseKey { job_id, lease_id: id }),
        Err(reason) => {
            let mut thrown: String = "invalid leaseId '".to_owned();
            thrown.append(lease_id);
            thrown.append("': ");
            thrown.append(reason.as_str());
            Err(thrown)
        },
    }
}

/// The lease key that an object with a job id and the text of a lease id stands for.
pub fn extract_lease(job_id: i64, lease_id: &str) -> (lease: Result<LeaseKey, String>)
    ensures
        match extracted_lease(job_id, lease_id@) {
            Ok(key) => lease == Ok::<LeaseKey, String>(key),
            Err(reason) => lease matches Err(thrown) && thrown@ == reason,
        },
{
    let parsed: Result<u128, String> = parse_uuid(lease_id);
    lease_of(job_id, lease_id, parsed)
}

/// The payload that was parsed, or the error that is thrown because its text is no JSON.
pub fn payload_of(parsed: Result<Value, String>) -> (payload: Result<Value, String>)
    ensures
        match parsed {
            Ok(value) => payload == Ok::<Value, String>(value),
            Err(reason) => payload matches Err(thrown) && thrown@ == "invalid payload JSON: "@
                + reason@,
        },
{
    match parsed {
        Ok(value) => Ok(value),
        Err(reason) => {
            let mut thrown: String = "invalid payload JSON: ".to_owned();
            thrown.append(reason.as_str());
            Err(thrown)
        },
    }
}

/// The payload that a JSON text stands for.
pub fn extract_payload(payload_json: &str) -> (payload: Result<Value, String>)
    ensures
        match parsed_json(payload_json@) {
            Ok(value) => payload == Ok::<Value, String>(value),
            Err(reason) => payload matches Err(thrown) && thrown@ == "invalid payload JSON: "@
                + reason,
        },
{
    let parsed: Result<Value, String> = parse_json(payload_json);
    payload_of(parsed)
}

} // verus!
