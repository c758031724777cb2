//! What jobs, leases and errors say, in the library and for the other languages.

use crate::error::{worded, QueueError};
use crate::job::{job_views, Job, JobStatus, JobView, LeaseKey};
use crate::js::{
    all_lead_back, extracted_lease, leads_back, object_of, object_result, objects_result, status_text,
    JobObject, JobObjectView,
};
use crate::outside::{hyphenated, in_calendar, parsed_uuid, reported, rfc3339, written_json};
use vstd::prelude::*;

verus! {

/// What a job says is what it holds, in every column.
pub proof fn job_says_what_it_holds(job: Job)
    ensures
        job@.id == job.id,
        job@.idempotency_key == job.idempotency_key@,
        job@.status == job.status,
        job@.payload == job.payload,
        job@.visible_at == job.visible_at,
        job@.attempt_count == job.attempt_count,
        job@.lease_timeout_seconds == job.lease_timeout_seconds,
        job@.lease_id == job.lease_id,
        job.leased_by is None ==> job@.leased_by is None,
        job.leased_by matches Some(worker) ==> job@.leased_by == Some(worker@),
        job@.created_at == job.created_at,
        job@.updated_at == job.updated_at,
{
}

/// What jobs say is what each of them says, in order.
pub proof fn jobs_say_what_each_says(jobs: Seq<Job>, i: int)
    requires
        0 <= i < jobs.len(),
    ensures
        job_views(jobs).len() == jobs.len(),
        job_views(jobs)[i] == jobs[i]@,
{
}

/// What an object says is what it holds.
pub proof fn object_says_what_it_holds(object: JobObject)
    ensures
        object@.id == object.id,
        object@.idempotency_key == object.idempotency_key@,
        object@.status == object.status@,
        object@.payload_json == object.payload_json@,
        object@.visible_at == object.visible_at@,
        object@.attempt_count == object.attempt_count,
        object@.lease_timeout_seconds == object.lease_timeout_seconds,
        object.lease_id is None ==> object@.lease_id is None,
        object.lease_id matches Some(text) ==> object@.lease_id == Some(text@),
{
}

/// The object for a job has what the job has: its numbers and its key as they are, its status by the
/// label in the database, its payload as JSON, its time of visibility by RFC 3339, and its lease id
/// while it is leased. It cannot be had if and only if the payload cannot be written, and the reason
/// for that is what is thrown.
pub proof fn object_shows_its_job(job: Job)
    ensures
        match written_json(job.payload) {
            Ok(json) => object_result(job) matches Ok(object) && {
                &&& object.id == job.id
                &&& object.idempotency_key == job.idempotency_key@
                &&& job.status == JobStatus::Pending ==> object.status == "pending"@
                &&& job.status == JobStatus::InProgress ==> object.status == "in_progress"@
                &&& job.status == JobStatus::Done ==> object.status == "done"@
                &&& job.status == JobStatus::Failed ==> object.status == "failed"@
                &&& object.payload_json == json
                &&& object.visible_at == rfc3339(job.visible_at)
                &&& object.attempt_count == job.attempt_count
                &&& object.lease_timeout_seconds == job.lease_timeout_seconds
                &&& job.lease_id is None ==> object.lease_id is None
                &&& job.lease_id matches Some(id) ==> object.lease_id == Some(hyphenated(id))
            },
            Err(reason) => object_result(job) matches Err(thrown) && thrown == reason,
        },
{
}

/// The object for a job takes the texts of its payload and of its time as they are, whatever they are,
/// and all else from the job.
pub proof fn object_takes_its_texts_as_they_are(
    job: JobView,
    payload_json: Seq<char>,
    visible_at: Seq<char>,
)
    ensures
        ({
            let object = object_of(job, payload_json, visible_at);
            &&& object.payload_json == payload_json
            &&& object.visible_at == visible_at
            &&& object.id == job.id
            &&& object.idempotency_key == job.idempotency_key
            &&& object.status == status_text(job.status)
            &&& object.attempt_count == job.attempt_count
            &&& object.lease_timeout_seconds == job.lease_timeout_seconds
            &&& job.lease_id is None ==> object.lease_id is None
            &&& job.lease_id matches Some(id) ==> object.lease_id == Some(hyphenated(id))
        }),
{
}

/// The text of a status is its label in the database, and tells the statuses apart.
pub proof fn status_text_is_the_label(status: JobStatus)
    ensures
        status == JobStatus::Pending ==> status_text(status) == "pending"@,
        status == JobStatus::InProgress ==> status_text(status) == "in_progress"@,
        status == JobStatus::Done ==> status_text(status) == "done"@,
        status == JobStatus::Failed ==> status_text(status) == "failed"@,
{
}

/// The objects for jobs can be had if and only if each of them can; then there is one for each job,
/// at the job's place. Else what is thrown is what the first job without an object throws.
pub proof fn array_shows_its_jobs(jobs: Seq<Job>)
    ensures
        (forall|i: int| 0 <= i < jobs.len() ==> object_result(#[trigger] jobs[i]) is Ok)
            <==> objects_result(jobs) is Ok,
        objects_result(jobs) matches Ok(objects) ==> {
            &&& objects.len() == jobs.len()
            &&& forall|i: int|
                0 <= i < jobs.len() ==> object_result(jobs[i]) == Ok::<JobObjectView, Seq<char>>(
                    #[trigger] objects[i],
                )
        },
        objects_result(jobs) matches Err(thrown) ==> exists|i: int|
            0 <= i < jobs.len() && object_result(#[trigger] jobs[i]) == Err::<
                JobObjectView,
                Seq<char>,
            >(thrown) && forall|j: int| 0 <= j < i ==> object_result(#[trigger] jobs[j]) is Ok,
    decreases jobs.len(),
{
    if jobs.len() > 0 {
        let rest = jobs.drop_last();
        let last = jobs.len() - 1;
        array_shows_its_jobs(rest);
        match objects_result(rest) {
            Err(thrown) => {
                let i = choose|i: int|
                    0 <= i < rest.len() && object_result(#[trigger] rest[i]) == Err::<
                        JobObjectView,
                        Seq<char>,
                    >(thrown) && forall|j: int|
                        0 <= j < i ==> object_result(#[trigger] rest[j]) is Ok;
                assert(object_result(jobs[i]) is Err);
                assert forall|j: int| 0 <= j < i implies object_result(
                    #[trigger] jobs[j],
                ) is Ok by {
                    assert(object_result(rest[j]) is Ok);
                }
            },
            Ok(objects) => {
                assert forall|j: int| 0 <= j < last implies object_result(
                    #[trigger] jobs[j],
                ) is Ok by {
                    assert(object_result(rest[j]) is Ok);
                }
                match object_result(jobs[last]) {
                    Ok(object) => {
                        let all = objects.push(object);
                        assert(objects_result(jobs) == Ok::<Seq<JobObjectView>, Seq<char>>(all));
                        assert forall|i: int| 0 <= i < jobs.len() implies object_result(jobs[i])
                            == Ok::<JobObjectView, Seq<char>>(#[trigger] all[i]) by {
                            if i < last {
                                assert(object_result(rest[i]) == Ok::<JobObjectView, Seq<char>>(
                                    objects[i],
                                ));
                            }
                        }
                    },
                    Err(thrown) => {},
                }
            },
        }
    }
}

/// A lease key comes of a text if and only if the text is a UUID; it then has the job id that was
/// given and that UUID. Else what is thrown names the text and the reason.
pub proof fn lease_comes_of_its_text(job_id: i64, lease_id: Seq<char>)
    ensures
        match parsed_uuid(lease_id) {
            Ok(id) => extracted_lease(job_id, lease_id) matches Ok(lease) && lease.job_id == job_id
                && lease.lease_id == id,
            Err(reason) => extracted_lease(job_id, lease_id) matches Err(thrown) && thrown
                == "invalid leaseId '"@ + lease_id + "': "@ + reason,
        },
{
}

/// A lease id in text that leads back to its job is that of the job's lease: what is made of it and
/// the job id is the lease under which the job is held.
pub proof fn lease_id_leads_back_to_the_lease(job: Job, lease_id: Option<String>)
    requires
        leads_back(job, lease_id),
        lease_id is Some,
    ensures
        job.lease_id is Some,
        parsed_uuid(lease_id->0@) == Ok::<u128, Seq<char>>(job.lease_id->0),
        extracted_lease(job.id, lease_id->0@) == Ok::<LeaseKey, Seq<char>>(
            LeaseKey { job_id: job.id, lease_id: job.lease_id->0 },
        ),
{
}

/// Objects whose lease ids lead back do so one by one.
pub proof fn lease_ids_lead_back_one_by_one(jobs: Seq<Job>, objects: Seq<JobObject>, i: int)
    requires
        all_lead_back(jobs, objects),
        0 <= i < jobs.len(),
    ensures
        objects.len() == jobs.len(),
        leads_back(jobs[i], objects[i].lease_id),
{
}

/// An error in words is what kind it is, a colon, and what the database or the argument has to say.
pub proof fn error_words_give_the_cause(error: QueueError)
    ensures
        error matches QueueError::Postgres(e) ==> worded(error) == "postgres error: "@ + reported(
            e,
        ),
        error matches QueueError::InvalidArgument(reason) ==> worded(error)
            == "invalid argument: "@ + reason@,
{
}

/// The calendar reaches from the year -262143 to the year 262142, both in full.
pub proof fn calendar_spans_its_years(micros: int)
    ensures
        in_calendar(micros) <==> -8_334_601_228_800_000_000 <= micros
            <= 8_210_266_876_799_999_999,
{
}

} // verus!
