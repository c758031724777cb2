//! What JavaScript and Python get to see.

use serde_json::Value;
use slonq::js::{
    describe_job, extract_lease, extract_payload, job_to_object, jobs_to_array, lease_of,
    payload_of, settle_jobs, settle_optional_job, status_str,
};
use slonq::python::{load_payload, PyJob, PyJobStatus, PyLeaseKey};
use slonq::{Job, JobStatus, LeaseKey, QueueError};

const LEASE_ID: u128 = 0x67e5_5044_10b1_426f_9247_bb68_0e5f_e0c8;
const LEASE_TEXT: &str = "67e55044-10b1-426f-9247-bb680e5fe0c8";

fn leased_job() -> Job {
    Job {
        id: 42,
        idempotency_key: "unique-request-id-123".to_string(),
        status: JobStatus::InProgress,
        payload: serde_json::from_str(r#"{ "type": "process_video", "n": [1, 2.5, null] }"#)
            .unwrap(),
        visible_at: 1_500_000,
        attempt_count: 2,
        lease_timeout_seconds: 300,
        lease_id: Some(LEASE_ID),
        leased_by: Some("worker-01".to_string()),
        created_at: 0,
        updated_at: 0,
    }
}

fn idle_job() -> Job {
    let mut job = leased_job();
    job.status = JobStatus::Pending;
    job.lease_id = None;
    job.leased_by = None;
    job
}

#[test]
fn status_labels() {
    assert_eq!(status_str(JobStatus::Pending), "pending");
    assert_eq!(status_str(JobStatus::InProgress), "in_progress");
    assert_eq!(status_str(JobStatus::Done), "done");
    assert_eq!(status_str(JobStatus::Failed), "failed");
}

#[test]
fn object_of_a_leased_job() {
    let object = job_to_object(&leased_job()).unwrap();
    assert_eq!(object.id, 42);
    assert_eq!(object.idempotency_key, "unique-request-id-123");
    assert_eq!(object.status, "in_progress");
    assert_eq!(object.payload_json, r#"{"n":[1,2.5,null],"type":"process_video"}"#);
    assert_eq!(object.visible_at, "1970-01-01T00:00:01.500+00:00");
    assert_eq!(object.attempt_count, 2);
    assert_eq!(object.lease_timeout_seconds, 300);
    assert_eq!(object.lease_id.as_deref(), Some(LEASE_TEXT));
}

#[test]
fn object_of_an_idle_job_has_no_lease() {
    assert_eq!(job_to_object(&idle_job()).unwrap().lease_id, None);
}

#[test]
fn described_job_takes_the_texts_as_they_are() {
    let object = describe_job(&idle_job(), Ok("{}".to_string()), "soon".to_string()).unwrap();
    assert_eq!(object.payload_json, "{}");
    assert_eq!(object.visible_at, "soon");
    let thrown = describe_job(&idle_job(), Err("bad".to_string()), "soon".to_string()).unwrap_err();
    assert_eq!(thrown, "bad");
}

#[test]
fn lease_survives_the_round_trip() {
    let job = leased_job();
    let object = job_to_object(&job).unwrap();
    let lease = extract_lease(object.id, &object.lease_id.unwrap()).unwrap();
    assert_eq!(Some(lease), job.lease_key());
    for id in [0, 1, u128::MAX, 1 << 127] {
        let text = PyLeaseKey { inner: LeaseKey { job_id: 1, lease_id: id } }.lease_id();
        assert_eq!(text.len(), 36);
        assert_eq!(extract_lease(1, &text), Ok(LeaseKey { job_id: 1, lease_id: id }));
    }
}

#[test]
fn lease_id_may_have_other_forms() {
    let expected = Ok(LeaseKey { job_id: 9, lease_id: LEASE_ID });
    assert_eq!(extract_lease(9, "67E5504410B1426F9247BB680E5FE0C8"), expected);
    assert_eq!(extract_lease(9, "urn:uuid:67e55044-10b1-426f-9247-bb680e5fe0c8"), expected);
}

#[test]
fn bad_lease_id_is_named() {
    let thrown = extract_lease(9, "nope").unwrap_err();
    let reason = format!("{}", uuid::Uuid::parse_str("nope").unwrap_err());
    assert_eq!(thrown, format!("invalid leaseId 'nope': {}", reason));
    assert_eq!(
        lease_of(9, "x", Err("no".to_string())).unwrap_err(),
        "invalid leaseId 'x': no"
    );
    assert_eq!(lease_of(9, "x", Ok(3)), Ok(LeaseKey { job_id: 9, lease_id: 3 }));
}

#[test]
fn payload_is_parsed() {
    assert_eq!(extract_payload("true"), Ok(Value::Bool(true)));
    assert_eq!(load_payload(" null "), Ok(Value::Null));
    let reason = format!("{}", serde_json::from_str::<Value>("{").unwrap_err());
    assert_eq!(extract_payload("{"), Err(format!("invalid payload JSON: {}", reason)));
    assert_eq!(load_payload("{"), Err(reason));
    assert_eq!(
        payload_of(Err("no".to_string())),
        Err("invalid payload JSON: no".to_string())
    );
    assert_eq!(payload_of(Ok(Value::Null)), Ok(Value::Null));
}

#[test]
fn arrays_keep_the_order() {
    let array = jobs_to_array(&vec![leased_job(), idle_job()]).unwrap();
    assert_eq!(array.len(), 2);
    assert_eq!(array[0].status, "in_progress");
    assert_eq!(array[1].status, "pending");
    assert!(jobs_to_array(&vec![]).unwrap().is_empty());
}

#[test]
fn promises_settle() {
    let settled = settle_optional_job(Ok(Some(leased_job()))).unwrap();
    assert_eq!(settled.unwrap().id, 42);
    assert!(settle_optional_job(Ok(None)).unwrap().is_none());
    let refused = || QueueError::InvalidArgument("lease_seconds must be > 0".to_string());
    assert_eq!(
        settle_optional_job(Err(refused())).unwrap_err(),
        "invalid argument: lease_seconds must be > 0"
    );
    assert_eq!(settle_jobs(Ok(vec![idle_job()])).unwrap().len(), 1);
    assert_eq!(
        settle_jobs(Err(refused())).unwrap_err(),
        "invalid argument: lease_seconds must be > 0"
    );
}

#[test]
fn python_statuses() {
    let shown = |status| PyJobStatus::from(status).__repr__();
    assert_eq!(shown(JobStatus::Pending), "JobStatus.Pending");
    assert_eq!(shown(JobStatus::InProgress), "JobStatus.InProgress");
    assert_eq!(shown(JobStatus::Done), "JobStatus.Done");
    assert_eq!(shown(JobStatus::Failed), "JobStatus.Failed");
}

#[test]
fn python_job() {
    let job = PyJob { inner: leased_job() };
    assert_eq!(job.id(), 42);
    assert_eq!(job.idempotency_key(), "unique-request-id-123");
    assert_eq!(job.status(), PyJobStatus::InProgress);
    assert_eq!(job.payload().unwrap(), r#"{"n":[1,2.5,null],"type":"process_video"}"#);
    assert_eq!(job.visible_at(), "1970-01-01T00:00:01.500+00:00");
    assert_eq!(job.attempt_count(), 2);
    assert_eq!(job.lease_timeout_seconds(), 300);
    let key = job.lease_key().unwrap();
    assert_eq!(key.job_id(), 42);
    assert_eq!(key.lease_id(), LEASE_TEXT);
    assert!(PyJob { inner: idle_job() }.lease_key().is_none());
}
