//! What the queue's operations ask of the database.

use serde_json::Value;
use slonq::outside::fits_calendar;
use slonq::statement::{
    Delay, Param, Statement, ACK_BATCH_SQL, ACK_SQL, DEQUEUE_SQL, ENQUEUE_SQL, NACK_SQL, TOUCH_SQL,
};
use slonq::{Job, JobStatus, LeaseKey, PgQueue, QueueError};

const LEASE: LeaseKey = LeaseKey { job_id: 7, lease_id: 0xfeed };

fn reason(asked: Result<Statement, QueueError>) -> String {
    match asked {
        Err(QueueError::InvalidArgument(reason)) => reason,
        other => panic!("not refused: {:?}", other),
    }
}

fn job(id: i64) -> Job {
    Job {
        id,
        idempotency_key: "key".to_string(),
        status: JobStatus::Pending,
        payload: Value::Null,
        visible_at: 0,
        attempt_count: 0,
        lease_timeout_seconds: 60,
        lease_id: None,
        leased_by: None,
        created_at: 0,
        updated_at: 0,
    }
}

#[test]
fn enqueue_asks_for_an_insert() {
    let payload = Value::String("send_email".to_string());
    let statement = PgQueue::enqueue("unique-key", payload.clone(), 300, Some(5)).unwrap();
    assert_eq!(statement.sql(), ENQUEUE_SQL);
    assert!(statement.sql().contains("ON CONFLICT (idempotency_key) DO NOTHING"));
    assert_eq!(statement.params.len(), 4);
    assert!(matches!(&statement.params[0], Param::Text(key) if key == "unique-key"));
    assert!(matches!(&statement.params[1], Param::Json(value) if *value == payload));
    assert!(matches!(&statement.params[2], Param::Int(300)));
    assert!(matches!(&statement.params[3], Param::Timestamp(Some(5))));

    let statement = PgQueue::enqueue("unique-key", payload, 1, None).unwrap();
    assert!(matches!(&statement.params[3], Param::Timestamp(None)));
}

#[test]
fn enqueue_refuses_a_lease_without_length() {
    for seconds in [0, -1, i32::MIN] {
        assert_eq!(
            reason(PgQueue::enqueue("k", Value::Null, seconds, None)),
            "lease_timeout_seconds must be > 0"
        );
    }
}

#[test]
fn dequeue_asks_for_a_batch() {
    let statement = PgQueue::dequeue("worker-1", 5, 3).unwrap();
    assert_eq!(statement.sql(), DEQUEUE_SQL);
    assert!(statement.sql().contains("FOR UPDATE SKIP LOCKED"));
    assert_eq!(statement.params.len(), 3);
    assert!(matches!(&statement.params[0], Param::Int(3)));
    assert!(matches!(&statement.params[1], Param::BigInt(5)));
    assert!(matches!(&statement.params[2], Param::Text(worker) if worker == "worker-1"));
}

#[test]
fn dequeue_refuses_empty_batches_and_no_attempts() {
    assert_eq!(reason(PgQueue::dequeue("w", 0, 3)), "batch_size must be > 0");
    assert_eq!(reason(PgQueue::dequeue("w", -2, 0)), "batch_size must be > 0");
    assert_eq!(reason(PgQueue::dequeue("w", 1, 0)), "max_attempts must be > 0");
    assert_eq!(reason(PgQueue::dequeue("w", 1, -1)), "max_attempts must be > 0");
}

#[test]
fn ack_names_the_lease() {
    let statement = PgQueue::ack(LEASE);
    assert_eq!(statement.sql(), ACK_SQL);
    assert_eq!(statement.params.len(), 2);
    assert!(matches!(&statement.params[0], Param::BigInt(7)));
    assert!(matches!(&statement.params[1], Param::Uuid(0xfeed)));
}

#[test]
fn ack_batch_pairs_ids() {
    assert!(PgQueue::ack_batch(&[]).is_none());
    let other = LeaseKey { job_id: 8, lease_id: 0xbeef };
    let statement = PgQueue::ack_batch(&[LEASE, other]).unwrap();
    assert_eq!(statement.sql(), ACK_BATCH_SQL);
    assert_eq!(statement.params.len(), 2);
    assert!(matches!(&statement.params[0], Param::BigInts(ids) if *ids == vec![7, 8]));
    assert!(matches!(&statement.params[1], Param::Uuids(ids) if *ids == vec![0xfeed, 0xbeef]));
}

#[test]
fn nack_hands_the_delay_on() {
    let delay = Delay { secs: 10, nanos: 500_000_000 };
    let statement = PgQueue::nack(LEASE, 3, Some(delay)).unwrap();
    assert_eq!(statement.sql(), NACK_SQL);
    assert_eq!(statement.params.len(), 4);
    assert!(matches!(&statement.params[0], Param::BigInt(7)));
    assert!(matches!(&statement.params[1], Param::Uuid(0xfeed)));
    assert!(matches!(&statement.params[2], Param::Int(3)));
    assert!(matches!(&statement.params[3], Param::Seconds(span) if *span == delay));

    let statement = PgQueue::nack(LEASE, 1, None).unwrap();
    let none = Delay { secs: 0, nanos: 0 };
    assert!(matches!(&statement.params[3], Param::Seconds(span) if *span == none));
}

#[test]
fn nack_refuses_no_attempts() {
    assert_eq!(reason(PgQueue::nack(LEASE, 0, None)), "max_attempts must be > 0");
}

#[test]
fn touch_hands_the_seconds_on() {
    let statement = PgQueue::touch(LEASE, 60).unwrap();
    assert_eq!(statement.sql(), TOUCH_SQL);
    assert_eq!(statement.params.len(), 3);
    let minute = Delay { secs: 60, nanos: 0 };
    assert!(matches!(&statement.params[2], Param::Seconds(span) if *span == minute));
}

#[test]
fn touch_refuses_no_time() {
    assert_eq!(reason(PgQueue::touch(LEASE, 0)), "lease_seconds must be > 0");
    assert_eq!(reason(PgQueue::touch(LEASE, -5)), "lease_seconds must be > 0");
}

#[test]
fn first_row_is_the_updated_job() {
    assert!(PgQueue::updated_job(vec![]).is_none());
    assert_eq!(PgQueue::updated_job(vec![job(4), job(5)]).unwrap().id, 4);
}

#[test]
fn lease_key_needs_a_lease() {
    let mut leased = job(3);
    assert_eq!(leased.lease_key(), None);
    leased.lease_id = Some(11);
    assert_eq!(leased.lease_key(), Some(LeaseKey { job_id: 3, lease_id: 11 }));
}

#[test]
fn clone_keeps_every_field() {
    let mut original = job(3);
    original.payload = Value::Bool(true);
    original.lease_id = Some(1);
    original.leased_by = Some("w".to_string());
    original.visible_at = -4;
    assert_eq!(format!("{:?}", original.clone()), format!("{:?}", original));
}

#[test]
fn errors_in_words() {
    let refused = PgQueue::dequeue("w", 0, 1).unwrap_err();
    assert_eq!(refused.to_string(), "invalid argument: batch_size must be > 0");
    assert!(refused.source().is_none());

    let failure = "port=none".parse::<tokio_postgres::Config>().unwrap_err();
    let report = format!("{}", failure);
    assert!(report.contains("invalid connection string"));
    let error = QueueError::from(failure);
    assert!(matches!(&error, QueueError::Postgres(_)));
    assert_eq!(error.to_string(), format!("postgres error: {}", report));
    assert_eq!(format!("{}", error.source().unwrap()), report);
    assert_eq!(slonq::error::postgres_message("down"), "postgres error: down");
}

#[test]
fn calendar_is_that_of_chrono() {
    for micros in [
        i64::MIN,
        slonq::outside::CALENDAR_START - 1,
        slonq::outside::CALENDAR_START,
        0,
        slonq::outside::CALENDAR_END,
        slonq::outside::CALENDAR_END + 1,
        i64::MAX,
    ] {
        assert_eq!(
            fits_calendar(micros),
            chrono::DateTime::<chrono::Utc>::from_timestamp_micros(micros).is_some()
        );
    }
}

#[test]
fn statements_in_full() {
    assert_eq!(
        ENQUEUE_SQL,
        r#"
        INSERT INTO jobs (idempotency_key, payload, lease_timeout_seconds, visible_at)
        VALUES ($1, $2, $3, COALESCE($4, now()))
        ON CONFLICT (idempotency_key) DO NOTHING
        RETURNING *;
    "#
    );
    assert_eq!(
        DEQUEUE_SQL,
        r#"
        WITH exhausted AS (
            SELECT id
            FROM jobs
            WHERE status = 'in_progress'
              AND visible_at <= now()
              AND attempt_count >= $1
            FOR UPDATE SKIP LOCKED
        ),
        mark_failed AS (
            UPDATE jobs
            SET status     = 'failed',
                updated_at = now(),
                lease_id   = NULL,
                leased_by  = NULL
            FROM exhausted
            WHERE jobs.id = exhausted.id
            RETURNING jobs.id
        ),
        next_job AS (
            SELECT id
            FROM jobs
            WHERE status IN ('pending', 'in_progress')
              AND visible_at <= now()
              AND attempt_count < $1
            ORDER BY visible_at, created_at, id
            LIMIT $2
            FOR UPDATE SKIP LOCKED
        )
        UPDATE jobs
        SET status        = 'in_progress',
            updated_at    = now(),
            visible_at    = now() + make_interval(secs => lease_timeout_seconds::float8),
            attempt_count = attempt_count + 1,
            lease_id      = gen_random_uuid(),
            leased_by     = $3
        FROM next_job
        WHERE jobs.id = next_job.id
        RETURNING jobs.*;
    "#
    );
    assert_eq!(
        ACK_SQL,
        r#"
        UPDATE jobs
        SET status     = 'done',
            updated_at = now(),
            lease_id   = NULL,
            leased_by  = NULL
        WHERE id = $1
          AND lease_id = $2
          AND status = 'in_progress'
        RETURNING *;
    "#
    );
    assert_eq!(
        ACK_BATCH_SQL,
        r#"
        UPDATE jobs j
        SET status     = 'done',
            updated_at = now(),
            lease_id   = NULL,
            leased_by  = NULL
        FROM unnest($1::bigint[], $2::uuid[]) AS x(id, lease_id)
        WHERE j.id = x.id
          AND j.lease_id = x.lease_id
          AND j.status = 'in_progress'
        RETURNING j.*;
    "#
    );
    assert_eq!(
        NACK_SQL,
        r#"
        UPDATE jobs
        SET status = CASE
                WHEN attempt_count >= $3 THEN 'failed'::job_status
                ELSE 'pending'::job_status
            END,
            updated_at = now(),
            visible_at = CASE
                WHEN attempt_count >= $3 THEN now()
                ELSE now() + make_interval(secs => $4)
            END,
            lease_id = NULL,
            leased_by = NULL
        WHERE id = $1
          AND lease_id = $2
          AND status = 'in_progress'
        RETURNING *;
    "#
    );
    assert_eq!(
        TOUCH_SQL,
        r#"
        UPDATE jobs
        SET visible_at = now() + make_interval(secs => $3),
            updated_at = now()
        WHERE id = $1
          AND lease_id = $2
          AND status = 'in_progress'
        RETURNING *;
    "#
    );
}

#[test]
fn each_operation_has_its_statement() {
    let asked = [
        (PgQueue::enqueue("k", Value::Null, 1, None).unwrap(), ENQUEUE_SQL),
        (PgQueue::dequeue("w", 1, 1).unwrap(), DEQUEUE_SQL),
        (PgQueue::ack(LEASE), ACK_SQL),
        (PgQueue::ack_batch(&[LEASE]).unwrap(), ACK_BATCH_SQL),
        (PgQueue::nack(LEASE, 1, None).unwrap(), NACK_SQL),
        (PgQueue::touch(LEASE, 1).unwrap(), TOUCH_SQL),
    ];
    for (statement, sql) in asked {
        assert_eq!(statement.sql(), sql);
    }
}
