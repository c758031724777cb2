//! What can go wrong when a queue operation is asked for.

use crate::outside::{postgres_error_text, reported};
use vstd::prelude::*;

verus! {

/// Errors that can occur during queue operations.
#[derive(Debug)]
pub enum QueueError {
    /// An error occurred in the underlying PostgreSQL database.
    ///
    /// This could be due to connection issues, syntax errors in SQL,
    /// or other database-level failures.
    Postgres(tokio_postgres::Error),
    /// An invalid argument was provided to a queue method.
    ///
    /// For example, providing a non-positive `batch_size` or `max_attempts`.
    InvalidArgument(String),
}

impl From<tokio_postgres::Error> for QueueError {
    fn from(e: tokio_postgres::Error) -> (error: QueueError) {
        QueueError::Postgres(e)
    }
}

impl vstd::std_specs::convert::FromSpecImpl<tokio_postgres::Error> for QueueError {
    open spec fn obeys_from_spec() -> bool {
        true
    }

    open spec fn from_spec(e: tokio_postgres::Error) -> QueueError {
        QueueError::Postgres(e)
    }
}

/// The text of a database failure that reports itself as `report`.
pub fn postgres_message(report: &str) -> (text: String)
    ensures
        text@ == "postgres error: "@ + report@,
{
    let mut text: String = "postgres error: ".to_owned();
    text.append(report);
    text
}

/// The error in words.
pub open spec fn worded(error: QueueError) -> Seq<char> {
    match error {
        QueueError::Postgres(e) => "postgres error: "@ + reported(e),
        QueueError::InvalidArgument(reason) => "invalid argument: "@ + reason@,
    }
}

impl QueueError {
    /// The error in words.
    pub fn to_string(&self) -> (text: String)
        ensures
            text@ == worded(*self),
    {
        match self {
            QueueError::Postgres(e) => {
                let report: String = postgres_error_text(e);
                postgres_message(report.as_str())
            },
            QueueError::InvalidArgument(reason) => {
                let mut text: String = "invalid argument: ".to_owned();
                text.append(reason.as_str());
                text
            },
        }
    }

    /// The database failure behind the error, if there is one.
    pub fn source(&self) -> (cause: Option<&tokio_postgres::Error>)
        ensures
            cause == match *self {
                QueueError::Postgres(e) => Some(&e),
                QueueError::InvalidArgument(_) => None,
            },
    {
        match self {
            QueueError::Postgres(e) => Some(e),
            QueueError::InvalidArgument(_) => None,
        }
    }
}

} // verus!
