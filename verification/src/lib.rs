//! `slonq` is a PostgreSQL-backed queue implementation.
//!
//! It provides a reliable way to enqueue, dequeue, and manage jobs using PostgreSQL
//! as the storage and coordination engine. It supports job visibility timeouts,
//! retries, and batch acknowledgements.
//!
//! - [`queue`] and [`statement`]: what each operation asks of the database, with what each statement
//!   carries in [`statement_laws`].
//! - [`job`] and [`error`]: what comes back.
//! - [`table`] and [`rows`]: what the statements say, done to a table in memory, with what holds of
//!   each column in [`effects`], of the statements together in [`table_laws`], and over any sequence
//!   of them in [`histories`].
//! - [`reading`]: which step on the table each statement stands for.
//! - [`model`] and [`properties`]: the queue and its workers as a state machine, with the proof of
//!   its safety in [`model_laws`], and what each action does in [`transitions`].
//! - [`js`] and [`python`]: the shapes that jobs have in other languages, with what they show in
//!   [`binding_laws`].
//! - [`outside`]: the calls into other crates.

pub mod binding_laws;
pub mod effects;
pub mod error;
pub mod histories;
pub mod job;
pub mod js;
pub mod model;
pub mod model_laws;
pub mod outside;
pub mod properties;
pub mod python;
pub mod queue;
pub mod reading;
pub mod rows;
pub mod statement;
pub mod statement_laws;
pub mod table;
pub mod table_laws;
pub mod transitions;

pub use crate::error::QueueError;
pub use crate::job::{Job, JobStatus, LeaseKey};
pub use crate::queue::PgQueue;
