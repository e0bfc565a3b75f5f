//! Follow-up scheduling and delivery engine.
//!
//! The engine decides which follow-up emails are due, queues each of them
//! at most once, hands them out to delivery workers one at a time, and
//! applies the outcome of every delivery attempt: retry with backoff,
//! abandon, or done. It performs no I/O. The caller supplies the clock,
//! the randomness for jitter and the result of each send, and persists
//! the state between runs.

pub mod audit;
pub mod backoff;
pub mod config;
pub mod engine;
pub mod error;
pub mod greeting;
pub mod model;
pub mod queue;
pub mod rules;
pub mod store;
pub mod text;
