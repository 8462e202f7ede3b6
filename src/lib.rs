//! A harness that measures short-lived commands: setup and teardown with
//! retries, timed iterations, resource-usage deltas, metrics reported over a
//! loopback datagram channel, and the resolution of a run's configuration.

pub mod exit;
pub mod retry;
pub mod rusage;
pub mod measure;
pub mod statsd;
pub mod config;
pub mod session;
pub mod summary;
