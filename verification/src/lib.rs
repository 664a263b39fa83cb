//! Scheduling of tasks through queues ordered by a score (usually a unix timestamp):
//! producers enqueue tasks, consumers dequeue the ones that are due, committers remove
//! handled ones. Backends keep the queue in memory or in Redis.
pub mod backend;
pub mod backends;
pub mod client;
pub mod committer;
pub mod consumer;
pub mod prelude;
pub mod producer;
pub mod redis_specs;
pub mod taskline;
pub mod tasks;
