//! Backends which can be used to store data.
//! The backends implement `DequeuBackend`, `EnqueuBackend` and `CommitBackend`;
//! they can be used in `Consumer`, `Producer` and `Committer`.
pub mod memory;
pub mod queue_laws;
pub mod redis_queue;
pub mod redis_json;
pub mod server_info;
pub mod version_laws;
