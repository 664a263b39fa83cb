//! Types and traits that are commonly used in the library.
pub use crate::backend::{CommitBackend, DequeuBackend, EnqueuBackend};
pub use crate::backends::memory::MemoryQueue;
pub use crate::backends::redis_json::JsonRedisBackend;
pub use crate::backends::redis_queue::{RedisBackend, RedisBackendConfig};
pub use crate::committer::Committer;
pub use crate::consumer::Consumer;
pub use crate::producer::Producer;
pub use crate::taskline::{Taskline, TasklineConfig};
