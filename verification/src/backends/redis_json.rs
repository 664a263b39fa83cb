//! Redis backend whose tasks are JSON texts of values of `T`.
use std::marker::PhantomData;

use vstd::prelude::*;

use crate::backends::redis_queue::RedisBackend;

verus! {

/// Redis backend with JSON serialization: tasks of type `T` are written as their JSON
/// text through the inner `RedisBackend`, whose logic is not changed.
pub struct JsonRedisBackend<T> {
    backend: RedisBackend,
    _phantom: PhantomData<T>,
}

impl<T> JsonRedisBackend<T> {
    /// The inner backend.
    pub closed spec fn backend_spec(&self) -> RedisBackend {
        self.backend
    }

    /// Wraps `backend`.
    pub fn new(backend: RedisBackend) -> (r: Self)
        ensures
            r.backend_spec() == backend,
    {
        JsonRedisBackend { backend, _phantom: PhantomData }
    }

    /// The inner backend, which sends the texts.
    pub fn backend(&self) -> (r: &RedisBackend)
        ensures
            *r == self.backend_spec(),
    {
        &self.backend
    }
}

impl<T> Clone for JsonRedisBackend<T> {
    /// A backend over a clone of the same inner backend.
    fn clone(&self) -> (r: Self)
        ensures
            r.backend_spec() == self.backend_spec(),
    {
        JsonRedisBackend { backend: self.backend.clone(), _phantom: PhantomData }
    }
}

} // verus!
