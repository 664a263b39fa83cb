//! Producer of tasks: schedules tasks into a queue.
use std::marker::PhantomData;

use vstd::prelude::*;

use crate::backend::EnqueuBackend;

verus! {

/// Producer of tasks over a backend that enqueues them.
/// R, S, E - types of task, score and error.
pub struct Producer<T, R, S, E> where T: EnqueuBackend<R, S, E> {
    backend: T,
    _phantom_request: PhantomData<R>,
    _phantom_score: PhantomData<S>,
    _phantom_error: PhantomData<E>,
}

impl<T, R, S, E> Producer<T, R, S, E> where T: EnqueuBackend<R, S, E> {
    /// The backend the producer schedules into.
    pub closed spec fn backend(self) -> T {
        self.backend
    }

    /// Creates a producer over `backend`.
    pub fn new(backend: T) -> (r: Producer<T, R, S, E>)
        ensures
            r.backend() == backend,
    {
        Producer {
            backend,
            _phantom_request: PhantomData,
            _phantom_score: PhantomData,
            _phantom_error: PhantomData,
        }
    }

    /// Schedules `task` at `score`: enqueues it in the backend and gives back what the
    /// backend answered.
    pub fn schedule(&mut self, task: &R, score: &S) -> (res: Result<(), E>)
        ensures
            old(self).backend().enqueued(*task, *score, final(self).backend(), res),
    {
        self.backend.enqueue(task, score)
    }
}

} // verus!
