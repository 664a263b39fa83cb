//! Consumer of tasks: polls a queue for due tasks.
use std::marker::PhantomData;

use vstd::prelude::*;

use crate::backend::DequeuBackend;

verus! {

/// Consumer of tasks over a backend that dequeues them.
/// R, S, E - types of task, score and error.
pub struct Consumer<T, R, S, E> where T: DequeuBackend<R, S, E> {
    backend: T,
    _phantom_request: PhantomData<R>,
    _phantom_score: PhantomData<S>,
    _phantom_error: PhantomData<E>,
}

impl<T, R, S, E> Consumer<T, R, S, E> where T: DequeuBackend<R, S, E> {
    /// The backend the consumer polls.
    pub closed spec fn backend(self) -> T {
        self.backend
    }

    /// Creates a consumer over `backend`.
    pub fn new(backend: T) -> (r: Consumer<T, R, S, E>)
        ensures
            r.backend() == backend,
    {
        Consumer {
            backend,
            _phantom_request: PhantomData,
            _phantom_score: PhantomData,
            _phantom_error: PhantomData,
        }
    }

    /// Polls the tasks that are due at `score`: the backend's answer, an empty vector
    /// where no task is due.
    pub fn poll(&self, score: &S) -> (res: Result<Vec<R>, E>)
        ensures
            self.backend().dequeued(*score, res),
    {
        self.backend.dequeue(score)
    }
}

} // verus!
