//! Committer of tasks: removes handled tasks from a queue.
use std::marker::PhantomData;

use vstd::prelude::*;

use crate::backend::CommitBackend;

verus! {

/// Committer of tasks over a backend that removes them.
/// R, E - types of task and error.
pub struct Committer<T, R, E> where T: CommitBackend<R, E> {
    backend: T,
    _phantom_request: PhantomData<R>,
    _phantom_error: PhantomData<E>,
}

impl<T, R, E> Committer<T, R, E> where T: CommitBackend<R, E> {
    /// The backend the committer removes from.
    pub closed spec fn backend(self) -> T {
        self.backend
    }

    /// Creates a committer over `backend`.
    pub fn new(backend: T) -> (r: Committer<T, R, E>)
        ensures
            r.backend() == backend,
    {
        Committer { backend, _phantom_request: PhantomData, _phantom_error: PhantomData }
    }

    /// Commits a handled `task`: removes it through the backend and gives back what the
    /// backend answered.
    pub fn commit(&mut self, task: &R) -> (res: Result<(), E>)
        ensures
            old(self).backend().committed(*task, final(self).backend(), res),
    {
        self.backend.commit(task)
    }
}

} // verus!
