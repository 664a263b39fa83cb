//! Client that puts named tasks into a queue.
use std::marker::PhantomData;

use vstd::prelude::*;

use crate::backend::EnqueuBackend;
use crate::tasks::QueuedTask;

verus! {

/// Task client over a backend that enqueues queued tasks; it does not order them by a score.
pub struct TaskClient<T, E> where T: EnqueuBackend<QueuedTask, (), E> {
    backend: T,
    _phantom_error: PhantomData<E>,
}

impl<T, E> TaskClient<T, E> where T: EnqueuBackend<QueuedTask, (), E> {
    /// The backend the client enqueues into.
    pub closed spec fn backend(self) -> T {
        self.backend
    }

    /// Creates a client over `backend`.
    pub fn new(backend: T) -> (r: TaskClient<T, E>)
        ensures
            r.backend() == backend,
    {
        TaskClient { backend: backend, _phantom_error: PhantomData }
    }

    /// Enqueues `task`; what the backend answers is not passed on.
    pub fn call(&mut self, task: QueuedTask)
        ensures
            exists|res: Result<(), E>|
                old(self).backend().enqueued(task, (), final(self).backend(), res),
    {
        let res = self.backend.enqueue(&task, &());
        assert(old(self).backend().enqueued(task, (), self.backend(), res));
    }

    /// Enqueues `task` as `call` does; the time is not used.
    pub fn schedule(&mut self, task: QueuedTask, _time: u64)
        ensures
            exists|res: Result<(), E>|
                old(self).backend().enqueued(task, (), final(self).backend(), res),
    {
        let res = self.backend.enqueue(&task, &());
        assert(old(self).backend().enqueued(task, (), self.backend(), res));
    }
}

} // verus!
