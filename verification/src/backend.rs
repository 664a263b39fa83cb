//! The interfaces through which producers, consumers and committers reach a queue.
//! A backend implements them; each method's outcome is described by a spec function
//! that every implementation defines.
use vstd::prelude::*;

verus! {

/// A backend from which due tasks can be dequeued.
///
/// R - type of task, S - type of the score that orders tasks, E - type of error.
pub trait DequeuBackend<R, S, E>: Sized {
    /// The outcomes that `dequeue` may give for `score`.
    spec fn dequeued(&self, score: S, res: Result<Vec<R>, E>) -> bool;

    fn dequeue(&self, score: &S) -> (res: Result<Vec<R>, E>)
        ensures
            self.dequeued(*score, res),
    ;
}

/// A backend into which tasks can be enqueued.
///
/// R - type of task, S - type of the score that orders tasks, E - type of error.
pub trait EnqueuBackend<R, S, E>: Sized {
    /// The outcomes that `enqueue` of `task` at `score` may give: the backend
    /// afterwards and the result.
    spec fn enqueued(&self, task: R, score: S, after: Self, res: Result<(), E>) -> bool;

    fn enqueue(&mut self, task: &R, score: &S) -> (res: Result<(), E>)
        ensures
            old(self).enqueued(*task, *score, *final(self), res),
    ;
}

/// A backend from which handled tasks can be removed.
///
/// R - type of task, E - type of error.
pub trait CommitBackend<R, E>: Sized {
    /// The outcomes that `commit` of `task` may give: the backend afterwards and the
    /// result.
    spec fn committed(&self, task: R, after: Self, res: Result<(), E>) -> bool;

    fn commit(&mut self, task: &R) -> (res: Result<(), E>)
        ensures
            old(self).committed(*task, *final(self), res),
    ;
}

} // verus!
