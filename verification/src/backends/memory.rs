//! A backend that keeps its queue in memory.
use vstd::prelude::*;
use vstd::std_specs::cmp::{PartialEqSpec, PartialOrdSpec};

use crate::backend::{CommitBackend, DequeuBackend, EnqueuBackend};

verus! {

/// Score `a` comes at or before score `b` in the order of `S`.
pub open spec fn at_or_before<S: PartialOrd>(a: S, b: S) -> bool {
    a.partial_cmp_spec(&b) matches Some(core::cmp::Ordering::Less | core::cmp::Ordering::Equal)
}

/// Comparisons of `S` behave as `S` specifies them.
pub open spec fn scores_are_specified<S: PartialOrd>() -> bool {
    S::obeys_partial_cmp_spec()
}

/// The tasks of `queue` whose score comes at or before `score`, in queue order.
pub open spec fn due<T, S: PartialOrd>(queue: Seq<(S, T)>, score: S) -> Seq<T>
    decreases queue.len(),
{
    if queue.len() == 0 {
        Seq::empty()
    } else {
        let rest = due(queue.drop_last(), score);
        if at_or_before(queue.last().0, score) {
            rest.push(queue.last().1)
        } else {
            rest
        }
    }
}

/// `queue` without the items whose task is `same` as `task`, in queue order.
pub open spec fn without<T, S>(queue: Seq<(S, T)>, task: T, same: spec_fn(T, T) -> bool) -> Seq<(S, T)>
    decreases queue.len(),
{
    if queue.len() == 0 {
        Seq::empty()
    } else {
        let rest = without(queue.drop_last(), task, same);
        if same(queue.last().1, task) {
            rest
        } else {
            rest.push(queue.last())
        }
    }
}

/// `b` holds, position by position, clones of the tasks in `a`.
pub open spec fn clones_of<T: Clone>(a: Seq<T>, b: Seq<T>) -> bool {
    &&& a.len() == b.len()
    &&& forall|i: int| 0 <= i < a.len() ==> cloned(a[i], #[trigger] b[i])
}

/// `r` is an answer that `a == b` can give.
pub open spec fn eq_answer<T: PartialEq>(a: T, b: T, r: bool) -> bool {
    call_ensures(T::eq, (&a, &b), r)
}

/// `r` is an answer that `a <= b` can give.
pub open spec fn le_answer<S: PartialOrd>(a: S, b: S, r: bool) -> bool {
    call_ensures(S::le, (&a, &b), r)
}

/// `==` on `T` answers as the relation `same` says: `true` exactly on pairs that are `same`.
pub open spec fn eq_agrees_with<T: PartialEq>(same: spec_fn(T, T) -> bool) -> bool {
    forall|a: T, b: T, r: bool| #[trigger] eq_answer(a, b, r) ==> r == same(a, b)
}

/// Equality as `T` specifies it.
pub open spec fn specified_eq<T: PartialEq>() -> spec_fn(T, T) -> bool {
    |a: T, b: T| a.eq_spec(&b)
}

/// The items of `queue` at the positions where `mask` holds, in queue order.
pub open spec fn select<A>(queue: Seq<A>, mask: Seq<bool>) -> Seq<A>
    decreases queue.len(),
{
    if queue.len() == 0 || mask.len() == 0 {
        Seq::empty()
    } else {
        let rest = select(queue.drop_last(), mask.drop_last());
        if mask.last() {
            rest.push(queue.last())
        } else {
            rest
        }
    }
}

/// The tasks of the items of `queue`.
pub open spec fn tasks_of<T, S>(queue: Seq<(S, T)>) -> Seq<T> {
    queue.map_values(|p: (S, T)| p.1)
}

/// `due` holds, for each item of `queue`, an answer that `<=` can give of the item's score
/// against `score`.
pub open spec fn due_answers<T, S: PartialOrd>(queue: Seq<(S, T)>, score: S, due: Seq<bool>) -> bool {
    &&& due.len() == queue.len()
    &&& forall|i: int| 0 <= i < queue.len() ==> le_answer(queue[i].0, score, #[trigger] due[i])
}

/// `differs` holds, for each item of `queue`, the negation of an answer that `==` can
/// give of the item's task against `task`.
pub open spec fn differ_answers<T: PartialEq, S>(queue: Seq<(S, T)>, task: T, differs: Seq<bool>) -> bool {
    &&& differs.len() == queue.len()
    &&& forall|i: int| 0 <= i < queue.len() ==> eq_answer(queue[i].1, task, !#[trigger] differs[i])
}

/// What a read of `queue` at `score` gives: clones of the tasks of the items on whose
/// score `<=` against `score` answered true, in queue order.
pub open spec fn read_of<T: Clone, S: PartialOrd>(queue: Seq<(S, T)>, score: S, out: Seq<T>) -> bool {
    exists|due: Seq<bool>| due_answers(queue, score, due) && clones_of(tasks_of(select(queue, due)), out)
}

/// What a deletion of `task` leaves of `before`: the items on whose task `==` against
/// `task` answered false, in queue order.
pub open spec fn deleted<T: PartialEq, S>(before: Seq<(S, T)>, task: T, after: Seq<(S, T)>) -> bool {
    exists|differs: Seq<bool>| differ_answers(before, task, differs) && after == select(before, differs)
}

/// What a write of `task` at `score` leaves of `before`: what a deletion of `task` leaves,
/// then a clone of `task` at `score` as the last item.
pub open spec fn written<T: PartialEq + Clone, S>(
    before: Seq<(S, T)>,
    task: T,
    score: S,
    after: Seq<(S, T)>,
) -> bool {
    &&& after.len() > 0
    &&& after.last().0 == score
    &&& cloned(task, after.last().1)
    &&& deleted(before, task, after.drop_last())
}

/// A queue of tasks held in memory, each with the score at which it falls due, in the
/// order they were written. Writing a task replaces every earlier occurrence of it.
/// The queue is a value: a clone of it is another queue.
#[derive(Clone)]
pub struct MemoryQueue<T, S> where T: Clone + PartialEq, S: Copy + PartialOrd {
    queue: Vec<(S, T)>,
}

impl<T, S> View for MemoryQueue<T, S> where T: Clone + PartialEq, S: Copy + PartialOrd {
    type V = Seq<(S, T)>;

    closed spec fn view(&self) -> Seq<(S, T)> {
        self.queue@
    }
}

impl<T, S> MemoryQueue<T, S> where T: Clone + PartialEq, S: Copy + PartialOrd {
    /// An empty queue.
    pub fn new() -> (r: MemoryQueue<T, S>)
        ensures
            r@ == Seq::<(S, T)>::empty(),
    {
        MemoryQueue { queue: Vec::new() }
    }

    /// Clones of the tasks whose score is at or before `score` (the bound is inclusive), in
    /// the order they were written.
    pub fn read(&self, score: &S) -> (r: Vec<T>)
        ensures
            read_of(self@, *score, r@),
    {
        let mut r: Vec<T> = Vec::new();
        let n = self.queue.len();
        let mut i: usize = 0;
        let ghost mut due: Seq<bool> = Seq::empty();
        while i < n
            invariant
                n == self@.len(),
                0 <= i <= n,
                due_answers(self@.take(i as int), *score, due),
                clones_of(tasks_of(select(self@.take(i as int), due)), r@),
            decreases n - i,
        {
            let ghost before = self@.take(i as int);
            let ghost now = self@.take(i + 1);
            assert(now.drop_last() == before);
            let item = &self.queue[i];
            let is_due = item.0 <= *score;
            if is_due {
                r.push(item.1.clone());
            }
            proof {
                let prev = due;
                due = due.push(is_due);
                assert(due.drop_last() == prev);
                assert forall|k: int| 0 <= k < now.len() implies le_answer(now[k].0, *score, #[trigger] due[k]) by {
                    if k < before.len() {
                        assert(now[k] == before[k]);
                    }
                }
                let kept = select(before, prev);
                if is_due {
                    assert(tasks_of(kept.push(now.last())) =~= tasks_of(kept).push(now.last().1));
                }
            }
            i = i + 1;
        }
        assert(self@.take(n as int) == self@);
        r
    }

    /// Removes every occurrence of `task`.
    pub fn delete(&mut self, task: &T)
        ensures
            deleted(old(self)@, *task, final(self)@),
    {
        let mut rest: Vec<(S, T)> = Vec::new();
        std::mem::swap(&mut rest, &mut self.queue);
        let ghost before = rest@;
        let ghost mut differs: Seq<bool> = Seq::empty();
        for item in it: rest
            invariant
                before == old(self)@,
                it.seq() == before,
                differ_answers(before.take(it.index() as int), *task, differs),
                self@ == select(before.take(it.index() as int), differs),
        {
            let ghost prefix = before.take(it.index() as int);
            let ghost now = before.take(it.index() + 1);
            assert(now.drop_last() == prefix);
            let same = item.1 == *task;
            proof {
                let prev = differs;
                differs = differs.push(!same);
                assert(differs.drop_last() == prev);
                assert forall|k: int| 0 <= k < now.len() implies eq_answer(now[k].1, *task, !#[trigger] differs[k]) by {
                    if k < prefix.len() {
                        assert(now[k] == prefix[k]);
                    }
                }
            }
            if !same {
                self.queue.push(item);
            }
        }
        assert(before.take(before.len() as int) == before);
    }

    /// Queues `task` at `score`, replacing any earlier occurrence of it.
    pub fn write(&mut self, task: &T, score: &S)
        ensures
            written(old(self)@, *task, *score, final(self)@),
    {
        self.delete(task);
        let ghost kept = self@;
        self.queue.push((*score, task.clone()));
        assert(self@.drop_last() == kept);
    }
}

impl<T, S> Default for MemoryQueue<T, S> where T: Clone + PartialEq, S: Copy + PartialOrd {
    fn default() -> (r: Self)
        ensures
            r@ == Seq::<(S, T)>::empty(),
    {
        MemoryQueue::new()
    }
}

impl<T, S> DequeuBackend<T, S, ()> for MemoryQueue<T, S> where
    T: Clone + PartialEq,
    S: Copy + PartialOrd,
 {
    open spec fn dequeued(&self, score: S, res: Result<Vec<T>, ()>) -> bool {
        res matches Ok(tasks) && read_of(self@, score, tasks@)
    }

    fn dequeue(&self, score: &S) -> (res: Result<Vec<T>, ()>) {
        Ok(self.read(score))
    }
}

impl<T, S> EnqueuBackend<T, S, ()> for MemoryQueue<T, S> where
    T: Clone + PartialEq,
    S: Copy + PartialOrd,
 {
    open spec fn enqueued(&self, task: T, score: S, after: Self, res: Result<(), ()>) -> bool {
        res is Ok && written(self@, task, score, after@)
    }

    fn enqueue(&mut self, task: &T, score: &S) -> (res: Result<(), ()>) {
        self.write(task, score);
        Ok(())
    }
}

impl<T, S> CommitBackend<T, ()> for MemoryQueue<T, S> where
    T: Clone + PartialEq,
    S: Copy + PartialOrd,
 {
    open spec fn committed(&self, task: T, after: Self, res: Result<(), ()>) -> bool {
        res is Ok && deleted(self@, task, after@)
    }

    fn commit(&mut self, task: &T) -> (res: Result<(), ()>) {
        self.delete(task);
        Ok(())
    }
}

} // verus!
