//! Laws of the queue that a memory queue keeps: what reads give back of writes, and
//! what deletions leave. Equality of tasks enters as a relation `same` that `==` on the
//! task type agrees with: `specified_eq` for types whose `==` vstd specifies, character
//! equality for `String`.
use vstd::prelude::*;
use vstd::std_specs::cmp::PartialEqSpec;

use crate::backend::{CommitBackend, DequeuBackend, EnqueuBackend};
use crate::backends::memory::{
    at_or_before, clones_of, deleted, differ_answers, due, due_answers, eq_agrees_with, eq_answer,
    le_answer, read_of, scores_are_specified, select, specified_eq, tasks_of, without, written,
    MemoryQueue,
};

verus! {

/// `==` on a type whose equality vstd specifies agrees with that equality.
pub proof fn law_specified_eq_agrees<T: PartialEq>()
    requires
        T::obeys_eq_spec(),
    ensures
        eq_agrees_with::<T>(specified_eq::<T>()),
{
}

/// `==` on `String` compares the characters.
pub proof fn law_string_eq_agrees()
    ensures
        eq_agrees_with::<String>(|a: String, b: String| a@ == b@),
{
}

/// A read gives the tasks whose score is at or before the bound, in the order they were
/// written, and no other: `due` is the queue filtered by score, each item taken for its task.
pub proof fn law_due_is_filter<T, S: PartialOrd>(queue: Seq<(S, T)>, score: S)
    ensures
        due(queue, score) == queue.filter(|p: (S, T)| at_or_before(p.0, score)).map_values(
            |p: (S, T)| p.1,
        ),
    decreases queue.len(),
{
    reveal(Seq::filter);
    let pred = |p: (S, T)| at_or_before(p.0, score);
    let task = |p: (S, T)| p.1;
    if queue.len() > 0 {
        law_due_is_filter(queue.drop_last(), score);
        let kept = queue.drop_last().filter(pred);
        assert(kept.push(queue.last()).map_values(task) =~= kept.map_values(task).push(
            queue.last().1,
        ));
    } else {
        assert(queue.filter(pred).map_values(task) =~= Seq::<T>::empty());
    }
}

/// A deletion keeps exactly the items whose task is not `same` as the deleted one, in order.
pub proof fn law_without_is_filter<T, S>(queue: Seq<(S, T)>, task: T, same: spec_fn(T, T) -> bool)
    ensures
        without(queue, task, same) == queue.filter(|p: (S, T)| !same(p.1, task)),
    decreases queue.len(),
{
    reveal(Seq::filter);
    if queue.len() > 0 {
        law_without_is_filter(queue.drop_last(), task, same);
    }
}

/// The tasks of the items on whose score `<=` answered true are the due tasks, where the
/// order of the scores is the one `S` specifies.
proof fn lemma_select_due<T, S: PartialOrd>(queue: Seq<(S, T)>, score: S, answers: Seq<bool>)
    requires
        due_answers(queue, score, answers),
        scores_are_specified::<S>(),
    ensures
        tasks_of(select(queue, answers)) == due(queue, score),
    decreases queue.len(),
{
    if queue.len() > 0 {
        let last = queue.len() - 1;
        assert(due_answers(queue.drop_last(), score, answers.drop_last())) by {
            assert forall|i: int| 0 <= i < queue.drop_last().len() implies le_answer(
                queue.drop_last()[i].0,
                score,
                #[trigger] answers.drop_last()[i],
            ) by {
                assert(queue.drop_last()[i] == queue[i]);
                assert(answers.drop_last()[i] == answers[i]);
            }
        }
        lemma_select_due(queue.drop_last(), score, answers.drop_last());
        assert(le_answer(queue[last].0, score, answers[last]));
        let kept = select(queue.drop_last(), answers.drop_last());
        assert(tasks_of(kept.push(queue.last())) =~= tasks_of(kept).push(queue.last().1));
    } else {
        assert(tasks_of(select(queue, answers)) =~= Seq::<T>::empty());
    }
}

/// The items on whose task `==` answered false are the items whose task is not `same`.
proof fn lemma_select_without<T: PartialEq, S>(
    before: Seq<(S, T)>,
    task: T,
    differs: Seq<bool>,
    same: spec_fn(T, T) -> bool,
)
    requires
        differ_answers(before, task, differs),
        eq_agrees_with::<T>(same),
    ensures
        select(before, differs) == without(before, task, same),
    decreases before.len(),
{
    if before.len() > 0 {
        let last = before.len() - 1;
        assert(differ_answers(before.drop_last(), task, differs.drop_last())) by {
            assert forall|i: int| 0 <= i < before.drop_last().len() implies eq_answer(
                before.drop_last()[i].1,
                task,
                !#[trigger] differs.drop_last()[i],
            ) by {
                assert(before.drop_last()[i] == before[i]);
                assert(differs.drop_last()[i] == differs[i]);
            }
        }
        lemma_select_without(before.drop_last(), task, differs.drop_last(), same);
        assert(eq_answer(before[last].1, task, !differs[last]));
    }
}

/// Where the order of the scores is the one `S` specifies, a read gives clones of exactly
/// the due tasks.
pub proof fn law_read_gives_due<T: Clone, S: PartialOrd>(queue: Seq<(S, T)>, score: S, out: Seq<T>)
    requires
        read_of(queue, score, out),
        scores_are_specified::<S>(),
    ensures
        clones_of(due(queue, score), out),
{
    let answers = choose|answers: Seq<bool>|
        due_answers(queue, score, answers) && clones_of(tasks_of(select(queue, answers)), out);
    lemma_select_due(queue, score, answers);
}

/// Where `==` agrees with `same`, a deletion keeps exactly the items whose task is not
/// `same` as the deleted one.
pub proof fn law_delete_gives_without<T: PartialEq, S>(
    before: Seq<(S, T)>,
    task: T,
    after: Seq<(S, T)>,
    same: spec_fn(T, T) -> bool,
)
    requires
        deleted(before, task, after),
        eq_agrees_with::<T>(same),
    ensures
        after == without(before, task, same),
{
    let differs = choose|differs: Seq<bool>|
        differ_answers(before, task, differs) && after == select(before, differs);
    lemma_select_without(before, task, differs, same);
}

/// After a deletion no item of the queue holds a task `same` as the deleted one, and every
/// item of the queue before it whose task is not `same` is still there.
pub proof fn law_delete_removes_only_the_task<T: PartialEq, S>(
    before: Seq<(S, T)>,
    task: T,
    after: Seq<(S, T)>,
    same: spec_fn(T, T) -> bool,
)
    requires
        deleted(before, task, after),
        eq_agrees_with::<T>(same),
    ensures
        forall|i: int| 0 <= i < after.len() ==> !same((#[trigger] after[i]).1, task),
        forall|p: (S, T)| after.contains(p) <==> (before.contains(p) && !same(p.1, task)),
{
    let pred = |p: (S, T)| !same(p.1, task);
    law_delete_gives_without(before, task, after, same);
    law_without_is_filter(before, task, same);
    broadcast use vstd::seq_lib::group_filter_ensures;
    assert forall|i: int| 0 <= i < after.len() implies !same((#[trigger] after[i]).1, task) by {
        assert(pred(after[i]));
    }
    assert forall|p: (S, T)| after.contains(p) implies (before.contains(p) && !same(p.1, task)) by {
        let i = choose|i: int| 0 <= i < after.len() && after[i] == p;
        assert(pred(after[i]));
        before.lemma_filter_contains_rev(pred, p);
    }
    assert forall|p: (S, T)| before.contains(p) && !same(p.1, task) implies after.contains(p) by {
        let i = choose|i: int| 0 <= i < before.len() && before[i] == p;
        assert(pred(before[i]));
    }
}

/// `without` removes nothing from a queue that holds no task `same` as the removed one.
proof fn lemma_without_absent<T, S>(queue: Seq<(S, T)>, task: T, same: spec_fn(T, T) -> bool)
    requires
        forall|i: int| 0 <= i < queue.len() ==> !same((#[trigger] queue[i]).1, task),
    ensures
        without(queue, task, same) == queue,
    decreases queue.len(),
{
    if queue.len() > 0 {
        lemma_without_absent(queue.drop_last(), task, same);
        assert(queue.drop_last().push(queue.last()) == queue);
    }
}

/// Every item `without` keeps holds a task that is not `same` as the removed one.
proof fn lemma_without_differs<T, S>(queue: Seq<(S, T)>, task: T, same: spec_fn(T, T) -> bool)
    ensures
        forall|i: int|
            0 <= i < without(queue, task, same).len() ==> !same(
                (#[trigger] without(queue, task, same)[i]).1,
                task,
            ),
    decreases queue.len(),
{
    if queue.len() > 0 {
        let rest = without(queue.drop_last(), task, same);
        lemma_without_differs(queue.drop_last(), task, same);
        assert forall|i: int| 0 <= i < without(queue, task, same).len() implies !same(
            (#[trigger] without(queue, task, same)[i]).1,
            task,
        ) by {
            if i < rest.len() {
                assert(without(queue, task, same)[i] == rest[i]);
            }
        }
    }
}

/// Deleting a task a second time changes nothing.
pub proof fn law_delete_twice<T: PartialEq, S>(
    before: Seq<(S, T)>,
    task: T,
    middle: Seq<(S, T)>,
    after: Seq<(S, T)>,
    same: spec_fn(T, T) -> bool,
)
    requires
        deleted(before, task, middle),
        deleted(middle, task, after),
        eq_agrees_with::<T>(same),
    ensures
        after == middle,
{
    law_delete_gives_without(before, task, middle, same);
    law_delete_gives_without(middle, task, after, same);
    lemma_without_differs(before, task, same);
    lemma_without_absent(middle, task, same);
}

/// After a write, a read at a bound at or after the written score gives the written task,
/// last, after the due tasks that the write left in place; a read at an earlier bound
/// does not give it.
pub proof fn law_read_after_write<T: PartialEq + Clone, S: PartialOrd>(
    before: Seq<(S, T)>,
    task: T,
    score: S,
    after: Seq<(S, T)>,
    bound: S,
    same: spec_fn(T, T) -> bool,
)
    requires
        written(before, task, score, after),
        eq_agrees_with::<T>(same),
    ensures
        due(after, bound) == if at_or_before(score, bound) {
            due(without(before, task, same), bound).push(after.last().1)
        } else {
            due(without(before, task, same), bound)
        },
{
    law_delete_gives_without(before, task, after.drop_last(), same);
    assert(after == after.drop_last().push(after.last()));
}

/// After a write the queue holds the task once: no item but the last holds a task `same`
/// as it.
pub proof fn law_write_keeps_one_copy<T: PartialEq + Clone, S>(
    before: Seq<(S, T)>,
    task: T,
    score: S,
    after: Seq<(S, T)>,
    same: spec_fn(T, T) -> bool,
)
    requires
        written(before, task, score, after),
        eq_agrees_with::<T>(same),
    ensures
        forall|i: int| 0 <= i < after.len() - 1 ==> !same((#[trigger] after[i]).1, task),
{
    law_delete_gives_without(before, task, after.drop_last(), same);
    lemma_without_differs(before, task, same);
    assert forall|i: int| 0 <= i < after.len() - 1 implies !same((#[trigger] after[i]).1, task) by {
        assert(after[i] == after.drop_last()[i]);
    }
}

/// Writing a task again replaces the earlier write: the queue is as if only the second
/// write had happened (given that the queued clone is `same` as the task).
pub proof fn law_write_twice<T: PartialEq + Clone, S>(
    before: Seq<(S, T)>,
    task: T,
    first: S,
    middle: Seq<(S, T)>,
    second: S,
    after: Seq<(S, T)>,
    same: spec_fn(T, T) -> bool,
)
    requires
        written(before, task, first, middle),
        written(middle, task, second, after),
        same(middle.last().1, task),
        eq_agrees_with::<T>(same),
    ensures
        after.drop_last() == without(before, task, same),
        after.last().0 == second,
{
    law_delete_gives_without(before, task, middle.drop_last(), same);
    law_delete_gives_without(middle, task, after.drop_last(), same);
    let kept = without(before, task, same);
    assert(middle == kept.push(middle.last()));
    lemma_without_differs(before, task, same);
    lemma_without_absent(kept, task, same);
    assert(middle.drop_last() == kept);
}

/// Committing a task right after writing it leaves the queue as deleting it alone would
/// (given that the queued clone is `same` as the task).
pub proof fn law_delete_after_write<T: PartialEq + Clone, S>(
    before: Seq<(S, T)>,
    task: T,
    score: S,
    middle: Seq<(S, T)>,
    after: Seq<(S, T)>,
    same: spec_fn(T, T) -> bool,
)
    requires
        written(before, task, score, middle),
        deleted(middle, task, after),
        same(middle.last().1, task),
        eq_agrees_with::<T>(same),
    ensures
        after == without(before, task, same),
{
    law_delete_gives_without(before, task, middle.drop_last(), same);
    law_delete_gives_without(middle, task, after, same);
    let kept = without(before, task, same);
    assert(middle == kept.push(middle.last()));
    assert(middle.drop_last() == kept);
    lemma_without_differs(before, task, same);
    lemma_without_absent(kept, task, same);
}

/// Deleting a task that a write has just added to a queue without it gives back the queue
/// as it was (given that the queued clone is `same` as the task).
pub proof fn law_delete_undoes_new_write<T: PartialEq + Clone, S>(
    before: Seq<(S, T)>,
    task: T,
    score: S,
    middle: Seq<(S, T)>,
    after: Seq<(S, T)>,
    same: spec_fn(T, T) -> bool,
)
    requires
        forall|i: int| 0 <= i < before.len() ==> !same((#[trigger] before[i]).1, task),
        written(before, task, score, middle),
        deleted(middle, task, after),
        same(middle.last().1, task),
        eq_agrees_with::<T>(same),
    ensures
        after == before,
{
    law_delete_after_write(before, task, score, middle, after, same);
    lemma_without_absent(before, task, same);
}

/// A task scheduled into a memory queue at a score is given back by a poll of that queue
/// at any score at or after it: the poll succeeds and its last task is a clone of the
/// queued task, after clones of the other due tasks.
pub proof fn law_poll_after_schedule<T: Clone + PartialEq, S: Copy + PartialOrd>(
    before: MemoryQueue<T, S>,
    task: T,
    score: S,
    after: MemoryQueue<T, S>,
    scheduled: Result<(), ()>,
    bound: S,
    polled: Result<Vec<T>, ()>,
    same: spec_fn(T, T) -> bool,
)
    requires
        before.enqueued(task, score, after, scheduled),
        after.dequeued(bound, polled),
        at_or_before(score, bound),
        eq_agrees_with::<T>(same),
        scores_are_specified::<S>(),
    ensures
        scheduled is Ok,
        polled matches Ok(tasks) && tasks@.len() > 0 && cloned(after@.last().1, tasks@.last())
            && clones_of(due(without(before@, task, same), bound), tasks@.drop_last()),
{
    let tasks = polled->Ok_0;
    law_read_gives_due(after@, bound, tasks@);
    law_read_after_write(before@, task, score, after@, bound, same);
    let d = due(after@, bound);
    assert(d.last() == after@.last().1);
    assert forall|i: int| 0 <= i < d.len() - 1 implies cloned(
        d.drop_last()[i],
        #[trigger] tasks@.drop_last()[i],
    ) by {
        assert(cloned(d[i], tasks@[i]));
    }
}

/// No two items of `queue` hold tasks that are `same`.
pub open spec fn tasks_distinct<T, S>(queue: Seq<(S, T)>, same: spec_fn(T, T) -> bool) -> bool {
    forall|i: int, j: int| 0 <= i < j < queue.len() ==> !same((#[trigger] queue[i]).1, (#[trigger] queue[j]).1)
}

/// `select` keeps items of the queue only, and keeps its tasks distinct.
proof fn lemma_select_keeps_distinct<T, S>(queue: Seq<(S, T)>, mask: Seq<bool>, same: spec_fn(T, T) -> bool)
    requires
        tasks_distinct(queue, same),
        mask.len() == queue.len(),
    ensures
        tasks_distinct(select(queue, mask), same),
        forall|i: int| 0 <= i < select(queue, mask).len() ==> queue.contains(#[trigger] select(queue, mask)[i]),
    decreases queue.len(),
{
    if queue.len() > 0 {
        let front = queue.drop_last();
        assert(tasks_distinct(front, same)) by {
            assert forall|i: int, j: int| 0 <= i < j < front.len() implies !same(
                (#[trigger] front[i]).1,
                (#[trigger] front[j]).1,
            ) by {
                assert(front[i] == queue[i] && front[j] == queue[j]);
            }
        }
        lemma_select_keeps_distinct(front, mask.drop_last(), same);
        let rest = select(front, mask.drop_last());
        let sel = select(queue, mask);
        assert forall|i: int| 0 <= i < sel.len() implies queue.contains(#[trigger] sel[i]) by {
            if i < rest.len() {
                let k = choose|k: int| 0 <= k < front.len() && front[k] == rest[i];
                assert(queue[k] == sel[i]);
            } else {
                assert(queue[queue.len() - 1] == sel[i]);
            }
        }
        assert forall|i: int, j: int| 0 <= i < j < sel.len() implies !same(
            (#[trigger] sel[i]).1,
            (#[trigger] sel[j]).1,
        ) by {
            assert(sel[i] == rest[i]);
            let k = choose|k: int| 0 <= k < front.len() && front[k] == rest[i];
            if j < rest.len() {
                assert(sel[j] == rest[j]);
            } else {
                assert(queue[k] == sel[i] && queue[queue.len() - 1] == sel[j]);
            }
        }
    }
}

/// An empty queue holds no task twice.
pub proof fn law_empty_queue_distinct<T, S>(queue: Seq<(S, T)>, same: spec_fn(T, T) -> bool)
    requires
        queue.len() == 0,
    ensures
        tasks_distinct(queue, same),
{
}

/// A deletion keeps the tasks of a queue distinct.
pub proof fn law_delete_keeps_distinct<T: PartialEq, S>(
    before: Seq<(S, T)>,
    task: T,
    after: Seq<(S, T)>,
    same: spec_fn(T, T) -> bool,
)
    requires
        tasks_distinct(before, same),
        deleted(before, task, after),
    ensures
        tasks_distinct(after, same),
{
    let differs = choose|differs: Seq<bool>|
        differ_answers(before, task, differs) && after == select(before, differs);
    lemma_select_keeps_distinct(before, differs, same);
}

/// A write keeps the tasks of a queue distinct (given that the queued clone equals the
/// task): together with the empty queue of `new` and deletions, no queue built by these
/// operations ever holds a task twice.
pub proof fn law_write_keeps_distinct<T: PartialEq + Clone, S>(
    before: Seq<(S, T)>,
    task: T,
    score: S,
    after: Seq<(S, T)>,
    same: spec_fn(T, T) -> bool,
)
    requires
        tasks_distinct(before, same),
        written(before, task, score, after),
        after.last().1 == task,
        eq_agrees_with::<T>(same),
    ensures
        tasks_distinct(after, same),
{
    let kept = after.drop_last();
    law_delete_keeps_distinct(before, task, kept, same);
    law_delete_gives_without(before, task, kept, same);
    lemma_without_differs(before, task, same);
    assert forall|i: int, j: int| 0 <= i < j < after.len() implies !same(
        (#[trigger] after[i]).1,
        (#[trigger] after[j]).1,
    ) by {
        assert(after[i] == kept[i]);
        if j < kept.len() {
            assert(after[j] == kept[j]);
        }
    }
}

/// Two reads of one queue at one score give equal tasks, where the order of the scores
/// is the one `S` specifies and a clone of a task equals it.
pub proof fn law_reads_agree<T: Clone, S: PartialOrd>(
    queue: Seq<(S, T)>,
    score: S,
    first: Seq<T>,
    second: Seq<T>,
)
    requires
        read_of(queue, score, first),
        read_of(queue, score, second),
        scores_are_specified::<S>(),
        forall|a: T, b: T| #[trigger] cloned(a, b) ==> a == b,
    ensures
        first == second,
{
    law_read_gives_due(queue, score, first);
    law_read_gives_due(queue, score, second);
    let d = due(queue, score);
    assert forall|i: int| 0 <= i < first.len() implies first[i] == second[i] by {
        assert(cloned(d[i], first[i]));
        assert(cloned(d[i], second[i]));
    }
    assert(first =~= second);
}

/// A dequeue from a memory queue always succeeds and gives what a read at the same score
/// gives; the queue is not changed by it.
pub proof fn law_dequeue_is_read<T: Clone + PartialEq, S: Copy + PartialOrd>(
    queue: MemoryQueue<T, S>,
    score: S,
    res: Result<Vec<T>, ()>,
)
    ensures
        queue.dequeued(score, res) <==> (res matches Ok(tasks) && read_of(queue@, score, tasks@)),
{
}

/// Committing a task to a memory queue succeeds and removes exactly the items whose task
/// is `same` as it: every other item stays, with its score, in its order.
pub proof fn law_commit_removes_only_the_task<T: Clone + PartialEq, S: Copy + PartialOrd>(
    queue: MemoryQueue<T, S>,
    task: T,
    after: MemoryQueue<T, S>,
    res: Result<(), ()>,
    same: spec_fn(T, T) -> bool,
)
    requires
        queue.committed(task, after, res),
        eq_agrees_with::<T>(same),
    ensures
        res is Ok,
        after@ == queue@.filter(|p: (S, T)| !same(p.1, task)),
{
    law_delete_gives_without(queue@, task, after@, same);
    law_without_is_filter(queue@, task, same);
}

/// Enqueuing a task into a memory queue succeeds, removes the items whose task is `same`
/// as it, keeping every other item in its order, and adds a clone of the task at its score
/// as the last item.
pub proof fn law_enqueue_replaces_the_task<T: Clone + PartialEq, S: Copy + PartialOrd>(
    queue: MemoryQueue<T, S>,
    task: T,
    score: S,
    after: MemoryQueue<T, S>,
    res: Result<(), ()>,
    same: spec_fn(T, T) -> bool,
)
    requires
        queue.enqueued(task, score, after, res),
        eq_agrees_with::<T>(same),
    ensures
        res is Ok,
        after@.len() == queue@.filter(|p: (S, T)| !same(p.1, task)).len() + 1,
        after@.drop_last() == queue@.filter(|p: (S, T)| !same(p.1, task)),
        after@.last().0 == score,
        cloned(task, after@.last().1),
{
    law_delete_gives_without(queue@, task, after@.drop_last(), same);
    law_without_is_filter(queue@, task, same);
}

/// Dequeuing from a memory queue succeeds and gives clones of the tasks of the items whose
/// score is at or before the given one, in queue order, where the order of the scores is
/// the one `S` specifies.
pub proof fn law_dequeue_gives_due_tasks<T: Clone + PartialEq, S: Copy + PartialOrd>(
    queue: MemoryQueue<T, S>,
    score: S,
    res: Result<Vec<T>, ()>,
)
    requires
        queue.dequeued(score, res),
        scores_are_specified::<S>(),
    ensures
        res matches Ok(tasks) && clones_of(
            queue@.filter(|p: (S, T)| at_or_before(p.0, score)).map_values(|p: (S, T)| p.1),
            tasks@,
        ),
{
    let tasks = res->Ok_0;
    law_read_gives_due(queue@, score, tasks@);
    law_due_is_filter(queue@, score);
}

} // verus!
