//! Named task handlers and the task record that travels through a queue.
use std::future::Future;

use vstd::prelude::*;

verus! {

/// A task as it travels through a queue: the name of its handler and its request.
#[derive(Clone, Debug, PartialEq, Eq)]
pub struct QueuedTask {
    pub name: String,
    pub request: String,
}

/// True when some handler in `tasks` is registered under `name`.
pub open spec fn has_name<T>(tasks: Seq<(&'static str, T)>, name: Seq<char>) -> bool {
    exists|i: int| 0 <= i < tasks.len() && (#[trigger] tasks[i]).0@ == name
}

/// True when `i` is the first position in `tasks` registered under `name`.
pub open spec fn is_first_named<T>(tasks: Seq<(&'static str, T)>, name: Seq<char>, i: int) -> bool {
    &&& 0 <= i < tasks.len()
    &&& tasks[i].0@ == name
    &&& forall|j: int| 0 <= j < i ==> (#[trigger] tasks[j]).0@ != name
}

/// Compares two names character by character.
fn same_name(a: &str, b: &str) -> (r: bool)
    ensures
        r == (a@ == b@),
{
    a.to_owned() == b.to_owned()
}

/// A registry of task handlers, each under a name of its own.
#[verifier::reject_recursive_types(Fut)]
pub struct Tasks<T, Fut> where T: Fn(String) -> Fut, Fut: Future<Output = ()> {
    pub tasks: Vec<(&'static str, T)>,
}

impl<T, Fut> Tasks<T, Fut> where T: Fn(String) -> Fut, Fut: Future<Output = ()> {
    /// An empty registry.
    pub fn new() -> (r: Tasks<T, Fut>)
        ensures
            r.tasks@ == Seq::<(&'static str, T)>::empty(),
            names_distinct(r.tasks@),
    {
        Tasks { tasks: Vec::new() }
    }

    /// Registers `func` under `name`; a name can be registered once only.
    pub fn add_task(&mut self, name: &'static str, func: T)
        requires
            !has_name(old(self).tasks@, name@),
        ensures
            final(self).tasks@ == old(self).tasks@.push((name, func)),
            names_distinct(old(self).tasks@) ==> names_distinct(final(self).tasks@),
    {
        proof {
            if names_distinct(self.tasks@) {
                law_add_keeps_names_distinct(self.tasks@, name, func);
            }
        }
        self.tasks.push((name, func));
    }

    /// The handler registered under `name`, if any.
    pub fn get_task(&self, name: &str) -> (r: Option<&T>)
        ensures
            r is None <==> !has_name(self.tasks@, name@),
            r matches Some(f) ==> exists|i: int|
                is_first_named(self.tasks@, name@, i) && *f == self.tasks@[i].1,
    {
        let n = self.tasks.len();
        let mut i: usize = 0;
        while i < n
            invariant
                n == self.tasks@.len(),
                0 <= i <= n,
                forall|j: int| 0 <= j < i ==> (#[trigger] self.tasks@[j]).0@ != name@,
            decreases n - i,
        {
            if same_name(self.tasks[i].0, name) {
                assert(is_first_named(self.tasks@, name@, i as int));
                return Some(&self.tasks[i].1);
            }
            i = i + 1;
        }
        None
    }
}

/// No two handlers in `tasks` share a name.
pub open spec fn names_distinct<T>(tasks: Seq<(&'static str, T)>) -> bool {
    forall|i: int, j: int|
        0 <= i < j < tasks.len() ==> (#[trigger] tasks[i]).0@ != (#[trigger] tasks[j]).0@
}

/// After a handler is added under a new name, a lookup of that name finds it, and a
/// lookup of any other name finds what it found before.
pub proof fn law_lookup_after_add<T>(tasks: Seq<(&'static str, T)>, name: &'static str, func: T)
    requires
        !has_name(tasks, name@),
    ensures
        is_first_named(tasks.push((name, func)), name@, tasks.len() as int),
        tasks.push((name, func))[tasks.len() as int].1 == func,
        forall|other: Seq<char>, i: int|
            other != name@ ==> (is_first_named(tasks.push((name, func)), other, i)
                <==> is_first_named(tasks, other, i)),
        forall|other: Seq<char>|
            other != name@ ==> (has_name(tasks.push((name, func)), other) <==> has_name(tasks, other)),
{
    let after = tasks.push((name, func));
    assert forall|j: int| 0 <= j < tasks.len() implies (#[trigger] after[j]).0@ != name@ by {
        assert(after[j] == tasks[j]);
    }
    assert forall|other: Seq<char>, i: int| other != name@ implies (is_first_named(after, other, i)
        <==> is_first_named(tasks, other, i)) by {
        if is_first_named(tasks, other, i) {
            assert forall|j: int| 0 <= j < i implies (#[trigger] after[j]).0@ != other by {
                assert(after[j] == tasks[j]);
            }
        }
        if is_first_named(after, other, i) {
            assert(after[i] == tasks[i]);
            assert forall|j: int| 0 <= j < i implies (#[trigger] tasks[j]).0@ != other by {
                assert(after[j] == tasks[j]);
            }
        }
    }
    assert forall|other: Seq<char>| other != name@ implies (has_name(after, other) <==> has_name(tasks, other)) by {
        if has_name(tasks, other) {
            let i = choose|i: int| 0 <= i < tasks.len() && (#[trigger] tasks[i]).0@ == other;
            assert(after[i] == tasks[i]);
        }
        if has_name(after, other) {
            let i = choose|i: int| 0 <= i < after.len() && (#[trigger] after[i]).0@ == other;
            assert(after[i] == tasks[i]);
        }
    }
}

/// Adding handlers only under new names keeps the names of a registry distinct.
pub proof fn law_add_keeps_names_distinct<T>(tasks: Seq<(&'static str, T)>, name: &'static str, func: T)
    requires
        names_distinct(tasks),
        !has_name(tasks, name@),
    ensures
        names_distinct(tasks.push((name, func))),
{
    let after = tasks.push((name, func));
    assert forall|i: int, j: int| 0 <= i < j < after.len() implies (#[trigger] after[i]).0@ != (
    #[trigger] after[j]).0@ by {
        assert(after[i] == tasks[i]);
        if j < tasks.len() {
            assert(after[j] == tasks[j]);
        }
    }
}

} // verus!
