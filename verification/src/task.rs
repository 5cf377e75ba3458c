//! The task data model: the `Todo` record, its status, the error taxonomy,
//! and the mathematical model of a store (a sequence of task views) together
//! with the spec-level effect of each store operation.

use vstd::prelude::*;

verus! {

/// Completion state of a task: it starts `ToDo` and can only move to `Done`.
#[derive(Clone, Copy, PartialEq, Eq, Structural, Debug)]
pub enum Status {
    Done,
    ToDo,
}

/// A single task record. The `name` is the lookup key and is unique across a
/// well-formed store; the `description` is free-form; see [`Status`].
#[derive(Debug)]
pub struct Todo {
    pub name: String,
    pub description: String,
    pub status: Status,
}

/// Why a store operation failed.
#[derive(Clone, Copy, PartialEq, Eq, Structural, Debug)]
pub enum TodoError {
    /// The backing document could not be read or written.
    IOFailure,
    /// The backing document exists but is not a valid encoding of a task list.
    DeserializationFailure,
    /// `add` was given a name that an existing task already has.
    DuplicateName,
    /// `edit`, `tick` or `remove` was given a name no task has.
    NotFound,
}

/// The mathematical value of a [`Todo`]: its strings as character sequences.
#[verifier::ext_equal]
pub struct TodoView {
    pub name: Seq<char>,
    pub description: Seq<char>,
    pub status: Status,
}

impl View for Todo {
    type V = TodoView;

    open spec fn view(&self) -> TodoView {
        TodoView { name: self.name@, description: self.description@, status: self.status }
    }
}

impl Clone for Todo {
    fn clone(&self) -> (r: Self)
        ensures
            r == *self,
    {
        Todo { name: self.name.clone(), description: self.description.clone(), status: self.status }
    }
}

/// The model of a whole store: the views of its tasks, in order.
pub open spec fn views(s: Seq<Todo>) -> Seq<TodoView> {
    s.map_values(|t: Todo| t@)
}

/// Whether some task in `s` is named `n`.
pub open spec fn has_name(s: Seq<TodoView>, n: Seq<char>) -> bool {
    exists|i: int| 0 <= i < s.len() && s[i].name == n
}

/// The position of the first task named `n` (meaningful only when
/// `has_name(s, n)` holds).
pub open spec fn first_index(s: Seq<TodoView>, n: Seq<char>) -> int
    decreases s.len(),
{
    if s.len() == 0 {
        0
    } else if s[0].name == n {
        0
    } else {
        1 + first_index(s.drop_first(), n)
    }
}

/// How many tasks in `s` are named `n`.
pub open spec fn count_name(s: Seq<TodoView>, n: Seq<char>) -> nat
    decreases s.len(),
{
    if s.len() == 0 {
        0
    } else {
        (if s[0].name == n {
            1nat
        } else {
            0nat
        }) + count_name(s.drop_first(), n)
    }
}

/// The store invariant: no two tasks share a name.
pub open spec fn unique_names(s: Seq<TodoView>) -> bool {
    forall|i: int, j: int| 0 <= i < j < s.len() ==> s[i].name != s[j].name
}

/// The task that `add` appends.
pub open spec fn fresh_task(n: Seq<char>, d: Seq<char>) -> TodoView {
    TodoView { name: n, description: d, status: Status::ToDo }
}

/// The store after a successful `add(n, d)`: the new task goes at the end.
pub open spec fn add_model(s: Seq<TodoView>, n: Seq<char>, d: Seq<char>) -> Seq<TodoView> {
    s.push(fresh_task(n, d))
}

/// The store after a successful `edit(n, d)`: the first task named `n` gets
/// description `d`; its name, status and position are unchanged.
pub open spec fn edit_model(s: Seq<TodoView>, n: Seq<char>, d: Seq<char>) -> Seq<TodoView> {
    let i = first_index(s, n);
    s.update(i, TodoView { name: s[i].name, description: d, status: s[i].status })
}

/// The store after a successful `tick(n)`: the first task named `n` becomes
/// `Done`, whatever its status was.
pub open spec fn tick_model(s: Seq<TodoView>, n: Seq<char>) -> Seq<TodoView> {
    let i = first_index(s, n);
    s.update(i, TodoView { name: s[i].name, description: s[i].description, status: Status::Done })
}

/// The store after a successful `remove(n)`: exactly the first task named `n`
/// is gone; the rest keep their relative order.
pub open spec fn remove_model(s: Seq<TodoView>, n: Seq<char>) -> Seq<TodoView> {
    s.remove(first_index(s, n))
}

/// `first_index` indeed points at the first task named `n`.
pub proof fn lemma_first_index(s: Seq<TodoView>, n: Seq<char>)
    requires
        has_name(s, n),
    ensures
        0 <= first_index(s, n) < s.len(),
        s[first_index(s, n)].name == n,
        forall|j: int| 0 <= j < first_index(s, n) ==> s[j].name != n,
    decreases s.len(),
{
    if s.len() == 0 {
    } else if s[0].name == n {
    } else {
        let i = choose|i: int| 0 <= i < s.len() && s[i].name == n;
        assert(s.drop_first()[i - 1].name == n);
        lemma_first_index(s.drop_first(), n);
        assert forall|j: int| 0 <= j < first_index(s, n) implies s[j].name != n by {
            if j > 0 {
                assert(s.drop_first()[j - 1] == s[j]);
            }
        }
    }
}

/// A position that matches `n` with no earlier match is `first_index`.
pub proof fn lemma_first_index_is(s: Seq<TodoView>, n: Seq<char>, i: int)
    requires
        0 <= i < s.len(),
        s[i].name == n,
        forall|j: int| 0 <= j < i ==> s[j].name != n,
    ensures
        first_index(s, n) == i,
    decreases s.len(),
{
    if s[0].name == n {
    } else {
        assert forall|j: int| 0 <= j < i - 1 implies s.drop_first()[j].name != n by {
            assert(s.drop_first()[j] == s[j + 1]);
        }
        assert(s.drop_first()[i - 1].name == n);
        lemma_first_index_is(s.drop_first(), n, i - 1);
    }
}

} // verus!
