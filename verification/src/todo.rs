//! The store operations: `add`, `edit`, `tick`, `remove`, `list`.
//!
//! Each operation works on the full ordered task collection; persisting that
//! collection to and from its document form is done by [`crate::todo::save_todos`]
//! and [`crate::todo::load_todos`]. Name lookup is an exact, case-sensitive
//! match on the first task with the given name.

use vstd::prelude::*;
use vstd::pervasive::VecAdditionalExecFns;

use crate::task::{Todo, Status, TodoError};
use crate::task::{views, has_name, first_index, fresh_task};
use crate::task::{add_model, edit_model, tick_model, remove_model};
use crate::task::{lemma_first_index_is, TodoView};
use crate::chars::{names_equal, str_to_chars};
use crate::codec::{enc_doc, dec_doc};
use crate::encode::render_doc;
use crate::decode::parse_doc;

verus! {

/// The position of the first task named `name`, or `None` if there is none.
fn find_first(tasks: &Vec<Todo>, name: &str) -> (r: Option<usize>)
    ensures
        match r {
            Some(i) => i < tasks@.len() && has_name(views(tasks@), name@) && first_index(
                views(tasks@),
                name@,
            ) == i as int,
            None => !has_name(views(tasks@), name@),
        },
{
    let ghost s = views(tasks@);
    let mut i: usize = 0;
    while i < tasks.len()
        invariant
            0 <= i <= tasks@.len(),
            s == views(tasks@),
            forall|j: int| 0 <= j < i ==> s[j].name != name@,
        decreases tasks@.len() - i,
    {
        if names_equal(&tasks[i].name, name) {
            proof {
                assert(s[i as int].name == name@);
                lemma_first_index_is(s, name@, i as int);
            }
            return Some(i);
        }
        i += 1;
    }
    None
}

/// Appends a new `ToDo` task named `name`, unless a task with that name
/// already exists; on failure the collection is unchanged.
pub fn add(tasks: &mut Vec<Todo>, name: &str, description: &str) -> (r: Result<Todo, TodoError>)
    ensures
        match r {
            Ok(t) => !has_name(views(old(tasks)@), name@) && views(final(tasks)@) == add_model(
                views(old(tasks)@),
                name@,
                description@,
            ) && t@ == fresh_task(name@, description@),
            Err(e) => has_name(views(old(tasks)@), name@) && e == TodoError::DuplicateName && final(tasks)@ == old(tasks)@,
        },
{
    match find_first(tasks, name) {
        Some(_) => Err(TodoError::DuplicateName),
        None => {
            let t = Todo {
                name: name.to_owned(),
                description: description.to_owned(),
                status: Status::ToDo,
            };
            let out = t.clone();
            tasks.push(t);
            proof {
                assert(out@ =~= fresh_task(name@, description@));
                assert(views(tasks@) =~= add_model(views(old(tasks)@), name@, description@));
            }
            Ok(out)
        },
    }
}

/// Replaces the description of the first task named `name`; its name, status
/// and position are unchanged. Fails with `NotFound`, leaving the collection
/// unchanged, when no task has that name.
pub fn edit(tasks: &mut Vec<Todo>, name: &str, description: &str) -> (r: Result<Todo, TodoError>)
    ensures
        match r {
            Ok(t) => has_name(views(old(tasks)@), name@) && views(final(tasks)@) == edit_model(
                views(old(tasks)@),
                name@,
                description@,
            ) && t@ == views(final(tasks)@)[first_index(views(old(tasks)@), name@)],
            Err(e) => !has_name(views(old(tasks)@), name@) && e == TodoError::NotFound && final(tasks)@ == old(tasks)@,
        },
{
    match find_first(tasks, name) {
        None => Err(TodoError::NotFound),
        Some(i) => {
            let t = Todo {
                name: tasks[i].name.clone(),
                description: description.to_owned(),
                status: tasks[i].status,
            };
            let out = t.clone();
            tasks.set(i, t);
            proof {
                assert(views(tasks@) =~= edit_model(views(old(tasks)@), name@, description@));
            }
            Ok(out)
        },
    }
}

/// Marks the first task named `name` as `Done`, whatever its status was; the
/// call is idempotent. Fails with `NotFound`, leaving the collection
/// unchanged, when no task has that name.
pub fn tick(tasks: &mut Vec<Todo>, name: &str) -> (r: Result<Todo, TodoError>)
    ensures
        match r {
            Ok(t) => has_name(views(old(tasks)@), name@) && views(final(tasks)@) == tick_model(
                views(old(tasks)@),
                name@,
            ) && t@ == views(final(tasks)@)[first_index(views(old(tasks)@), name@)],
            Err(e) => !has_name(views(old(tasks)@), name@) && e == TodoError::NotFound && final(tasks)@ == old(tasks)@,
        },
{
    match find_first(tasks, name) {
        None => Err(TodoError::NotFound),
        Some(i) => {
            let t = Todo {
                name: tasks[i].name.clone(),
                description: tasks[i].description.clone(),
                status: Status::Done,
            };
            let out = t.clone();
            tasks.set(i, t);
            proof {
                assert(views(tasks@) =~= tick_model(views(old(tasks)@), name@));
            }
            Ok(out)
        },
    }
}

/// Deletes exactly the first task named `name`, keeping the relative order of
/// the rest. Fails with `NotFound`, leaving the collection unchanged, when no
/// task has that name.
pub fn remove(tasks: &mut Vec<Todo>, name: &str) -> (r: Result<(), TodoError>)
    ensures
        match r {
            Ok(u) => has_name(views(old(tasks)@), name@) && views(final(tasks)@) == remove_model(
                views(old(tasks)@),
                name@,
            ),
            Err(e) => !has_name(views(old(tasks)@), name@) && e == TodoError::NotFound && final(tasks)@ == old(tasks)@,
        },
{
    match find_first(tasks, name) {
        None => Err(TodoError::NotFound),
        Some(i) => {
            tasks.remove(i);
            proof {
                assert(views(tasks@) =~= remove_model(views(old(tasks)@), name@));
            }
            Ok(())
        },
    }
}

/// Decodes a persisted document into a task collection. An absent document
/// means no tasks yet, not an error; a present document that is not a valid
/// encoding of a task list is a deserialization failure.
pub fn load_todos(doc: Option<&str>) -> (r: Result<Vec<Todo>, TodoError>)
    ensures
        match r {
            Ok(ts) => match doc {
                None => views(ts@) == Seq::<TodoView>::empty(),
                Some(d) => dec_doc(d@) == Some(views(ts@)),
            },
            Err(e) => e == TodoError::DeserializationFailure && match doc {
                None => false,
                Some(d) => dec_doc(d@) is None,
            },
        },
{
    match doc {
        None => {
            let out: Vec<Todo> = Vec::new();
            proof {
                assert(views(out@) =~= Seq::<TodoView>::empty());
            }
            Ok(out)
        },
        Some(d) => {
            let cs = str_to_chars(d);
            match parse_doc(&cs) {
                Some(ts) => Ok(ts),
                None => Err(TodoError::DeserializationFailure),
            }
        },
    }
}

/// Renders the full task collection as the single document that replaces
/// any previous contents of the store.
pub fn save_todos(tasks: &Vec<Todo>) -> (doc: String)
    ensures
        doc@ == enc_doc(views(tasks@)),
{
    render_doc(tasks)
}

/// The full ordered task collection, unmodified.
pub fn list(tasks: &Vec<Todo>) -> (r: Vec<Todo>)
    ensures
        r@ == tasks@,
{
    let mut out: Vec<Todo> = Vec::new();
    let mut i: usize = 0;
    while i < tasks.len()
        invariant
            0 <= i <= tasks@.len(),
            out@ == tasks@.take(i as int),
        decreases tasks@.len() - i,
    {
        out.push(tasks[i].clone());
        proof {
            assert(out@ =~= tasks@.take(i + 1));
        }
        i += 1;
    }
    proof {
        assert(tasks@.take(tasks@.len() as int) =~= tasks@);
    }
    out
}

} // verus!
