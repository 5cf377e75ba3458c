//! Laws of the store operations, stated over the models that the operations'
//! contracts use and proved once and for all.

use vstd::prelude::*;

use crate::task::{TodoView, Status};
use crate::task::{has_name, first_index, count_name, unique_names, fresh_task};
use crate::task::{add_model, edit_model, tick_model, remove_model};
use crate::task::{lemma_first_index, lemma_first_index_is};

verus! {

proof fn lemma_count_zero(s: Seq<TodoView>, n: Seq<char>)
    requires
        !has_name(s, n),
    ensures
        count_name(s, n) == 0,
    decreases s.len(),
{
    if s.len() > 0 {
        assert(s[0].name != n);
        assert forall|i: int| 0 <= i < s.drop_first().len() implies s.drop_first()[i].name
            != n by {
            assert(s.drop_first()[i] == s[i + 1]);
        }
        lemma_count_zero(s.drop_first(), n);
    }
}

proof fn lemma_count_push(s: Seq<TodoView>, t: TodoView, n: Seq<char>)
    ensures
        count_name(s.push(t), n) == count_name(s, n) + (if t.name == n {
            1int
        } else {
            0int
        }),
    decreases s.len(),
{
    if s.len() == 0 {
        reveal_with_fuel(count_name, 2);
        assert(s.push(t)[0] == t);
        assert(s.push(t).drop_first() =~= Seq::<TodoView>::empty());
    } else {
        assert(s.push(t)[0] == s[0]);
        assert(s.push(t).drop_first() =~= s.drop_first().push(t));
        lemma_count_push(s.drop_first(), t, n);
    }
}

/// Adding a fresh name leaves the store with exactly one task of that name,
/// and that task carries the given description and the `ToDo` status.
pub proof fn lemma_add_one_match(s: Seq<TodoView>, n: Seq<char>, d: Seq<char>)
    requires
        !has_name(s, n),
    ensures
        count_name(add_model(s, n, d), n) == 1,
        has_name(add_model(s, n, d), n),
        add_model(s, n, d)[first_index(add_model(s, n, d), n)] == fresh_task(n, d),
{
    let s2 = add_model(s, n, d);
    lemma_count_zero(s, n);
    lemma_count_push(s, fresh_task(n, d), n);
    assert(s2[s.len() as int] == fresh_task(n, d));
    assert forall|j: int| 0 <= j < s.len() implies s2[j].name != n by {
        assert(s2[j] == s[j]);
    }
    lemma_first_index_is(s2, n, s.len() as int);
}

/// Once a name has been added, adding it again finds a task with that name,
/// so the second add is a duplicate.
pub proof fn lemma_add_then_duplicate(s: Seq<TodoView>, n: Seq<char>, d: Seq<char>)
    ensures
        has_name(add_model(s, n, d), n),
{
    assert(add_model(s, n, d)[s.len() as int].name == n);
}

/// Ticking is idempotent: after a tick the first task of that name is
/// `Done`, and ticking the same name again changes nothing.
pub proof fn lemma_tick_idempotent(s: Seq<TodoView>, n: Seq<char>)
    requires
        has_name(s, n),
    ensures
        has_name(tick_model(s, n), n),
        tick_model(s, n)[first_index(tick_model(s, n), n)].status == Status::Done,
        tick_model(tick_model(s, n), n) == tick_model(s, n),
{
    lemma_first_index(s, n);
    let i = first_index(s, n);
    let s1 = tick_model(s, n);
    assert(s1[i].name == n);
    assert forall|j: int| 0 <= j < i implies s1[j].name != n by {
        assert(s1[j] == s[j]);
    }
    lemma_first_index_is(s1, n, i);
    assert(tick_model(s1, n) =~= s1);
}

/// Editing changes no name: exactly the same names exist before and after,
/// so which lookups succeed is unchanged by an edit.
pub proof fn lemma_edit_keeps_names(s: Seq<TodoView>, n: Seq<char>, d: Seq<char>, m: Seq<char>)
    requires
        has_name(s, n),
    ensures
        has_name(edit_model(s, n, d), m) == has_name(s, m),
{
    let s1 = edit_model(s, n, d);
    lemma_first_index(s, n);
    assert forall|j: int| 0 <= j < s.len() implies s1[j].name == s[j].name by {
    }
    assert(has_name(s1, m) == has_name(s, m)) by {
        if has_name(s, m) {
            let w = choose|w: int| 0 <= w < s.len() && s[w].name == m;
            assert(s1[w].name == m);
        }
        if has_name(s1, m) {
            let w = choose|w: int| 0 <= w < s1.len() && s1[w].name == m;
            assert(s[w].name == m);
        }
    }
}

/// Removing a name from a store with unique names leaves no task of that
/// name, so removing it a second time fails with nothing found.
pub proof fn lemma_remove_gone(s: Seq<TodoView>, n: Seq<char>)
    requires
        unique_names(s),
        has_name(s, n),
    ensures
        !has_name(remove_model(s, n), n),
{
    lemma_first_index(s, n);
    let i = first_index(s, n);
    let s2 = remove_model(s, n);
    s.remove_ensures(i);
    assert forall|j: int| 0 <= j < s2.len() implies s2[j].name != n by {
        if j < i {
            assert(s2[j] == s[j]);
        } else {
            assert(s2[j] == s[j + 1]);
            assert(s[i].name == n);
        }
    }
}

/// Adding a fresh name preserves the uniqueness of names.
pub proof fn lemma_add_preserves_unique(s: Seq<TodoView>, n: Seq<char>, d: Seq<char>)
    requires
        unique_names(s),
        !has_name(s, n),
    ensures
        unique_names(add_model(s, n, d)),
{
    let s2 = add_model(s, n, d);
    assert forall|i: int, j: int| 0 <= i < j < s2.len() implies s2[i].name != s2[j].name by {
        if j < s.len() {
            assert(s2[i] == s[i] && s2[j] == s[j]);
        } else {
            assert(s2[i] == s[i] && s2[j] == fresh_task(n, d));
        }
    }
}

/// Editing preserves the uniqueness of names: no name changes.
pub proof fn lemma_edit_preserves_unique(s: Seq<TodoView>, n: Seq<char>, d: Seq<char>)
    requires
        unique_names(s),
        has_name(s, n),
    ensures
        unique_names(edit_model(s, n, d)),
{
    lemma_first_index(s, n);
    let s1 = edit_model(s, n, d);
    assert forall|i: int, j: int| 0 <= i < j < s1.len() implies s1[i].name != s1[j].name by {
        assert(s1[i].name == s[i].name && s1[j].name == s[j].name);
    }
}

/// Ticking preserves the uniqueness of names: no name changes.
pub proof fn lemma_tick_preserves_unique(s: Seq<TodoView>, n: Seq<char>)
    requires
        unique_names(s),
        has_name(s, n),
    ensures
        unique_names(tick_model(s, n)),
{
    lemma_first_index(s, n);
    let s1 = tick_model(s, n);
    assert forall|i: int, j: int| 0 <= i < j < s1.len() implies s1[i].name != s1[j].name by {
        assert(s1[i].name == s[i].name && s1[j].name == s[j].name);
    }
}

/// Removing preserves the uniqueness of names: what remains is a
/// subsequence of the original tasks.
pub proof fn lemma_remove_preserves_unique(s: Seq<TodoView>, n: Seq<char>)
    requires
        unique_names(s),
        has_name(s, n),
    ensures
        unique_names(remove_model(s, n)),
{
    lemma_first_index(s, n);
    let i = first_index(s, n);
    let s2 = remove_model(s, n);
    s.remove_ensures(i);
    assert forall|a: int, b: int| 0 <= a < b < s2.len() implies s2[a].name != s2[b].name by {
        if b < i {
            assert(s2[a] == s[a] && s2[b] == s[b]);
        } else if a < i {
            assert(s2[a] == s[a] && s2[b] == s[b + 1]);
        } else {
            assert(s2[a] == s[a + 1] && s2[b] == s[b + 1]);
        }
    }
}

} // verus!
