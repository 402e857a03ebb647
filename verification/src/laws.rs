//! What holds of the model's operations, whatever the store and the inputs.

use vstd::prelude::*;
use crate::model::{
    lemma_without_absent, lemma_without_present, lemma_without_sound, retasked, Quota,
    StoreError, StoreView, TodoView, MAX_TODO_CHARS, MAX_TODO_PER_USER, MAX_USERS,
};

verus! {

/// The store before anything was added meets the invariant.
pub proof fn lemma_empty_inv()
    ensures
        StoreView::empty().inv(),
        StoreView::empty().user_count() == 0,
{
}

/// `add` keeps the invariant: no quota is ever exceeded, and no two todos
/// share an identifier. It admits at most the user it is called for, and
/// only together with a todo.
pub proof fn lemma_add_inv(s: StoreView, user: Seq<u8>, task: Seq<char>)
    requires
        s.inv(),
    ensures
        s.add(user, task).inv(),
        forall|u: Seq<u8>| #[trigger]
            s.add(user, task).knows(u) <==> s.knows(u) || (u == user && s.add_error(user, task)
                is None),
        s.add_error(user, task) is None ==> s.add(user, task).todos_of(user).len() > 0,
        s.add(user, task).user_count() == if s.add_error(user, task) is None && !s.knows(user) {
            s.user_count() + 1
        } else {
            s.user_count()
        },
{
    broadcast use vstd::set::group_set_axioms;

    let t = s.add(user, task);
    if s.add_error(user, task) is None {
        let todos = s.todos_of(user).push(s.added(task));
        assert(t.todo_by_user.dom() =~= s.todo_by_user.dom().insert(user));
        assert forall|u: Seq<u8>| #[trigger] t.knows(u) implies t.todo_by_user[u].len()
            <= MAX_TODO_PER_USER by {
            if u != user {
                assert(s.knows(u));
            }
        }
        assert forall|u: Seq<u8>, j: int|
            t.knows(u) && 0 <= j < t.todo_by_user[u].len() implies (
        #[trigger] t.todo_by_user[u][j]).task.len() <= MAX_TODO_CHARS && 1
            <= t.todo_by_user[u][j].id <= t.next_todo by {
            if u != user {
                assert(t.todo_by_user[u][j] == s.todo_by_user[u][j]);
            } else if j < s.todos_of(user).len() {
                assert(t.todo_by_user[u][j] == s.todo_by_user[u][j]);
            }
        }
        assert forall|u: Seq<u8>, j: int, v: Seq<u8>, k: int|
            t.knows(u) && 0 <= j < t.todo_by_user[u].len() && t.knows(v) && 0 <= k
                < t.todo_by_user[v].len() && (#[trigger] t.todo_by_user[u][j]).id == (
            #[trigger] t.todo_by_user[v][k]).id implies u == v && j == k by {
            let old_u = u != user || j < s.todos_of(user).len();
            let old_v = v != user || k < s.todos_of(user).len();
            if old_u {
                assert(t.todo_by_user[u][j] == s.todo_by_user[u][j]);
            }
            if old_v {
                assert(t.todo_by_user[v][k] == s.todo_by_user[v][k]);
            }
        }
    }
}

/// `update` keeps the invariant, and admits and forgets no user.
pub proof fn lemma_update_inv(s: StoreView, user: Seq<u8>, id: nat, task: Seq<char>)
    requires
        s.inv(),
    ensures
        s.update(user, id, task).inv(),
        forall|u: Seq<u8>| #[trigger] s.update(user, id, task).knows(u) <==> s.knows(u),
        s.update(user, id, task).user_count() == s.user_count(),
{
    broadcast use vstd::set::group_set_axioms;

    let t = s.update(user, id, task);
    if s.update_error(id, task) is None && s.knows(user) {
        assert(t.todo_by_user.dom() =~= s.todo_by_user.dom());
        assert forall|u: Seq<u8>| #[trigger] t.knows(u) implies t.todo_by_user[u].len()
            <= MAX_TODO_PER_USER by {
            assert(s.knows(u));
        }
        assert forall|u: Seq<u8>, j: int|
            t.knows(u) && 0 <= j < t.todo_by_user[u].len() implies (
        #[trigger] t.todo_by_user[u][j]).id == s.todo_by_user[u][j].id && (t.todo_by_user[u][j].task
            == s.todo_by_user[u][j].task || t.todo_by_user[u][j].task == task) by {}
    }
}

/// `delete` keeps the invariant, and admits and forgets no user: a user
/// whose last todo is deleted still counts.
pub proof fn lemma_delete_inv(s: StoreView, user: Seq<u8>, id: nat)
    requires
        s.inv(),
    ensures
        s.delete(user, id).inv(),
        forall|u: Seq<u8>| #[trigger] s.delete(user, id).knows(u) <==> s.knows(u),
        s.delete(user, id).user_count() == s.user_count(),
{
    broadcast use vstd::set::group_set_axioms;

    let t = s.delete(user, id);
    if s.delete_error(id) is None && s.knows(user) {
        let before = s.todo_by_user[user];
        assert(t.todo_by_user.dom() =~= s.todo_by_user.dom());
        if s.has_id(user, id) {
            let j = choose|j: int| 0 <= j < before.len() && (#[trigger] before[j]).id == id;
            assert forall|k: int| 0 <= k < before.len() && k != j implies (#[trigger] before[k]).id
                != id by {
                assert(s.todo_by_user[user][k].id != s.todo_by_user[user][j].id);
            }
            lemma_without_present(before, id, j);
            assert forall|u: Seq<u8>, k: int|
                t.knows(u) && 0 <= k < t.todo_by_user[u].len() implies (
            #[trigger] t.todo_by_user[u][k]) == s.todo_by_user[u][if u == user && k >= j {
                k + 1
            } else {
                k
            }] by {}
            assert forall|u: Seq<u8>| #[trigger] t.knows(u) implies t.todo_by_user[u].len()
                <= MAX_TODO_PER_USER by {
                assert(s.knows(u));
            }
        } else {
            assert forall|k: int| 0 <= k < before.len() implies (#[trigger] before[k]).id
                != id by {
                assert(s.todos_of(user)[k] == before[k]);
            }
            lemma_without_absent(before, id);
            assert(t.todo_by_user =~= s.todo_by_user);
        }
    }
}

/// One request to `add`: the user and the text.
pub struct AddRequest {
    pub user: Seq<u8>,
    pub task: Seq<char>,
}

/// The store after the requests were handed to `add` one after the other.
pub open spec fn after_adds(s: StoreView, requests: Seq<AddRequest>) -> StoreView
    decreases requests.len(),
{
    if requests.len() == 0 {
        s
    } else {
        after_adds(s, requests.drop_last()).add(requests.last().user, requests.last().task)
    }
}

/// The identifiers of the todos that the accepted requests created, in
/// the order of the requests.
pub open spec fn issued_ids(s: StoreView, requests: Seq<AddRequest>) -> Seq<nat>
    decreases requests.len(),
{
    if requests.len() == 0 {
        Seq::empty()
    } else {
        let before = after_adds(s, requests.drop_last());
        let ids = issued_ids(s, requests.drop_last());
        if before.add_error(requests.last().user, requests.last().task) is None {
            ids.push(before.added(requests.last().task).id)
        } else {
            ids
        }
    }
}

/// Whatever the users and texts of a run of `add`, the identifiers that it
/// issues are strictly increasing, so no two are the same; they follow
/// the counter's value before the run one by one, the first being one
/// above it; and no todo that the store held before the run has one of them.
pub proof fn lemma_issued_ids_increase(s: StoreView, requests: Seq<AddRequest>)
    requires
        s.inv(),
    ensures
        after_adds(s, requests).inv(),
        after_adds(s, requests).next_todo == s.next_todo + issued_ids(s, requests).len(),
        forall|a: int|
            0 <= a < issued_ids(s, requests).len() ==> #[trigger] issued_ids(s, requests)[a]
                == s.next_todo + 1 + a,
        forall|a: int, b: int|
            0 <= a < b < issued_ids(s, requests).len() ==> issued_ids(s, requests)[a]
                < issued_ids(s, requests)[b],
        forall|u: Seq<u8>, j: int, a: int|
            0 <= j < s.todos_of(u).len() && 0 <= a < issued_ids(s, requests).len() ==> (
            #[trigger] s.todos_of(u)[j]).id != #[trigger] issued_ids(s, requests)[a],
    decreases requests.len(),
{
    if requests.len() > 0 {
        let front = requests.drop_last();
        lemma_issued_ids_increase(s, front);
        lemma_add_inv(after_adds(s, front), requests.last().user, requests.last().task);
    }
    assert forall|u: Seq<u8>, j: int, a: int|
        0 <= j < s.todos_of(u).len() && 0 <= a < issued_ids(s, requests).len() implies (
    #[trigger] s.todos_of(u)[j]).id != #[trigger] issued_ids(s, requests)[a] by {
        assert(s.todo_by_user[u][j].id <= s.next_todo);
    }
}

/// An `add` that no quota stops puts a todo with the text and an
/// identifier that no todo of the store has last among the user's todos,
/// and leaves every other user's todos as they were.
pub proof fn lemma_add_then_list(s: StoreView, user: Seq<u8>, task: Seq<char>, other: Seq<u8>)
    requires
        s.inv(),
        task.len() <= MAX_TODO_CHARS,
        s.knows(user) || s.user_count() < MAX_USERS,
        s.todos_of(user).len() < MAX_TODO_PER_USER,
    ensures
        s.add_error(user, task) is None,
        s.added(task).task == task,
        s.add(user, task).todos_of(user) == s.todos_of(user).push(s.added(task)),
        s.add(user, task).has_id(user, s.added(task).id),
        forall|u: Seq<u8>| !#[trigger] s.has_id(u, s.added(task).id),
        other != user ==> s.add(user, task).todos_of(other) == s.todos_of(other),
{
    let t = s.add(user, task);
    let last = s.todos_of(user).len() as int;
    assert(t.todos_of(user)[last].id == s.added(task).id);
    assert forall|u: Seq<u8>| !#[trigger] s.has_id(u, s.added(task).id) by {
        if s.has_id(u, s.added(task).id) {
            let j = choose|j: int|
                0 <= j < s.todos_of(u).len() && (#[trigger] s.todos_of(u)[j]).id == s.added(
                    task,
                ).id;
            assert(s.todo_by_user[u][j].id <= s.next_todo);
        }
    }
}

/// For a user who holds `MAX_TODO_PER_USER` todos, `add` of a text that
/// fits fails with the quota of todos per user, and changes nothing.
pub proof fn lemma_add_full_user(s: StoreView, user: Seq<u8>, task: Seq<char>)
    requires
        s.todos_of(user).len() >= MAX_TODO_PER_USER,
        task.len() <= MAX_TODO_CHARS,
    ensures
        s.add_error(user, task) == Some(StoreError::CapacityExceeded(Quota::RecordsPerUser)),
        s.add(user, task) == s,
{
}

/// For a user that the store does not know, `add` of a text that fits is
/// accepted while the store has fewer than `MAX_USERS` users, and the user
/// then counts; with `MAX_USERS` users it fails with the quota of users,
/// and changes nothing.
pub proof fn lemma_add_new_user(s: StoreView, user: Seq<u8>, task: Seq<char>)
    requires
        s.inv(),
        !s.knows(user),
        task.len() <= MAX_TODO_CHARS,
    ensures
        s.user_count() < MAX_USERS ==> s.add_error(user, task) is None && s.add(user, task).knows(
            user,
        ) && s.add(user, task).user_count() == s.user_count() + 1 && s.add(user, task).todos_of(
            user,
        ) == seq![s.added(task)],
        s.user_count() == MAX_USERS ==> s.add_error(user, task) == Some(
            StoreError::CapacityExceeded(Quota::Users),
        ) && s.add(user, task) == s,
{
    lemma_add_inv(s, user, task);
    if s.user_count() < MAX_USERS {
        assert(s.add(user, task).todos_of(user) =~= seq![s.added(task)]);
    }
}

/// `update` with a text of more than `MAX_TODO_CHARS` characters fails
/// with `PayloadTooLarge`, whatever the identifier, and changes nothing:
/// every todo keeps its text.
pub proof fn lemma_update_too_large(s: StoreView, user: Seq<u8>, id: nat, task: Seq<char>)
    requires
        task.len() > MAX_TODO_CHARS,
    ensures
        s.update_error(id, task) == Some(StoreError::PayloadTooLarge),
        s.update(user, id, task) == s,
{
}

/// An accepted `update` changes the text of the user's todo with the
/// identifier and nothing else: the todos keep their number, places and
/// identifiers, and other users' todos stay.
pub proof fn lemma_update_then_list(
    s: StoreView,
    user: Seq<u8>,
    id: nat,
    task: Seq<char>,
    other: Seq<u8>,
)
    requires
        s.update_error(id, task) is None,
    ensures
        s.update(user, id, task).next_todo == s.next_todo,
        s.update(user, id, task).todos_of(user).len() == s.todos_of(user).len(),
        forall|j: int|
            0 <= j < s.todos_of(user).len() ==> #[trigger] s.update(user, id, task).todos_of(
                user,
            )[j] == if s.todos_of(user)[j].id == id {
                s.todos_of(user)[j].with_task(task)
            } else {
                s.todos_of(user)[j]
            },
        other != user ==> s.update(user, id, task).todos_of(other) == s.todos_of(other),
{
}

/// Of two calls of `delete` with the same user and identifier, the second
/// is judged as the first and changes nothing. Where the identifier
/// passes the admission test, the user has no todo with it after the
/// first call, and still has every todo with another identifier.
pub proof fn lemma_delete_twice(s: StoreView, user: Seq<u8>, id: nat)
    requires
        s.inv(),
    ensures
        s.delete(user, id).delete_error(id) == s.delete_error(id),
        s.delete(user, id).delete(user, id) == s.delete(user, id),
        s.is_id_valid(id) ==> s.delete_error(id) is None && !s.delete(user, id).has_id(user, id),
        forall|j: int|
            0 <= j < s.todos_of(user).len() && (#[trigger] s.todos_of(user)[j]).id != id
                ==> s.delete(user, id).todos_of(user).contains(s.todos_of(user)[j]),
{
    let t = s.delete(user, id);
    lemma_delete_inv(s, user, id);
    if s.knows(user) && s.is_id_valid(id) {
        let before = s.todo_by_user[user];
        let after = t.todo_by_user[user];
        lemma_without_sound(before, id);
        assert(!t.has_id(user, id));
        assert forall|j: int|
            0 <= j < before.len() && (#[trigger] before[j]).id != id implies after.contains(
            before[j],
        ) by {
            before.lemma_filter_contains(|x: TodoView| x.id != id, j);
        }
        lemma_without_absent(after, id);
        assert(t.delete(user, id).todo_by_user =~= t.todo_by_user);
    } else {
        assert forall|j: int|
            0 <= j < s.todos_of(user).len() implies t.todos_of(user).contains(
            #[trigger] s.todos_of(user)[j],
        ) by {
            assert(t.todos_of(user)[j] == s.todos_of(user)[j]);
        }
    }
}

/// After an accepted `add`, an `update` of the new todo that is accepted
/// too leaves the user's earlier todos as they were and the new todo with
/// the second text: for a user without todos, exactly that one todo.
pub proof fn lemma_add_then_update(s: StoreView, user: Seq<u8>, first: Seq<char>, second: Seq<char>)
    requires
        s.inv(),
        s.add_error(user, first) is None,
        s.add(user, first).update_error(s.added(first).id, second) is None,
    ensures
        s.add(user, first).update(user, s.added(first).id, second).todos_of(user) == s.todos_of(
            user,
        ).push(s.added(second)),
{
    let id = s.added(first).id;
    let t = s.add(user, first);
    let before = s.todos_of(user);
    assert forall|j: int| 0 <= j < before.len() implies (#[trigger] before[j]).id != id by {
        assert(s.todo_by_user[user][j].id <= s.next_todo);
    }
    assert(retasked(before.push(s.added(first)), id, second) =~= before.push(s.added(second)));
}

/// An identifier that fails the admission test, being at least
/// `MAX_TODO_PER_USER` times the number of users, is rejected by `delete`
/// with `InvalidId`, and by `update` too where the text fits; neither
/// changes anything, whether or not a todo has the identifier.
pub proof fn lemma_invalid_id_rejected(s: StoreView, user: Seq<u8>, id: nat, task: Seq<char>)
    requires
        id >= MAX_TODO_PER_USER * s.user_count(),
    ensures
        s.delete_error(id) == Some(StoreError::InvalidId),
        s.delete(user, id) == s,
        task.len() <= MAX_TODO_CHARS ==> s.update_error(id, task) == Some(StoreError::InvalidId),
        s.update(user, id, task) == s,
{
}

} // verus!
