//! How the store's two parallel sequences, users and their todos, stand
//! for the map of the model.

use vstd::prelude::*;
use crate::model::{StoreView, TodoView, MAX_TODO_CHARS, MAX_TODO_PER_USER, MAX_USERS};

verus! {

/// The model that a counter, the users and their todos stand for.
pub open spec fn model(next: nat, keys: Seq<Seq<u8>>, vals: Seq<Seq<TodoView>>) -> StoreView {
    StoreView {
        next_todo: next,
        todo_by_user: Map::new(
            |u: Seq<u8>| keys.contains(u),
            |u: Seq<u8>| vals[keys.index_of(u)],
        ),
    }
}

/// The model's invariant, said of the sequences by position.
pub open spec fn seq_inv(next: nat, keys: Seq<Seq<u8>>, vals: Seq<Seq<TodoView>>) -> bool {
    &&& keys.len() == vals.len()
    &&& keys.no_duplicates()
    &&& keys.len() <= MAX_USERS
    &&& forall|i: int| 0 <= i < vals.len() ==> (#[trigger] vals[i]).len() <= MAX_TODO_PER_USER
    &&& forall|i: int, j: int|
        0 <= i < vals.len() && 0 <= j < vals[i].len() ==> {
            &&& (#[trigger] vals[i][j]).task.len() <= MAX_TODO_CHARS
            &&& 1 <= vals[i][j].id <= next
        }
    &&& forall|i: int, j: int, k: int, l: int|
        0 <= i < vals.len() && 0 <= j < vals[i].len() && 0 <= k < vals.len() && 0 <= l
            < vals[k].len() && (#[trigger] vals[i][j]).id == (#[trigger] vals[k][l]).id ==> i == k
            && j == l
}

/// With distinct users, the model knows exactly the users of the sequence,
/// and holds for each the todos at the user's position.
pub proof fn lemma_model_basics(next: nat, keys: Seq<Seq<u8>>, vals: Seq<Seq<TodoView>>)
    requires
        keys.no_duplicates(),
        keys.len() == vals.len(),
    ensures
        model(next, keys, vals).todo_by_user.dom().finite(),
        model(next, keys, vals).user_count() == keys.len(),
        forall|u: Seq<u8>| #[trigger] model(next, keys, vals).knows(u) <==> keys.contains(u),
        forall|i: int|
            0 <= i < keys.len() ==> keys.index_of(#[trigger] keys[i]) == i && model(
                next,
                keys,
                vals,
            ).todo_by_user[keys[i]] == vals[i],
        forall|u: Seq<u8>| #[trigger]
            keys.contains(u) ==> 0 <= keys.index_of(u) < keys.len() && keys[keys.index_of(u)] == u
                && model(next, keys, vals).todo_by_user[u] == vals[keys.index_of(u)],
{
    broadcast use vstd::seq_lib::seq_to_set_is_finite;

    keys.unique_seq_to_set();
    assert(model(next, keys, vals).todo_by_user.dom() =~= keys.to_set());
}

/// The invariant by position gives the model's invariant.
pub proof fn lemma_model_inv(next: nat, keys: Seq<Seq<u8>>, vals: Seq<Seq<TodoView>>)
    requires
        seq_inv(next, keys, vals),
    ensures
        model(next, keys, vals).inv(),
{
    lemma_model_basics(next, keys, vals);
    let m = model(next, keys, vals);
    assert forall|u: Seq<u8>| #[trigger] m.knows(u) implies m.todo_by_user[u].len()
        <= MAX_TODO_PER_USER by {
        assert(keys.contains(u));
    }
    assert forall|u: Seq<u8>, j: int|
        m.knows(u) && 0 <= j < m.todo_by_user[u].len() implies (
    #[trigger] m.todo_by_user[u][j]).task.len() <= MAX_TODO_CHARS && 1 <= m.todo_by_user[u][j].id
        <= m.next_todo by {
        assert(keys.contains(u));
        assert(m.todo_by_user[u][j] == vals[keys.index_of(u)][j]);
    }
    assert forall|u: Seq<u8>, j: int, v: Seq<u8>, k: int|
        m.knows(u) && 0 <= j < m.todo_by_user[u].len() && m.knows(v) && 0 <= k
            < m.todo_by_user[v].len() && (#[trigger] m.todo_by_user[u][j]).id == (
        #[trigger] m.todo_by_user[v][k]).id implies u == v && j == k by {
        assert(keys.contains(u));
        assert(keys.contains(v));
        assert(m.todo_by_user[u][j] == vals[keys.index_of(u)][j]);
        assert(m.todo_by_user[v][k] == vals[keys.index_of(v)][k]);
    }
}

/// Replacing the todos at one position replaces them under that user.
pub proof fn lemma_model_update(
    next: nat,
    next2: nat,
    keys: Seq<Seq<u8>>,
    vals: Seq<Seq<TodoView>>,
    i: int,
    todos: Seq<TodoView>,
)
    requires
        keys.no_duplicates(),
        keys.len() == vals.len(),
        0 <= i < keys.len(),
    ensures
        model(next2, keys, vals.update(i, todos)) == (StoreView {
            next_todo: next2,
            todo_by_user: model(next, keys, vals).todo_by_user.insert(keys[i], todos),
        }),
{
    lemma_model_basics(next, keys, vals);
    lemma_model_basics(next2, keys, vals.update(i, todos));
    let a = model(next2, keys, vals.update(i, todos)).todo_by_user;
    let b = model(next, keys, vals).todo_by_user.insert(keys[i], todos);
    assert forall|u: Seq<u8>| a.dom().contains(u) <==> b.dom().contains(u) by {
        assert(model(next2, keys, vals.update(i, todos)).knows(u) <==> keys.contains(u));
        assert(model(next, keys, vals).knows(u) <==> keys.contains(u));
    }
    assert forall|u: Seq<u8>| #[trigger] a.dom().contains(u) implies a[u] == b[u] by {
        assert(model(next2, keys, vals.update(i, todos)).knows(u));
        assert(keys.contains(u));
    }
    assert(a =~= b);
}

/// A new user at the end, with todos, is a new entry of the model.
pub proof fn lemma_model_push(
    next: nat,
    next2: nat,
    keys: Seq<Seq<u8>>,
    vals: Seq<Seq<TodoView>>,
    user: Seq<u8>,
    todos: Seq<TodoView>,
)
    requires
        keys.no_duplicates(),
        keys.len() == vals.len(),
        !keys.contains(user),
    ensures
        keys.push(user).no_duplicates(),
        model(next2, keys.push(user), vals.push(todos)) == (StoreView {
            next_todo: next2,
            todo_by_user: model(next, keys, vals).todo_by_user.insert(user, todos),
        }),
{
    let keys2 = keys.push(user);
    let vals2 = vals.push(todos);
    assert(keys2.no_duplicates()) by {
        assert forall|x: int, y: int|
            0 <= x < keys2.len() && 0 <= y < keys2.len() && x != y implies keys2[x]
            != keys2[y] by {
            if x < keys.len() {
                assert(keys.contains(keys[x]));
            }
            if y < keys.len() {
                assert(keys.contains(keys[y]));
            }
        }
    }
    lemma_model_basics(next, keys, vals);
    lemma_model_basics(next2, keys2, vals2);
    let a = model(next2, keys2, vals2).todo_by_user;
    let b = model(next, keys, vals).todo_by_user.insert(user, todos);
    assert(keys2[keys.len() as int] == user);
    assert forall|u: Seq<u8>| a.dom().contains(u) <==> b.dom().contains(u) by {
        assert(model(next2, keys2, vals2).knows(u) <==> keys2.contains(u));
        assert(model(next, keys, vals).knows(u) <==> keys.contains(u));
        if keys.contains(u) {
            let x = keys.index_of(u);
            assert(keys2[x] == u);
        }
    }
    assert forall|u: Seq<u8>| #[trigger] a.dom().contains(u) implies a[u] == b[u] by {
        assert(model(next2, keys2, vals2).knows(u));
        assert(keys2.contains(u));
        let x = keys2.index_of(u);
        if x < keys.len() {
            assert(keys[x] == u);
            assert(keys.contains(u));
        }
    }
    assert(a =~= b);
}

} // verus!
