//! The executable store: a counter for identifiers, and the users with
//! their todos in the order in which the users were admitted.

use vstd::prelude::*;
use vstd::string::StrSliceExecFns;
use crate::model::{
    lemma_without_absent, lemma_without_present, retasked, Quota, StoreError, StoreView,
    TodoView, MAX_TODO_CHARS, MAX_TODO_PER_USER, MAX_USERS,
};
use crate::repr::{
    lemma_model_basics, lemma_model_inv, lemma_model_push, lemma_model_update, model, seq_inv,
};
use crate::todo::{todo_views, Todo};

verus! {

/// One admitted user and the user's todos.
struct UserTodos {
    user: Vec<u8>,
    todos: Vec<Todo>,
}

/// The store. Its view is a `StoreView`.
pub struct TodoStore {
    next_todo: u128,
    todo_by_user: Vec<UserTodos>,
}

impl View for TodoStore {
    type V = StoreView;

    closed spec fn view(&self) -> StoreView {
        model(self.next_todo as nat, self.keys(), self.vals())
    }
}

/// Whether two byte strings are the same.
fn same_bytes(a: &Vec<u8>, b: &Vec<u8>) -> (r: bool)
    ensures
        r == (a@ == b@),
{
    if a.len() != b.len() {
        return false;
    }
    let mut i: usize = 0;
    while i < a.len()
        invariant
            a.len() == b.len(),
            i <= a.len(),
            forall|k: int| 0 <= k < i ==> a@[k] == b@[k],
        decreases a.len() - i,
    {
        if a[i] != b[i] {
            return false;
        }
        i += 1;
    }
    assert(a@ =~= b@);
    true
}

impl TodoStore {
    spec fn keys(&self) -> Seq<Seq<u8>> {
        self.todo_by_user@.map_values(|e: UserTodos| e.user@)
    }

    spec fn vals(&self) -> Seq<Seq<TodoView>> {
        self.todo_by_user@.map_values(|e: UserTodos| todo_views(e.todos@))
    }

    /// The users are distinct, and the quotas hold by position.
    pub closed spec fn repr_ok(&self) -> bool {
        seq_inv(self.next_todo as nat, self.keys(), self.vals())
    }

    /// The store is well formed: its representation is sound and its view
    /// meets the model's invariant.
    pub open spec fn wf(&self) -> bool {
        self.repr_ok() && self@.inv()
    }

    /// The store before anything was added: no user, and no identifier
    /// issued yet.
    pub fn new() -> (r: TodoStore)
        ensures
            r.wf(),
            r@ == StoreView::empty(),
    {
        let r = TodoStore { next_todo: 0, todo_by_user: Vec::new() };
        proof {
            lemma_model_inv(0, r.keys(), r.vals());
            assert(r@.todo_by_user =~= Map::empty());
        }
        r
    }

    /// The position of the user, if the store knows the user.
    fn find_user(&self, user: &Vec<u8>) -> (r: Option<usize>)
        ensures
            match r {
                Some(i) => i < self.todo_by_user.len() && self.keys()[i as int] == user@,
                None => !self.keys().contains(user@),
            },
    {
        let mut i: usize = 0;
        while i < self.todo_by_user.len()
            invariant
                i <= self.todo_by_user.len(),
                forall|k: int| 0 <= k < i ==> self.keys()[k] != user@,
            decreases self.todo_by_user.len() - i,
        {
            if same_bytes(&self.todo_by_user[i].user, user) {
                return Some(i);
            }
            i += 1;
        }
        None
    }

    /// The position of the first todo with the identifier among those of
    /// the user at position `i`.
    fn find_todo(&self, i: usize, id: u128) -> (r: Option<usize>)
        requires
            i < self.todo_by_user.len(),
        ensures
            match r {
                Some(j) => j < self.todo_by_user[i as int].todos.len()
                    && self.todo_by_user[i as int].todos[j as int].id == id,
                None => forall|k: int|
                    0 <= k < self.todo_by_user[i as int].todos.len()
                        ==> (#[trigger] self.todo_by_user[i as int].todos[k]).id != id,
            },
    {
        let todos = &self.todo_by_user[i].todos;
        let mut j: usize = 0;
        while j < todos.len()
            invariant
                i < self.todo_by_user.len(),
                *todos == self.todo_by_user[i as int].todos,
                j <= todos.len(),
                forall|k: int| 0 <= k < j ==> (#[trigger] todos[k]).id != id,
            decreases todos.len() - j,
        {
            if todos[j].id == id {
                return Some(j);
            }
            j += 1;
        }
        None
    }

    /// The last identifier that was issued; 0 before the first.
    pub fn last_id(&self) -> (r: u128)
        ensures
            r == self@.next_todo,
    {
        self.next_todo
    }

    /// Issues the next identifier: one above the last. The counter
    /// advances by one, and nothing else changes.
    fn next_id(&mut self) -> (r: u128)
        requires
            old(self).next_todo < u128::MAX,
        ensures
            r == old(self).next_todo + 1,
            final(self).next_todo == r,
            final(self).todo_by_user == old(self).todo_by_user,
    {
        self.next_todo = self.next_todo + 1;
        self.next_todo
    }

    /// The number of users that were ever admitted.
    pub fn get_user_count(&self) -> (r: usize)
        requires
            self.wf(),
        ensures
            r == self@.user_count(),
            r <= MAX_USERS,
    {
        proof {
            lemma_model_basics(self.next_todo as nat, self.keys(), self.vals());
        }
        self.todo_by_user.len()
    }

    /// Whether the identifier passes the admission test of `update_todo`
    /// and `delete_todo`: it is below `MAX_TODO_PER_USER` times the number
    /// of users.
    pub fn is_id_valid(&self, id: u128) -> (r: bool)
        requires
            self.wf(),
        ensures
            r == self@.is_id_valid(id as nat),
    {
        let users: usize = self.get_user_count();
        id < (MAX_TODO_PER_USER as u128) * (users as u128)
    }

    /// The user's todos in the order of their creation; none for a user
    /// that the store does not know.
    pub fn get_todos(&self, user: &Vec<u8>) -> (r: Vec<Todo>)
        requires
            self.wf(),
        ensures
            todo_views(r@) == self@.todos_of(user@),
            r@.len() == self@.todos_of(user@).len(),
            forall|j: int|
                0 <= j < r@.len() ==> (#[trigger] r@[j])@ == self@.todos_of(user@)[j],
    {
        proof {
            lemma_model_basics(self.next_todo as nat, self.keys(), self.vals());
        }
        let mut out: Vec<Todo> = Vec::new();
        match self.find_user(user) {
            None => {
                assert(todo_views(out@) =~= Seq::empty());
            },
            Some(i) => {
                let todos = &self.todo_by_user[i].todos;
                let mut j: usize = 0;
                while j < todos.len()
                    invariant
                        j <= todos.len(),
                        out@ == todos@.take(j as int),
                    decreases todos.len() - j,
                {
                    out.push(todos[j].clone());
                    assert(out@ =~= todos@.take(j + 1));
                    j += 1;
                }
                assert(out@ =~= todos@);
                assert(self.vals()[i as int] == todo_views(todos@));
            },
        }
        out
    }

    /// Adds a todo with the text for the user and returns it. The store
    /// changes as `StoreView::add` says; the error, if any, is that of
    /// `StoreView::add_error`, and then nothing has changed.
    pub fn add_todo(&mut self, user: Vec<u8>, task: String) -> (r: Result<Todo, StoreError>)
        requires
            old(self).wf(),
            old(self)@.next_todo < u128::MAX,
        ensures
            final(self).wf(),
            final(self)@ == old(self)@.add(user@, task@),
            match r {
                Ok(t) => old(self)@.add_error(user@, task@) is None && t@ == old(self)@.added(
                    task@,
                ),
                Err(e) => old(self)@.add_error(user@, task@) == Some(e),
            },
    {
        let ghost next = self.next_todo as nat;
        let ghost keys = self.keys();
        let ghost vals = self.vals();
        let ghost who = user@;
        proof {
            lemma_model_basics(next, keys, vals);
        }
        if task.as_str().unicode_len() > MAX_TODO_CHARS {
            return Err(StoreError::PayloadTooLarge);
        }
        let ghost fresh = TodoView { id: next + 1, task: task@ };
        let id: u128;
        match self.find_user(&user) {
            None => {
                if self.todo_by_user.len() >= MAX_USERS {
                    return Err(StoreError::CapacityExceeded(Quota::Users));
                }
                id = self.next_id();
                let mut todos: Vec<Todo> = Vec::new();
                todos.push(Todo { id, task: task.clone() });
                self.todo_by_user.push(UserTodos { user, todos });
                proof {
                    assert(self.keys() =~= keys.push(who));
                    assert(todo_views(seq![Todo { id, task }]) =~= seq![fresh]);
                    assert(self.vals() =~= vals.push(seq![fresh]));
                    assert(Seq::<TodoView>::empty().push(fresh) =~= seq![fresh]);
                    lemma_model_push(next, id as nat, keys, vals, who, seq![fresh]);
                }
            },
            Some(i) => {
                if self.todo_by_user[i].todos.len() >= MAX_TODO_PER_USER {
                    assert(vals[i as int].len() >= MAX_TODO_PER_USER);
                    return Err(StoreError::CapacityExceeded(Quota::RecordsPerUser));
                }
                let ghost before = self.todo_by_user[i as int].todos@;
                id = self.next_id();
                self.todo_by_user[i].todos.push(Todo { id, task: task.clone() });
                proof {
                    assert(self.keys() =~= keys);
                    assert(todo_views(before.push(Todo { id, task })) =~= todo_views(before).push(
                        fresh,
                    ));
                    assert(self.vals() =~= vals.update(i as int, vals[i as int].push(fresh)));
                    lemma_model_update(
                        next,
                        id as nat,
                        keys,
                        vals,
                        i as int,
                        vals[i as int].push(fresh),
                    );
                }
            },
        }
        proof {
            lemma_model_inv(self.next_todo as nat, self.keys(), self.vals());
        }
        Ok(Todo { id, task })
    }

    /// Gives the user's todo with the identifier of `todo` the text of
    /// `todo`. The store changes as `StoreView::update` says: a user
    /// without such a todo is no error, and then nothing changes. The
    /// error, if any, is that of `StoreView::update_error`.
    pub fn update_todo(&mut self, user: &Vec<u8>, todo: Todo) -> (r: Result<(), StoreError>)
        requires
            old(self).wf(),
        ensures
            final(self).wf(),
            final(self)@ == old(self)@.update(user@, todo.id as nat, todo.task@),
            r == match old(self)@.update_error(todo.id as nat, todo.task@) {
                Some(e) => Err::<(), StoreError>(e),
                None => Ok(()),
            },
    {
        let ghost next = self.next_todo as nat;
        let ghost keys = self.keys();
        let ghost vals = self.vals();
        let ghost id = todo.id as nat;
        let ghost task = todo.task@;
        proof {
            lemma_model_basics(next, keys, vals);
        }
        if todo.task.as_str().unicode_len() > MAX_TODO_CHARS {
            return Err(StoreError::PayloadTooLarge);
        }
        if !self.is_id_valid(todo.id) {
            return Err(StoreError::InvalidId);
        }
        if let Some(i) = self.find_user(user) {
            let ghost before = vals[i as int];
            match self.find_todo(i, todo.id) {
                None => {
                    proof {
                        assert(retasked(before, id, task) =~= before);
                        assert(vals.update(i as int, before) =~= vals);
                        lemma_model_update(next, next, keys, vals, i as int, before);
                    }
                },
                Some(j) => {
                    self.todo_by_user[i].todos[j].task = todo.task;
                    proof {
                        assert(self.keys() =~= keys);
                        assert(before[j as int].id == id);
                        let after = before.update(j as int, before[j as int].with_task(task));
                        assert(self.vals()[i as int] =~= after);
                        assert(self.vals() =~= vals.update(i as int, after));
                        assert(retasked(before, id, task) =~= after) by {
                            assert forall|k: int| 0 <= k < before.len() && k != j implies (
                            #[trigger] before[k]).id != id by {
                                assert(vals[i as int][k].id != vals[i as int][j as int].id);
                            }
                        }
                        lemma_model_update(next, next, keys, vals, i as int, after);
                        assert forall|a: int, b: int|
                            0 <= a < self.vals().len() && 0 <= b < self.vals()[a].len() implies (
                        #[trigger] self.vals()[a][b]).id == vals[a][b].id && (self.vals()[a][b].task
                            == vals[a][b].task || self.vals()[a][b].task == task) by {}
                        lemma_model_inv(next, self.keys(), self.vals());
                    }
                },
            }
        }
        Ok(())
    }

    /// Removes the user's todo with the identifier; the others keep their
    /// order. The store changes as `StoreView::delete` says: a user
    /// without such a todo is no error, and then nothing changes. The
    /// error, if any, is that of `StoreView::delete_error`.
    pub fn delete_todo(&mut self, user: &Vec<u8>, todo_id: u128) -> (r: Result<(), StoreError>)
        requires
            old(self).wf(),
        ensures
            final(self).wf(),
            final(self)@ == old(self)@.delete(user@, todo_id as nat),
            r == match old(self)@.delete_error(todo_id as nat) {
                Some(e) => Err::<(), StoreError>(e),
                None => Ok(()),
            },
    {
        let ghost next = self.next_todo as nat;
        let ghost keys = self.keys();
        let ghost vals = self.vals();
        let ghost id = todo_id as nat;
        proof {
            lemma_model_basics(next, keys, vals);
        }
        if !self.is_id_valid(todo_id) {
            return Err(StoreError::InvalidId);
        }
        if let Some(i) = self.find_user(user) {
            let ghost before = vals[i as int];
            match self.find_todo(i, todo_id) {
                None => {
                    proof {
                        lemma_without_absent(before, id);
                        assert(vals.update(i as int, before) =~= vals);
                        lemma_model_update(next, next, keys, vals, i as int, before);
                    }
                },
                Some(j) => {
                    self.todo_by_user[i].todos.remove(j);
                    proof {
                        assert(self.keys() =~= keys);
                        let after = before.remove(j as int);
                        assert(self.vals()[i as int] =~= after);
                        assert(self.vals() =~= vals.update(i as int, after));
                        assert forall|k: int| 0 <= k < before.len() && k != j implies (
                        #[trigger] before[k]).id != id by {
                            assert(vals[i as int][k].id != vals[i as int][j as int].id);
                        }
                        lemma_without_present(before, id, j as int);
                        lemma_model_update(next, next, keys, vals, i as int, after);
                        assert forall|a: int, b: int|
                            0 <= a < self.vals().len() && 0 <= b < self.vals()[a].len() implies (
                        #[trigger] self.vals()[a][b]) == vals[a][if a == i && b >= j {
                            b + 1
                        } else {
                            b
                        }] by {}
                        lemma_model_inv(next, self.keys(), self.vals());
                    }
                },
            }
        }
        Ok(())
    }
}

} // verus!
