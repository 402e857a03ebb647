//! The mathematical model of the store: what it holds and what each
//! operation does to it.

use vstd::prelude::*;

verus! {

/// The largest number of distinct users that the store admits.
pub const MAX_USERS: usize = 1000;

/// The largest number of todos that one user may hold.
pub const MAX_TODO_PER_USER: usize = 500;

/// The largest number of characters in the text of one todo.
pub const MAX_TODO_CHARS: usize = 1000;

/// The quota that a rejected `add` would have exceeded.
#[derive(Clone, Copy, Debug, PartialEq, Eq, Structural)]
pub enum Quota {
    Users,
    RecordsPerUser,
}

/// Why an operation was rejected. A rejected operation changes nothing.
#[derive(Clone, Copy, Debug, PartialEq, Eq, Structural)]
pub enum StoreError {
    /// The text has more than `MAX_TODO_CHARS` characters.
    PayloadTooLarge,
    /// Admitting the user, or the todo, would exceed a quota.
    CapacityExceeded(Quota),
    /// The identifier is not below `MAX_TODO_PER_USER` times the number of users.
    InvalidId,
}

/// A todo as a mathematical value.
pub struct TodoView {
    pub id: nat,
    pub task: Seq<char>,
}

/// The store as a mathematical value: the last identifier issued, and the
/// todos of each user that was ever admitted, in the order of their creation.
pub struct StoreView {
    pub next_todo: nat,
    pub todo_by_user: Map<Seq<u8>, Seq<TodoView>>,
}

impl TodoView {
    /// This todo with its text replaced.
    pub open spec fn with_task(self, task: Seq<char>) -> TodoView {
        TodoView { id: self.id, task }
    }
}

/// What `update` does to one user's todos: every todo with the identifier
/// gets the new text, and nothing moves.
pub open spec fn retasked(todos: Seq<TodoView>, id: nat, task: Seq<char>) -> Seq<TodoView> {
    todos.map_values(|t: TodoView| if t.id == id { t.with_task(task) } else { t })
}

/// What `delete` does to one user's todos: the todos with another
/// identifier stay, in their order.
pub open spec fn without_id(todos: Seq<TodoView>, id: nat) -> Seq<TodoView> {
    todos.filter(|t: TodoView| t.id != id)
}

/// Deleting an identifier that no todo has changes nothing.
pub proof fn lemma_without_absent(todos: Seq<TodoView>, id: nat)
    requires
        forall|j: int| 0 <= j < todos.len() ==> (#[trigger] todos[j]).id != id,
    ensures
        without_id(todos, id) == todos,
    decreases todos.len(),
{
    reveal(Seq::filter);
    if todos.len() > 0 {
        lemma_without_absent(todos.drop_last(), id);
        assert(todos.drop_last().push(todos.last()) =~= todos);
    }
}

/// Where exactly one todo has the identifier, deleting it removes that
/// todo and keeps the others in place.
pub proof fn lemma_without_present(todos: Seq<TodoView>, id: nat, j: int)
    requires
        0 <= j < todos.len(),
        todos[j].id == id,
        forall|k: int| 0 <= k < todos.len() && k != j ==> (#[trigger] todos[k]).id != id,
    ensures
        without_id(todos, id) == todos.remove(j),
    decreases todos.len(),
{
    reveal(Seq::filter);
    let front = todos.drop_last();
    if j == todos.len() - 1 {
        lemma_without_absent(front, id);
        assert(todos.remove(j) =~= front);
    } else {
        lemma_without_present(front, id, j);
        assert(front.remove(j).push(todos.last()) =~= todos.remove(j));
    }
}

/// After deleting an identifier no todo has it, and the todos that stay
/// are todos that were there.
pub proof fn lemma_without_sound(todos: Seq<TodoView>, id: nat)
    ensures
        without_id(todos, id).len() <= todos.len(),
        forall|j: int|
            0 <= j < without_id(todos, id).len() ==> (#[trigger] without_id(todos, id)[j]).id != id
                && todos.contains(without_id(todos, id)[j]),
    decreases todos.len(),
{
    reveal(Seq::filter);
    if todos.len() > 0 {
        let front = todos.drop_last();
        lemma_without_sound(front, id);
        assert forall|j: int| 0 <= j < without_id(todos, id).len() implies todos.contains(
            #[trigger] without_id(todos, id)[j],
        ) by {
            if j < without_id(front, id).len() {
                let x = without_id(front, id)[j];
                assert(front.contains(x));
                let w = choose|w: int| 0 <= w < front.len() && front[w] == x;
                assert(todos[w] == x);
            } else {
                assert(todos[todos.len() - 1] == todos.last());
            }
        }
    }
}

impl StoreView {
    /// The store before anything was added.
    pub open spec fn empty() -> StoreView {
        StoreView { next_todo: 0, todo_by_user: Map::empty() }
    }

    /// Whether the user was ever admitted.
    pub open spec fn knows(self, user: Seq<u8>) -> bool {
        self.todo_by_user.dom().contains(user)
    }

    /// The number of users that were ever admitted.
    pub open spec fn user_count(self) -> nat {
        self.todo_by_user.dom().len()
    }

    /// The user's todos in the order of their creation; none for a user
    /// that the store does not know.
    pub open spec fn todos_of(self, user: Seq<u8>) -> Seq<TodoView> {
        if self.knows(user) {
            self.todo_by_user[user]
        } else {
            Seq::empty()
        }
    }

    /// Whether some todo of the user has this identifier.
    pub open spec fn has_id(self, user: Seq<u8>, id: nat) -> bool {
        exists|j: int|
            0 <= j < self.todos_of(user).len() && (#[trigger] self.todos_of(user)[j]).id == id
    }

    /// The admission test on identifiers: below `MAX_TODO_PER_USER` times
    /// the number of users. It does not say that such a todo exists.
    pub open spec fn is_id_valid(self, id: nat) -> bool {
        id < MAX_TODO_PER_USER * self.user_count()
    }

    /// What holds of every store that the operations can reach.
    pub open spec fn inv(self) -> bool {
        &&& self.todo_by_user.dom().finite()
        &&& self.user_count() <= MAX_USERS
        &&& forall|u: Seq<u8>| #[trigger]
            self.knows(u) ==> self.todo_by_user[u].len() <= MAX_TODO_PER_USER
        &&& forall|u: Seq<u8>, j: int|
            self.knows(u) && 0 <= j < self.todo_by_user[u].len() ==> {
                &&& (#[trigger] self.todo_by_user[u][j]).task.len() <= MAX_TODO_CHARS
                &&& 1 <= self.todo_by_user[u][j].id <= self.next_todo
            }
        &&& forall|u: Seq<u8>, j: int, v: Seq<u8>, k: int|
            self.knows(u) && 0 <= j < self.todo_by_user[u].len() && self.knows(v) && 0 <= k
                < self.todo_by_user[v].len() && (#[trigger] self.todo_by_user[u][j]).id == (
            #[trigger] self.todo_by_user[v][k]).id ==> u == v && j == k
    }

    /// The error with which `add` rejects the text for the user, if it does.
    /// The text is judged first, then the user's admission, then the user's
    /// own quota.
    pub open spec fn add_error(self, user: Seq<u8>, task: Seq<char>) -> Option<StoreError> {
        if task.len() > MAX_TODO_CHARS {
            Some(StoreError::PayloadTooLarge)
        } else if !self.knows(user) && self.user_count() >= MAX_USERS {
            Some(StoreError::CapacityExceeded(Quota::Users))
        } else if self.todos_of(user).len() >= MAX_TODO_PER_USER {
            Some(StoreError::CapacityExceeded(Quota::RecordsPerUser))
        } else {
            None
        }
    }

    /// The todo that an accepted `add` creates: the next identifier, which
    /// is one above the last that was issued, with the text.
    pub open spec fn added(self, task: Seq<char>) -> TodoView {
        TodoView { id: self.next_todo + 1, task }
    }

    /// The store after `add`: unchanged where it is rejected; else the new
    /// todo stands last among the user's, and the counter has advanced by one.
    pub open spec fn add(self, user: Seq<u8>, task: Seq<char>) -> StoreView {
        if self.add_error(user, task).is_some() {
            self
        } else {
            StoreView {
                next_todo: self.next_todo + 1,
                todo_by_user: self.todo_by_user.insert(
                    user,
                    self.todos_of(user).push(self.added(task)),
                ),
            }
        }
    }

    /// The error with which `update` rejects the identifier and text, if it
    /// does. The text is judged first.
    pub open spec fn update_error(self, id: nat, task: Seq<char>) -> Option<StoreError> {
        if task.len() > MAX_TODO_CHARS {
            Some(StoreError::PayloadTooLarge)
        } else if !self.is_id_valid(id) {
            Some(StoreError::InvalidId)
        } else {
            None
        }
    }

    /// The store after `update`: unchanged where it is rejected or the user
    /// is unknown; else the user's todo with that identifier has the new text.
    pub open spec fn update(self, user: Seq<u8>, id: nat, task: Seq<char>) -> StoreView {
        if self.update_error(id, task).is_some() || !self.knows(user) {
            self
        } else {
            StoreView {
                next_todo: self.next_todo,
                todo_by_user: self.todo_by_user.insert(
                    user,
                    retasked(self.todo_by_user[user], id, task),
                ),
            }
        }
    }

    /// The error with which `delete` rejects the identifier, if it does.
    pub open spec fn delete_error(self, id: nat) -> Option<StoreError> {
        if !self.is_id_valid(id) {
            Some(StoreError::InvalidId)
        } else {
            None
        }
    }

    /// The store after `delete`: unchanged where it is rejected or the user
    /// is unknown; else the user's todo with that identifier is gone. The
    /// user stays known, and the counter stays.
    pub open spec fn delete(self, user: Seq<u8>, id: nat) -> StoreView {
        if self.delete_error(id).is_some() || !self.knows(user) {
            self
        } else {
            StoreView {
                next_todo: self.next_todo,
                todo_by_user: self.todo_by_user.insert(
                    user,
                    without_id(self.todo_by_user[user], id),
                ),
            }
        }
    }
}

} // verus!
