//! The record type that the store hands out.

use vstd::prelude::*;
use crate::model::TodoView;

verus! {

/// One todo: an identifier that the store issued and the text of the task.
#[derive(Debug)]
pub struct Todo {
    pub id: u128,
    pub task: String,
}

impl View for Todo {
    type V = TodoView;

    open spec fn view(&self) -> TodoView {
        TodoView { id: self.id as nat, task: self.task@ }
    }
}

/// The mathematical values of a sequence of todos, in the same order.
pub open spec fn todo_views(todos: Seq<Todo>) -> Seq<TodoView> {
    todos.map_values(|t: Todo| t@)
}

impl Clone for Todo {
    fn clone(&self) -> (r: Todo)
        ensures
            r == *self,
    {
        Todo { id: self.id, task: self.task.clone() }
    }
}

impl Todo {
    /// A todo with the given identifier and text.
    pub fn new(id: u128, task: String) -> (r: Todo)
        ensures
            r.id == id,
            r.task == task,
    {
        Todo { id, task }
    }
}

} // verus!
