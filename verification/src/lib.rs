//! A per-user todo store with hard quotas on users, todos per user and
//! todo length.

pub mod model;
pub mod todo;
mod repr;
pub mod store;
pub mod laws;

pub use model::{
    Quota, StoreError, StoreView, TodoView, MAX_TODO_CHARS, MAX_TODO_PER_USER, MAX_USERS,
};
pub use store::TodoStore;
pub use todo::Todo;
