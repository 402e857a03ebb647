use todo_api_backend::{
    Quota, StoreError, Todo, TodoStore, MAX_TODO_CHARS, MAX_TODO_PER_USER, MAX_USERS,
};

fn user(n: u32) -> Vec<u8> {
    n.to_be_bytes().to_vec()
}

fn text(n: usize) -> String {
    "a".repeat(n)
}

fn pairs(todos: &[Todo]) -> Vec<(u128, String)> {
    todos.iter().map(|t| (t.id, t.task.clone())).collect()
}

fn snapshot(store: &TodoStore, users: &[Vec<u8>]) -> Vec<Vec<(u128, String)>> {
    users.iter().map(|u| pairs(&store.get_todos(u))).collect()
}

#[test]
fn limits_have_their_values() {
    assert_eq!(MAX_USERS, 1000);
    assert_eq!(MAX_TODO_PER_USER, 500);
    assert_eq!(MAX_TODO_CHARS, 1000);
}

#[test]
fn new_store_is_empty() {
    let store = TodoStore::new();
    assert_eq!(store.get_user_count(), 0);
    assert_eq!(store.last_id(), 0);
    assert!(store.get_todos(&user(1)).is_empty());
    assert!(!store.is_id_valid(0));
}

#[test]
fn first_id_is_one() {
    let mut store = TodoStore::new();
    let todo = store.add_todo(user(1), "hello".to_string()).unwrap();
    assert_eq!(todo.id, 1);
    assert_eq!(todo.task, "hello");
    assert_eq!(store.last_id(), 1);
    assert_eq!(store.get_user_count(), 1);
}

#[test]
fn ids_increase_across_users() {
    let mut store = TodoStore::new();
    let mut ids = Vec::new();
    for round in 0..5u32 {
        for u in 0..4u32 {
            let todo = store.add_todo(user(u), format!("{round}-{u}")).unwrap();
            ids.push(todo.id);
        }
    }
    let expected: Vec<u128> = (1..=20).collect();
    assert_eq!(ids, expected);
    assert_eq!(pairs(&store.get_todos(&user(2)))[1], (7, "1-2".to_string()));
}

#[test]
fn rejected_add_issues_no_id() {
    let mut store = TodoStore::new();
    assert_eq!(store.add_todo(user(1), text(1001)).unwrap_err(), StoreError::PayloadTooLarge);
    assert_eq!(store.last_id(), 0);
    assert_eq!(store.get_user_count(), 0);
    assert_eq!(store.add_todo(user(1), text(3)).unwrap().id, 1);
}

#[test]
fn add_is_listed_and_others_are_untouched() {
    let mut store = TodoStore::new();
    store.add_todo(user(1), "one".to_string()).unwrap();
    store.add_todo(user(2), "two".to_string()).unwrap();
    let other_before = pairs(&store.get_todos(&user(2)));
    let todo = store.add_todo(user(1), "x".to_string()).unwrap();
    assert_eq!(todo.id, 3);
    assert_eq!(
        pairs(&store.get_todos(&user(1))),
        vec![(1, "one".to_string()), (3, "x".to_string())]
    );
    assert_eq!(pairs(&store.get_todos(&user(2))), other_before);
    assert!(store.get_todos(&user(3)).is_empty());
}

#[test]
fn text_length_is_counted_in_characters() {
    let mut store = TodoStore::new();
    assert!(store.add_todo(user(1), String::new()).is_ok());
    assert!(store.add_todo(user(1), text(1000)).is_ok());
    assert_eq!(store.add_todo(user(1), text(1001)).unwrap_err(), StoreError::PayloadTooLarge);
    let wide = "\u{e9}".repeat(1000);
    assert_eq!(wide.len(), 2000);
    assert!(store.add_todo(user(1), wide.clone()).is_ok());
    let too_wide = "\u{e9}".repeat(1001);
    assert_eq!(store.add_todo(user(1), too_wide).unwrap_err(), StoreError::PayloadTooLarge);
    assert_eq!(store.get_todos(&user(1)).len(), 3);
    assert_eq!(store.get_todos(&user(1))[2].task, wide);
}

#[test]
fn full_user_is_rejected_and_store_unchanged() {
    let mut store = TodoStore::new();
    store.add_todo(user(2), "other".to_string()).unwrap();
    for n in 0..500 {
        assert!(store.add_todo(user(1), format!("t{n}")).is_ok());
    }
    let users = [user(1), user(2)];
    let before = snapshot(&store, &users);
    assert_eq!(before[0].len(), 500);
    assert_eq!(
        store.add_todo(user(1), "more".to_string()).unwrap_err(),
        StoreError::CapacityExceeded(Quota::RecordsPerUser)
    );
    assert_eq!(snapshot(&store, &users), before);
    assert_eq!(store.last_id(), 501);
    assert_eq!(store.get_user_count(), 2);
    assert_eq!(store.add_todo(user(2), "still".to_string()).unwrap().id, 502);
}

#[test]
fn thousandth_user_is_admitted_and_the_next_is_not() {
    let mut store = TodoStore::new();
    for u in 0..999u32 {
        assert!(store.add_todo(user(u), "t".to_string()).is_ok());
    }
    assert_eq!(store.get_user_count(), 999);
    assert_eq!(store.add_todo(user(999), "t".to_string()).unwrap().id, 1000);
    assert_eq!(store.get_user_count(), 1000);
    assert_eq!(
        store.add_todo(user(1000), "t".to_string()).unwrap_err(),
        StoreError::CapacityExceeded(Quota::Users)
    );
    assert_eq!(store.get_user_count(), 1000);
    assert_eq!(store.last_id(), 1000);
    assert!(store.get_todos(&user(1000)).is_empty());
    assert_eq!(store.add_todo(user(5), "again".to_string()).unwrap().id, 1001);
}

#[test]
fn too_long_text_is_judged_before_the_quotas() {
    let mut store = TodoStore::new();
    for u in 0..1000u32 {
        store.add_todo(user(u), "t".to_string()).unwrap();
    }
    assert_eq!(store.add_todo(user(1000), text(1001)).unwrap_err(), StoreError::PayloadTooLarge);
}

#[test]
fn update_with_too_long_text_changes_nothing() {
    let mut store = TodoStore::new();
    let todo = store.add_todo(user(1), "keep".to_string()).unwrap();
    let r = store.update_todo(&user(1), Todo::new(todo.id, text(1001)));
    assert_eq!(r, Err(StoreError::PayloadTooLarge));
    assert_eq!(pairs(&store.get_todos(&user(1))), vec![(1, "keep".to_string())]);
    let r = store.update_todo(&user(1), Todo::new(10_000, text(1001)));
    assert_eq!(r, Err(StoreError::PayloadTooLarge));
}

#[test]
fn update_keeps_id_and_place() {
    let mut store = TodoStore::new();
    store.add_todo(user(1), "a".to_string()).unwrap();
    store.add_todo(user(1), "b".to_string()).unwrap();
    store.add_todo(user(1), "c".to_string()).unwrap();
    assert_eq!(store.update_todo(&user(1), Todo::new(2, text(1000))), Ok(()));
    assert_eq!(
        pairs(&store.get_todos(&user(1))),
        vec![(1, "a".to_string()), (2, text(1000)), (3, "c".to_string())]
    );
    assert_eq!(store.last_id(), 3);
}

#[test]
fn update_of_a_todo_not_owned_is_a_silent_no_op() {
    let mut store = TodoStore::new();
    store.add_todo(user(1), "mine".to_string()).unwrap();
    store.add_todo(user(2), "yours".to_string()).unwrap();
    assert_eq!(store.update_todo(&user(1), Todo::new(2, "stolen".to_string())), Ok(()));
    assert_eq!(store.update_todo(&user(3), Todo::new(1, "stranger".to_string())), Ok(()));
    assert_eq!(store.update_todo(&user(1), Todo::new(0, "none".to_string())), Ok(()));
    assert_eq!(pairs(&store.get_todos(&user(1))), vec![(1, "mine".to_string())]);
    assert_eq!(pairs(&store.get_todos(&user(2))), vec![(2, "yours".to_string())]);
    assert_eq!(store.get_user_count(), 2);
}

#[test]
fn delete_twice() {
    let mut store = TodoStore::new();
    store.add_todo(user(1), "a".to_string()).unwrap();
    store.add_todo(user(1), "b".to_string()).unwrap();
    store.add_todo(user(1), "c".to_string()).unwrap();
    assert_eq!(store.delete_todo(&user(1), 2), Ok(()));
    let after_first = pairs(&store.get_todos(&user(1)));
    assert_eq!(after_first, vec![(1, "a".to_string()), (3, "c".to_string())]);
    assert_eq!(store.delete_todo(&user(1), 2), Ok(()));
    assert_eq!(pairs(&store.get_todos(&user(1))), after_first);
}

#[test]
fn delete_of_a_todo_not_owned_is_a_silent_no_op() {
    let mut store = TodoStore::new();
    store.add_todo(user(1), "mine".to_string()).unwrap();
    store.add_todo(user(2), "yours".to_string()).unwrap();
    assert_eq!(store.delete_todo(&user(1), 2), Ok(()));
    assert_eq!(store.delete_todo(&user(3), 1), Ok(()));
    assert_eq!(pairs(&store.get_todos(&user(1))), vec![(1, "mine".to_string())]);
    assert_eq!(pairs(&store.get_todos(&user(2))), vec![(2, "yours".to_string())]);
}

#[test]
fn emptied_user_still_counts_and_ids_are_not_reused() {
    let mut store = TodoStore::new();
    store.add_todo(user(1), "a".to_string()).unwrap();
    assert_eq!(store.delete_todo(&user(1), 1), Ok(()));
    assert!(store.get_todos(&user(1)).is_empty());
    assert_eq!(store.get_user_count(), 1);
    assert!(store.is_id_valid(499));
    assert_eq!(store.add_todo(user(1), "b".to_string()).unwrap().id, 2);
}

#[test]
fn round_trip() {
    let mut store = TodoStore::new();
    let todo = store.add_todo(user(1), "hello".to_string()).unwrap();
    assert_eq!(store.update_todo(&user(1), Todo::new(todo.id, "world".to_string())), Ok(()));
    assert_eq!(pairs(&store.get_todos(&user(1))), vec![(todo.id, "world".to_string())]);
}

#[test]
fn id_bound_follows_the_user_count() {
    let mut store = TodoStore::new();
    store.add_todo(user(1), "a".to_string()).unwrap();
    assert!(store.is_id_valid(0));
    assert!(store.is_id_valid(499));
    assert!(!store.is_id_valid(500));
    store.add_todo(user(2), "b".to_string()).unwrap();
    assert!(store.is_id_valid(999));
    assert!(!store.is_id_valid(1000));
    assert!(!store.is_id_valid(u128::MAX));
}

#[test]
fn invalid_id_is_rejected_by_update_and_delete() {
    let mut store = TodoStore::new();
    assert_eq!(store.delete_todo(&user(1), 0), Err(StoreError::InvalidId));
    assert_eq!(
        store.update_todo(&user(1), Todo::new(0, "t".to_string())),
        Err(StoreError::InvalidId)
    );
    store.add_todo(user(1), "a".to_string()).unwrap();
    assert_eq!(store.delete_todo(&user(1), 500), Err(StoreError::InvalidId));
    assert_eq!(
        store.update_todo(&user(1), Todo::new(500, "t".to_string())),
        Err(StoreError::InvalidId)
    );
    assert_eq!(pairs(&store.get_todos(&user(1))), vec![(1, "a".to_string())]);
}

#[test]
fn live_todo_beyond_the_id_bound_cannot_be_deleted() {
    let mut store = TodoStore::new();
    for n in 1..=500u128 {
        assert_eq!(store.add_todo(user(1), "t".to_string()).unwrap().id, n);
        let expected = if n < 500 { Ok(()) } else { Err(StoreError::InvalidId) };
        assert_eq!(store.delete_todo(&user(1), n), expected);
    }
    assert_eq!(pairs(&store.get_todos(&user(1))), vec![(500, "t".to_string())]);
    assert_eq!(
        store.update_todo(&user(1), Todo::new(500, "u".to_string())),
        Err(StoreError::InvalidId)
    );
    store.add_todo(user(2), "t".to_string()).unwrap();
    assert_eq!(store.delete_todo(&user(1), 500), Ok(()));
    assert!(store.get_todos(&user(1)).is_empty());
}

#[test]
fn users_are_told_apart_by_their_bytes() {
    let mut store = TodoStore::new();
    store.add_todo(vec![], "empty".to_string()).unwrap();
    store.add_todo(vec![0], "zero".to_string()).unwrap();
    store.add_todo(vec![0, 0], "zeros".to_string()).unwrap();
    store.add_todo(vec![0, 1], "mixed".to_string()).unwrap();
    assert_eq!(store.get_user_count(), 4);
    assert_eq!(pairs(&store.get_todos(&vec![])), vec![(1, "empty".to_string())]);
    assert_eq!(pairs(&store.get_todos(&vec![0])), vec![(2, "zero".to_string())]);
    assert_eq!(pairs(&store.get_todos(&vec![0, 0])), vec![(3, "zeros".to_string())]);
    assert_eq!(pairs(&store.get_todos(&vec![0, 1])), vec![(4, "mixed".to_string())]);
    assert!(store.get_todos(&vec![1, 0]).is_empty());
}

#[test]
fn cloned_todo_is_the_same() {
    let todo = Todo::new(7, "seven".to_string());
    let copy = todo.clone();
    assert_eq!(copy.id, 7);
    assert_eq!(copy.task, "seven");
}
