use firba::models::{TodoListCreationDto, UserRegisterDto};
use firba::store::Store;

fn alice() -> UserRegisterDto {
    UserRegisterDto {
        name: "alice".to_string(),
        email: "a@x.com".to_string(),
        password: "hash-1".to_string(),
    }
}

fn bob() -> UserRegisterDto {
    UserRegisterDto {
        name: "bob".to_string(),
        email: "b@x.com".to_string(),
        password: "hash-2".to_string(),
    }
}

#[test]
fn user_insert_under_taken_id_is_refused_and_changes_nothing() {
    let mut store = Store::new();
    assert!(store.create_user_with_id(&alice(), "id-1".to_string()));
    assert_eq!(store.users.len(), 1);

    // A second record under the same id is refused; the store is as it was.
    assert!(!store.create_user_with_id(&bob(), "id-1".to_string()));
    assert_eq!(store.users.len(), 1);
    assert_eq!(store.users[0].name, "alice");

    // Under a fresh id the same record goes in.
    assert!(store.create_user_with_id(&bob(), "id-2".to_string()));
    assert_eq!(store.users.len(), 2);
    assert_eq!(store.users[1].name, "bob");
    assert_eq!(store.users[1].id, "id-2");
}

#[test]
fn list_and_todo_inserts_under_taken_ids_are_refused() {
    let mut store = Store::new();
    let groceries = TodoListCreationDto {
        name: "groceries".to_string(),
    };
    assert!(store.create_todo_list_with_id(&groceries, "u1", "L1".to_string()));
    let chores = TodoListCreationDto {
        name: "chores".to_string(),
    };
    assert!(!store.create_todo_list_with_id(&chores, "u1", "L1".to_string()));
    assert_eq!(store.lists.len(), 1);
    assert_eq!(store.lists[0].name, "groceries");

    assert!(store.create_todo_with_id("milk", "L1", "T1".to_string()));
    assert!(!store.create_todo_with_id("eggs", "L1", "T1".to_string()));
    assert_eq!(store.todos.len(), 1);
    assert_eq!(store.todos[0].title, "milk");
}

#[test]
fn fresh_ids_are_36_characters_and_inserts_on_empty_regions_succeed() {
    let mut store = Store::new();
    // On an empty store no collision is possible: the insert must succeed.
    let user_id = store.create_user(&alice()).unwrap();
    assert_eq!(user_id.len(), 36);
    assert_eq!(store.users[0].id, user_id);

    let groceries = TodoListCreationDto {
        name: "groceries".to_string(),
    };
    let list_id = store.create_todo_list(&groceries, &user_id).unwrap();
    assert_eq!(list_id.len(), 36);

    let todo_id = store.create_todo("milk", &list_id).unwrap();
    assert_eq!(todo_id.len(), 36);
    assert_ne!(todo_id, list_id);
}
