use firba::auth::register;
use firba::jwt::decode;
use firba::models::{TodoCreationDto, TodoListCreationDto, TodoUpdateDto, UserRegisterDto};
use firba::store::Store;
use firba::todos::{
    add_todo, create_todo_list, get_todo_list, get_todo_list_info, get_todo_lists, toggle_todo,
    TodosError,
};

fn secret() -> Vec<u8> {
    b"test-signing-secret".to_vec()
}

fn register_user(store: &mut Store, name: &str, email: &str) -> firba::jwt::Claims {
    let s = secret();
    let now: u64 = 1_700_000_000;
    let dto = UserRegisterDto {
        name: name.to_string(),
        email: email.to_string(),
        password: "pw1".to_string(),
    };
    let token = register(store, &dto, &s, now).unwrap();
    decode(&token, &s, now).unwrap()
}

#[test]
fn owner_check_is_false_without_list_and_false_for_foreign_owner() {
    let mut store = Store::new();
    let alice = register_user(&mut store, "alice", "a@x.com");
    let bob = register_user(&mut store, "bob", "b@x.com");

    // No list with this id exists at all.
    assert!(!store.check_todo_list_owner("no-such-list", &alice.user_id));

    let body = TodoListCreationDto {
        name: "groceries".to_string(),
    };
    let list_id = create_todo_list(&mut store, &alice, &body).unwrap();

    // A list exists but belongs to someone else.
    assert!(!store.check_todo_list_owner(&list_id, &bob.user_id));
    // Both id and owner match.
    assert!(store.check_todo_list_owner(&list_id, &alice.user_id));
}

#[test]
fn foreign_user_is_denied_reads_and_mutations() {
    let mut store = Store::new();
    let alice = register_user(&mut store, "alice", "a@x.com");
    let bob = register_user(&mut store, "bob", "b@x.com");

    let body = TodoListCreationDto {
        name: "groceries".to_string(),
    };
    let list_id = create_todo_list(&mut store, &alice, &body).unwrap();
    let item = TodoCreationDto {
        title: "milk".to_string(),
    };
    let todo_id = add_todo(&mut store, &alice, &list_id, &item).unwrap();

    // Reads of the list and its items are denied for the other user.
    assert_eq!(
        get_todo_list_info(&store, &bob, &list_id),
        Err(TodosError::NotOwner)
    );
    assert_eq!(
        get_todo_list(&store, &bob, &list_id),
        Err(TodosError::NotOwner)
    );
    // Mutations are denied too.
    let more = TodoCreationDto {
        title: "eggs".to_string(),
    };
    assert_eq!(
        add_todo(&mut store, &bob, &list_id, &more),
        Err(TodosError::NotOwner)
    );
    let flip = TodoUpdateDto { checked: true };
    assert_eq!(
        toggle_todo(&mut store, &bob, &todo_id, &flip),
        Err(TodosError::NotOwner)
    );
    // Nothing of Alice's data changed.
    assert_eq!(store.todos.len(), 1);
    assert!(!store.todos[0].checked);

    // The owner still has full access.
    let info = get_todo_list_info(&store, &alice, &list_id).unwrap();
    assert_eq!(info.name, "groceries");
    assert_eq!(info.owner, alice.user_id);
    let items = get_todo_list(&store, &alice, &list_id).unwrap();
    assert_eq!(items.len(), 1);
    assert_eq!(items[0].title, "milk");
}

#[test]
fn owner_can_toggle_and_list_their_lists() {
    let mut store = Store::new();
    let alice = register_user(&mut store, "alice", "a@x.com");

    let body = TodoListCreationDto {
        name: "groceries".to_string(),
    };
    let list_id = create_todo_list(&mut store, &alice, &body).unwrap();
    let item = TodoCreationDto {
        title: "milk".to_string(),
    };
    let todo_id = add_todo(&mut store, &alice, &list_id, &item).unwrap();

    let flip = TodoUpdateDto { checked: true };
    toggle_todo(&mut store, &alice, &todo_id, &flip).unwrap();
    let items = get_todo_list(&store, &alice, &list_id).unwrap();
    assert_eq!(items.len(), 1);
    assert!(items[0].checked);

    let lists = get_todo_lists(&store, &alice).unwrap();
    assert_eq!(lists.len(), 1);
    assert_eq!(lists[0].name, "groceries");

    // Toggling something that does not exist is a distinct not-found.
    assert_eq!(
        toggle_todo(&mut store, &alice, "no-such-todo", &flip),
        Err(TodosError::NotFound)
    );
}

#[test]
fn operations_require_an_existing_user() {
    let mut store = Store::new();
    let alice = register_user(&mut store, "alice", "a@x.com");
    let ghost_user = firba::jwt::Claims {
        exp: alice.exp,
        name: "ghost".to_string(),
        user_id: "never-stored".to_string(),
    };
    assert_eq!(
        get_todo_lists(&store, &ghost_user),
        Err(TodosError::NoSuchUser)
    );
    let body = TodoListCreationDto {
        name: "x".to_string(),
    };
    assert_eq!(
        create_todo_list(&mut store, &ghost_user, &body),
        Err(TodosError::NoSuchUser)
    );
    assert_eq!(store.lists.len(), 0);
}

#[test]
fn users_see_only_their_own_lists() {
    let mut store = Store::new();
    let alice = register_user(&mut store, "alice", "a@x.com");
    let bob = register_user(&mut store, "bob", "b@x.com");

    let groceries = TodoListCreationDto {
        name: "groceries".to_string(),
    };
    let chores = TodoListCreationDto {
        name: "chores".to_string(),
    };
    create_todo_list(&mut store, &alice, &groceries).unwrap();
    create_todo_list(&mut store, &bob, &chores).unwrap();

    let alice_lists = get_todo_lists(&store, &alice).unwrap();
    assert_eq!(alice_lists.len(), 1);
    assert_eq!(alice_lists[0].name, "groceries");
    let bob_lists = get_todo_lists(&store, &bob).unwrap();
    assert_eq!(bob_lists.len(), 1);
    assert_eq!(bob_lists[0].name, "chores");
}
