//! The todo-list operations behind the session guard.  Every operation
//! first re-validates that the authenticated user still exists (tokens are
//! stateless and long-lived), then consults the ownership check before
//! reading or mutating list-scoped data.  A missing list and a list owned
//! by someone else are one and the same denial.
use crate::jwt::Claims;
use crate::models::{Todo, TodoCreationDto, TodoList, TodoListCreationDto, TodoUpdateDto};
use crate::store::{lemma_owns_implies_has_list, Store};
use vstd::prelude::*;

verus! {

/// How a todo operation can be refused.
#[derive(Clone, Copy, Debug, PartialEq, Eq, Structural)]
pub enum TodosError {
    /// The authenticated user no longer exists in the store.
    NoSuchUser,
    /// The list is missing or belongs to someone else; which of the two is
    /// not revealed.
    NotOwner,
    /// The addressed todo item does not exist.
    NotFound,
    /// The store rejected the new record; nothing was created.
    StoreFailure,
}

/// All lists owned by the authenticated user.
pub fn get_todo_lists(store: &Store, claims: &Claims) -> (r: Result<Vec<TodoList>, TodosError>)
    requires
        store.wf(),
    ensures
        match r {
            Ok(v) => store.has_user_id(claims.user_id@) && v@ == store.lists@.filter(
                |l: TodoList| l.owner@ == claims.user_id@,
            ),
            Err(e) => e == TodosError::NoSuchUser && !store.has_user_id(claims.user_id@),
        },
{
    if !store.user_exists_by_id(claims.user_id.as_str()) {
        return Err(TodosError::NoSuchUser);
    }
    Ok(store.get_users_todo_lists(claims.user_id.as_str()))
}

/// The list with the given id, only for its owner.
pub fn get_todo_list_info(store: &Store, claims: &Claims, id: &str) -> (r: Result<
    TodoList,
    TodosError,
>)
    requires
        store.wf(),
    ensures
        match r {
            Ok(l) => store.has_user_id(claims.user_id@) && store.owns(id@, claims.user_id@) && l
                == store.list_with_id(id@),
            Err(e) => match e {
                TodosError::NoSuchUser => !store.has_user_id(claims.user_id@),
                TodosError::NotOwner => store.has_user_id(claims.user_id@) && !store.owns(
                    id@,
                    claims.user_id@,
                ),
                _ => false,
            },
        },
{
    if !store.user_exists_by_id(claims.user_id.as_str()) {
        return Err(TodosError::NoSuchUser);
    }
    if !store.check_todo_list_owner(id, claims.user_id.as_str()) {
        return Err(TodosError::NotOwner);
    }
    match store.get_todo_list_info(id) {
        Some(l) => Ok(l),
        None => {
            proof {
                lemma_owns_implies_has_list(*store, id@, claims.user_id@);
                assert(false);
            }
            Err(TodosError::NotOwner)
        },
    }
}

/// All items of the given list, only for its owner.
pub fn get_todo_list(store: &Store, claims: &Claims, todos_id: &str) -> (r: Result<
    Vec<Todo>,
    TodosError,
>)
    requires
        store.wf(),
    ensures
        match r {
            Ok(v) => store.has_user_id(claims.user_id@) && store.owns(todos_id@, claims.user_id@)
                && v@ == store.todos@.filter(|t: Todo| t.related_to@ == todos_id@),
            Err(e) => match e {
                TodosError::NoSuchUser => !store.has_user_id(claims.user_id@),
                TodosError::NotOwner => store.has_user_id(claims.user_id@) && !store.owns(
                    todos_id@,
                    claims.user_id@,
                ),
                _ => false,
            },
        },
{
    if !store.user_exists_by_id(claims.user_id.as_str()) {
        return Err(TodosError::NoSuchUser);
    }
    if !store.check_todo_list_owner(todos_id, claims.user_id.as_str()) {
        return Err(TodosError::NotOwner);
    }
    Ok(store.get_todo_lists(todos_id))
}

/// Creates a list owned by the authenticated user and returns its id.
pub fn create_todo_list(store: &mut Store, claims: &Claims, body: &TodoListCreationDto) -> (r:
    Result<String, TodosError>)
    requires
        old(store).wf(),
    ensures
        final(store).wf(),
        match r {
            Ok(id) => ({
                let ls = final(store).lists@;
                let os = old(store).lists@;
                &&& old(store).has_user_id(claims.user_id@)
                &&& ls.len() == os.len() + 1
                &&& ls.take(os.len() as int) == os
                &&& ls.last().id matches Some(lid) && lid@ == id@
                &&& id@.len() == 36
                &&& ls.last().name@ == body.name@
                &&& ls.last().owner@ == claims.user_id@
                &&& final(store).users@ == old(store).users@
                &&& final(store).todos@ == old(store).todos@
            }),
            Err(e) => *final(store) == *old(store) && match e {
                TodosError::NoSuchUser => !old(store).has_user_id(claims.user_id@),
                TodosError::StoreFailure => old(store).has_user_id(claims.user_id@) && old(
                    store,
                ).lists@.len() > 0,
                _ => false,
            },
        },
{
    if !store.user_exists_by_id(claims.user_id.as_str()) {
        return Err(TodosError::NoSuchUser);
    }
    match store.create_todo_list(body, claims.user_id.as_str()) {
        Some(id) => Ok(id),
        None => Err(TodosError::StoreFailure),
    }
}

/// Adds an item to the given list, only for the list's owner, and returns
/// the item's id.
pub fn add_todo(store: &mut Store, claims: &Claims, id: &str, body: &TodoCreationDto) -> (r: Result<
    String,
    TodosError,
>)
    requires
        old(store).wf(),
    ensures
        final(store).wf(),
        match r {
            Ok(tid) => ({
                let ts = final(store).todos@;
                let os = old(store).todos@;
                &&& old(store).has_user_id(claims.user_id@)
                &&& old(store).owns(id@, claims.user_id@)
                &&& ts.len() == os.len() + 1
                &&& ts.take(os.len() as int) == os
                &&& ts.last().id matches Some(x) && x@ == tid@
                &&& tid@.len() == 36
                &&& ts.last().title@ == body.title@
                &&& ts.last().checked == false
                &&& ts.last().related_to@ == id@
                &&& final(store).users@ == old(store).users@
                &&& final(store).lists@ == old(store).lists@
            }),
            Err(e) => *final(store) == *old(store) && match e {
                TodosError::NoSuchUser => !old(store).has_user_id(claims.user_id@),
                TodosError::NotOwner => old(store).has_user_id(claims.user_id@) && !old(
                    store,
                ).owns(id@, claims.user_id@),
                TodosError::StoreFailure => old(store).has_user_id(claims.user_id@) && old(
                    store,
                ).owns(id@, claims.user_id@) && old(store).todos@.len() > 0,
                _ => false,
            },
        },
{
    if !store.user_exists_by_id(claims.user_id.as_str()) {
        return Err(TodosError::NoSuchUser);
    }
    if !store.check_todo_list_owner(id, claims.user_id.as_str()) {
        return Err(TodosError::NotOwner);
    }
    match store.create_todo(body.title.as_str(), id) {
        Some(tid) => Ok(tid),
        None => Err(TodosError::StoreFailure),
    }
}

/// Sets the checked flag of an item, only for the owner of the item's list.
/// A missing item is a distinct not-found answer; a foreign item is the
/// same denial a missing list would get.
pub fn toggle_todo(store: &mut Store, claims: &Claims, todo_id: &str, body: &TodoUpdateDto) -> (r:
    Result<(), TodosError>)
    requires
        old(store).wf(),
    ensures
        final(store).wf(),
        match r {
            Ok(_) => ({
                &&& old(store).has_user_id(claims.user_id@)
                &&& old(store).has_todo(todo_id@)
                &&& old(store).owns(
                    old(store).todo_with_id(todo_id@).related_to@,
                    claims.user_id@,
                )
                &&& final(store).todos@ == old(store).todos@.update(
                    old(store).todo_index(todo_id@),
                    Todo { checked: body.checked, ..old(store).todo_with_id(todo_id@) },
                )
                &&& final(store).users@ == old(store).users@
                &&& final(store).lists@ == old(store).lists@
            }),
            Err(e) => *final(store) == *old(store) && match e {
                TodosError::NoSuchUser => !old(store).has_user_id(claims.user_id@),
                TodosError::NotFound => old(store).has_user_id(claims.user_id@) && !old(
                    store,
                ).has_todo(todo_id@),
                TodosError::NotOwner => ({
                    &&& old(store).has_user_id(claims.user_id@)
                    &&& old(store).has_todo(todo_id@)
                    &&& !old(store).owns(
                        old(store).todo_with_id(todo_id@).related_to@,
                        claims.user_id@,
                    )
                }),
                _ => false,
            },
        },
{
    if !store.user_exists_by_id(claims.user_id.as_str()) {
        return Err(TodosError::NoSuchUser);
    }
    let item = match store.get_todo(todo_id) {
        Some(t) => t,
        None => {
            return Err(TodosError::NotFound);
        },
    };
    if !store.check_todo_list_owner(item.related_to.as_str(), claims.user_id.as_str()) {
        return Err(TodosError::NotOwner);
    }
    let changed = store.change_todo_checked(todo_id, body.checked);
    proof {
        assert(changed);
    }
    Ok(())
}

} // verus!
