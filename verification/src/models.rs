//! The records the store persists and the request bodies the handlers
//! consume.  Timestamps are carried as seconds since the Unix epoch.
use vstd::prelude::*;

verus! {

/// A stored user: id, unique name and email, and the salted password hash.
/// No plaintext password is ever stored.
#[derive(Debug, PartialEq, Eq)]
pub struct User {
    pub id: String,
    pub name: String,
    pub email: String,
    pub password: String,
}

/// The body of a registration request.  `password` is plaintext on the way
/// in; the handler hashes it before anything is stored.
#[derive(Debug, PartialEq, Eq)]
pub struct UserRegisterDto {
    pub name: String,
    pub email: String,
    pub password: String,
}

/// The body of a login request.
#[derive(Debug, PartialEq, Eq)]
pub struct UserLoginDto {
    pub name: String,
    pub password: String,
}

/// A todo item.  `related_to` names the list it belongs to; ownership of an
/// item is transitive through that list.
#[derive(Debug, PartialEq, Eq)]
pub struct Todo {
    pub id: Option<String>,
    pub title: String,
    pub checked: bool,
    pub related_to: String,
    pub created_at: Option<i64>,
}

/// A todo list; `owner` holds the id of the user that owns it.
#[derive(Debug, PartialEq, Eq)]
pub struct TodoList {
    pub id: Option<String>,
    pub name: String,
    pub owner: String,
    pub created_at: Option<i64>,
}

/// The body of a list-creation request.
#[derive(Debug, PartialEq, Eq)]
pub struct TodoListCreationDto {
    pub name: String,
}

/// The body of an item-creation request.
#[derive(Debug, PartialEq, Eq)]
pub struct TodoCreationDto {
    pub title: String,
}

/// The body of an item-update request.
#[derive(Debug, PartialEq, Eq)]
pub struct TodoUpdateDto {
    pub checked: bool,
}

impl User {
    /// A field-for-field copy.
    pub fn duplicate(&self) -> (r: User)
        ensures
            r == *self,
    {
        User {
            id: self.id.clone(),
            name: self.name.clone(),
            email: self.email.clone(),
            password: self.password.clone(),
        }
    }
}

/// A field-for-field copy of an optional string.
pub fn duplicate_opt_string(s: &Option<String>) -> (r: Option<String>)
    ensures
        r == *s,
{
    match s {
        Some(x) => Some(x.clone()),
        None => None,
    }
}

impl Todo {
    /// A field-for-field copy.
    pub fn duplicate(&self) -> (r: Todo)
        ensures
            r == *self,
    {
        Todo {
            id: duplicate_opt_string(&self.id),
            title: self.title.clone(),
            checked: self.checked,
            related_to: self.related_to.clone(),
            created_at: self.created_at,
        }
    }
}

impl TodoList {
    /// A field-for-field copy.
    pub fn duplicate(&self) -> (r: TodoList)
        ensures
            r == *self,
    {
        TodoList {
            id: duplicate_opt_string(&self.id),
            name: self.name.clone(),
            owner: self.owner.clone(),
            created_at: self.created_at,
        }
    }
}

} // verus!
