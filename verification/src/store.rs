//! An in-memory model of the relational store the system collaborates
//! with: user records, todo lists and todo items, with the lookup and
//! insert operations the handlers consume.  Uniqueness of ids, names and
//! emails is the store's well-formedness invariant.
use crate::hashing::printable_ascii;
use crate::models::{Todo, TodoList, TodoListCreationDto, User, UserRegisterDto};
use crate::strutil::str_eq;
use vstd::prelude::*;

verus! {

/// Relies on `uuid::Uuid::new_v4` and its hyphenated text form: a random
/// 36-character id.  Nothing more can be promised of a random value.
#[verifier::external_body]
fn fresh_id() -> (r: String)
    ensures
        r@.len() == 36,
{
    uuid::Uuid::new_v4().to_string()
}

/// The store's contents.
#[derive(Debug)]
pub struct Store {
    pub users: Vec<User>,
    pub lists: Vec<TodoList>,
    pub todos: Vec<Todo>,
}

impl Store {
    /// Well-formedness: user ids, names and emails are unique; stored
    /// passwords are printable-ASCII hash texts, as the hasher emits them;
    /// every list and todo carries an id, and those ids are unique.
    pub open spec fn wf(self) -> bool {
        &&& forall|i: int, j: int|
            0 <= i < j < self.users@.len() ==> #[trigger] self.users@[i].id@ != #[trigger] self.users@[j].id@
                && self.users@[i].name@ != self.users@[j].name@ && self.users@[i].email@
                != self.users@[j].email@
        &&& forall|i: int|
            0 <= i < self.users@.len() ==> printable_ascii((#[trigger] self.users@[i]).password@)
        &&& forall|i: int| 0 <= i < self.lists@.len() ==> (#[trigger] self.lists@[i].id) is Some
        &&& forall|i: int, j: int|
            0 <= i < j < self.lists@.len() ==> #[trigger] self.lists@[i].id->Some_0@
                != #[trigger] self.lists@[j].id->Some_0@
        &&& forall|i: int| 0 <= i < self.todos@.len() ==> (#[trigger] self.todos@[i].id) is Some
        &&& forall|i: int, j: int|
            0 <= i < j < self.todos@.len() ==> #[trigger] self.todos@[i].id->Some_0@
                != #[trigger] self.todos@[j].id->Some_0@
    }


    /// Two distinct stored users differ in id, name and email.
    proof fn lemma_users_distinct(self, a: int, b: int)
        requires
            self.wf(),
            0 <= a < b < self.users@.len(),
        ensures
            self.users@[a].id@ != self.users@[b].id@,
            self.users@[a].name@ != self.users@[b].name@,
            self.users@[a].email@ != self.users@[b].email@,
    {
        assert(self.users@[a].id@ != self.users@[b].id@);
    }

    /// Two distinct stored lists differ in id.
    proof fn lemma_lists_distinct(self, a: int, b: int)
        requires
            self.wf(),
            0 <= a < b < self.lists@.len(),
        ensures
            self.lists@[a].id->Some_0@ != self.lists@[b].id->Some_0@,
    {
        assert(self.lists@[a].id->Some_0@ != self.lists@[b].id->Some_0@);
    }

    /// Two distinct stored todos differ in id.
    proof fn lemma_todos_distinct(self, a: int, b: int)
        requires
            self.wf(),
            0 <= a < b < self.todos@.len(),
        ensures
            self.todos@[a].id->Some_0@ != self.todos@[b].id->Some_0@,
    {
        assert(self.todos@[a].id->Some_0@ != self.todos@[b].id->Some_0@);
    }

    pub open spec fn has_user_id(self, id: Seq<char>) -> bool {
        exists|i: int| 0 <= i < self.users@.len() && #[trigger] self.users@[i].id@ == id
    }

    pub open spec fn has_user_named(self, name: Seq<char>) -> bool {
        exists|i: int| 0 <= i < self.users@.len() && #[trigger] self.users@[i].name@ == name
    }

    pub open spec fn has_user_email(self, email: Seq<char>) -> bool {
        exists|i: int| 0 <= i < self.users@.len() && #[trigger] self.users@[i].email@ == email
    }

    /// The user carrying the given id (meaningful under `wf` when one
    /// exists: it is then unique).
    pub open spec fn user_with_id(self, id: Seq<char>) -> User {
        self.users@[choose|i: int| 0 <= i < self.users@.len() && #[trigger] self.users@[i].id@ == id]
    }

    /// The user carrying the given name.
    pub open spec fn user_named(self, name: Seq<char>) -> User {
        self.users@[
            choose|i: int| 0 <= i < self.users@.len() && #[trigger] self.users@[i].name@ == name
        ]
    }

    /// The user carrying the given email.
    pub open spec fn user_with_email(self, email: Seq<char>) -> User {
        self.users@[
            choose|i: int|
                0 <= i < self.users@.len() && #[trigger] self.users@[i].email@ == email
        ]
    }

    pub open spec fn has_list(self, id: Seq<char>) -> bool {
        exists|i: int|
            0 <= i < self.lists@.len() && (#[trigger] self.lists@[i].id) is Some
                && self.lists@[i].id->Some_0@ == id
    }

    /// The list carrying the given id.
    pub open spec fn list_with_id(self, id: Seq<char>) -> TodoList {
        self.lists@[
            choose|i: int|
                0 <= i < self.lists@.len() && (#[trigger] self.lists@[i].id) is Some
                    && self.lists@[i].id->Some_0@ == id
        ]
    }

    /// Whether a list with id `list_id` exists and is owned by `owner_id`:
    /// absence and a mismatched owner are both simply `false`.
    pub open spec fn owns(self, list_id: Seq<char>, owner_id: Seq<char>) -> bool {
        exists|i: int|
            0 <= i < self.lists@.len() && (#[trigger] self.lists@[i].id) is Some
                && self.lists@[i].id->Some_0@ == list_id && self.lists@[i].owner@ == owner_id
    }

    pub open spec fn has_todo(self, id: Seq<char>) -> bool {
        exists|i: int|
            0 <= i < self.todos@.len() && (#[trigger] self.todos@[i].id) is Some
                && self.todos@[i].id->Some_0@ == id
    }

    /// The index of the todo carrying the given id.
    pub open spec fn todo_index(self, id: Seq<char>) -> int {
        choose|i: int|
            0 <= i < self.todos@.len() && (#[trigger] self.todos@[i].id) is Some
                && self.todos@[i].id->Some_0@ == id
    }

    /// The todo carrying the given id.
    pub open spec fn todo_with_id(self, id: Seq<char>) -> Todo {
        self.todos@[self.todo_index(id)]
    }

    /// An empty store.
    pub fn new() -> (s: Store)
        ensures
            s.wf(),
            s.users@ =~= Seq::<User>::empty(),
            s.lists@ =~= Seq::<TodoList>::empty(),
            s.todos@ =~= Seq::<Todo>::empty(),
    {
        Store { users: Vec::new(), lists: Vec::new(), todos: Vec::new() }
    }

    /// The user with this id, if one exists.
    pub fn get_user_by_id(&self, id: &str) -> (r: Option<User>)
        requires
            self.wf(),
        ensures
            match r {
                Some(u) => self.has_user_id(id@) && u == self.user_with_id(id@),
                None => !self.has_user_id(id@),
            },
    {
        let mut i: usize = 0;
        while i < self.users.len()
            invariant
                self.wf(),
                i <= self.users@.len(),
                forall|m: int| 0 <= m < i ==> #[trigger] self.users@[m].id@ != id@,
            decreases self.users@.len() - i,
        {
            if str_eq(self.users[i].id.as_str(), id) {
                proof {
                    assert(self.users@[i as int].id@ == id@);
                    assert(self.has_user_id(id@));
                    let j = choose|j: int|
                        0 <= j < self.users@.len() && #[trigger] self.users@[j].id@ == id@;
                    if j < i {
                        self.lemma_users_distinct(j, i as int);
                    } else if j > i {
                        self.lemma_users_distinct(i as int, j);
                    }
                    assert(j == i);
                }
                return Some(self.users[i].duplicate());
            }
            i = i + 1;
        }
        None
    }

    /// The user with this name, if one exists.
    pub fn get_user_by_name(&self, name: &str) -> (r: Option<User>)
        requires
            self.wf(),
        ensures
            match r {
                Some(u) => self.has_user_named(name@) && u == self.user_named(name@),
                None => !self.has_user_named(name@),
            },
    {
        let mut i: usize = 0;
        while i < self.users.len()
            invariant
                self.wf(),
                i <= self.users@.len(),
                forall|m: int| 0 <= m < i ==> #[trigger] self.users@[m].name@ != name@,
            decreases self.users@.len() - i,
        {
            if str_eq(self.users[i].name.as_str(), name) {
                proof {
                    assert(self.users@[i as int].name@ == name@);
                    assert(self.has_user_named(name@));
                    let j = choose|j: int|
                        0 <= j < self.users@.len() && #[trigger] self.users@[j].name@ == name@;
                    if j < i {
                        self.lemma_users_distinct(j, i as int);
                    } else if j > i {
                        self.lemma_users_distinct(i as int, j);
                    }
                    assert(j == i);
                }
                return Some(self.users[i].duplicate());
            }
            i = i + 1;
        }
        None
    }

    /// The user with this email, if one exists.
    pub fn get_user_by_email(&self, email: &str) -> (r: Option<User>)
        requires
            self.wf(),
        ensures
            match r {
                Some(u) => self.has_user_email(email@) && u == self.user_with_email(email@),
                None => !self.has_user_email(email@),
            },
    {
        let mut i: usize = 0;
        while i < self.users.len()
            invariant
                self.wf(),
                i <= self.users@.len(),
                forall|m: int| 0 <= m < i ==> #[trigger] self.users@[m].email@ != email@,
            decreases self.users@.len() - i,
        {
            if str_eq(self.users[i].email.as_str(), email) {
                proof {
                    assert(self.users@[i as int].email@ == email@);
                    assert(self.has_user_email(email@));
                    let j = choose|j: int|
                        0 <= j < self.users@.len() && #[trigger] self.users@[j].email@ == email@;
                    if j < i {
                        self.lemma_users_distinct(j, i as int);
                    } else if j > i {
                        self.lemma_users_distinct(i as int, j);
                    }
                    assert(j == i);
                }
                return Some(self.users[i].duplicate());
            }
            i = i + 1;
        }
        None
    }

    pub fn user_exists_by_id(&self, id: &str) -> (r: bool)
        requires
            self.wf(),
        ensures
            r == self.has_user_id(id@),
    {
        self.get_user_by_id(id).is_some()
    }

    pub fn user_exists_by_name(&self, name: &str) -> (r: bool)
        requires
            self.wf(),
        ensures
            r == self.has_user_named(name@),
    {
        self.get_user_by_name(name).is_some()
    }

    pub fn user_exists_by_email(&self, email: &str) -> (r: bool)
        requires
            self.wf(),
        ensures
            r == self.has_user_email(email@),
    {
        self.get_user_by_email(email).is_some()
    }

    /// Inserts a user under the given id: succeeds exactly when no stored
    /// user carries that id yet; a refusal changes nothing.  The caller has
    /// already checked name and email uniqueness, and hands in the password
    /// already hashed.
    pub fn create_user_with_id(&mut self, user: &UserRegisterDto, id: String) -> (r: bool)
        requires
            old(self).wf(),
            !old(self).has_user_named(user.name@),
            !old(self).has_user_email(user.email@),
            printable_ascii(user.password@),
        ensures
            final(self).wf(),
            final(self).lists@ == old(self).lists@,
            final(self).todos@ == old(self).todos@,
            r == !old(self).has_user_id(id@),
            r ==> final(self).users@ == old(self).users@.push(
                User { id: id, name: user.name, email: user.email, password: user.password },
            ),
            !r ==> *final(self) == *old(self),
    {
        if self.user_exists_by_id(id.as_str()) {
            return false;
        }
        let record = User {
            id,
            name: user.name.clone(),
            email: user.email.clone(),
            password: user.password.clone(),
        };
        proof {
            let n = self.users@.len() as int;
            assert forall|i: int, j: int|
                0 <= i < j < self.users@.push(record).len() implies #[trigger] self.users@.push(
                record,
            )[i].id@ != #[trigger] self.users@.push(record)[j].id@ && self.users@.push(
                record,
            )[i].name@ != self.users@.push(record)[j].name@ && self.users@.push(record)[i].email@
                != self.users@.push(record)[j].email@ by {
                if j < n {
                } else {
                    assert(self.users@.push(record)[i] == self.users@[i]);
                    assert(self.users@.push(record)[j] == record);
                }
            }
            assert forall|i: int|
                0 <= i < self.users@.push(record).len() implies printable_ascii(
                (#[trigger] self.users@.push(record)[i]).password@,
            ) by {
                if i < n {
                    assert(self.users@.push(record)[i] == self.users@[i]);
                } else {
                    assert(self.users@.push(record)[i] == record);
                }
            }
        }
        self.users.push(record);
        true
    }

    /// Inserts a user under a fresh random id and returns that id; `None`
    /// only when the drawn id collides with a stored one, which an empty
    /// store cannot cause, and then nothing changes.
    pub fn create_user(&mut self, user: &UserRegisterDto) -> (r: Option<String>)
        requires
            old(self).wf(),
            !old(self).has_user_named(user.name@),
            !old(self).has_user_email(user.email@),
            printable_ascii(user.password@),
        ensures
            final(self).wf(),
            final(self).lists@ == old(self).lists@,
            final(self).todos@ == old(self).todos@,
            match r {
                Some(id) => id@.len() == 36 && !old(self).has_user_id(id@) && final(self).users@
                    == old(self).users@.push(
                    User {
                        id: id,
                        name: user.name,
                        email: user.email,
                        password: user.password,
                    },
                ),
                None => *final(self) == *old(self) && old(self).users@.len() > 0,
            },
    {
        let id = fresh_id();
        if self.create_user_with_id(user, id.clone()) {
            Some(id)
        } else {
            proof {
                let w = choose|i: int|
                    0 <= i < self.users@.len() && #[trigger] self.users@[i].id@ == id@;
                assert(self.users@.len() > 0);
            }
            None
        }
    }

    /// The todo item with this id, if one exists.
    pub fn get_todo(&self, id: &str) -> (r: Option<Todo>)
        requires
            self.wf(),
        ensures
            match r {
                Some(t) => self.has_todo(id@) && t == self.todo_with_id(id@),
                None => !self.has_todo(id@),
            },
    {
        let mut i: usize = 0;
        while i < self.todos.len()
            invariant
                self.wf(),
                i <= self.todos@.len(),
                forall|m: int|
                    0 <= m < i ==> !((#[trigger] self.todos@[m].id) is Some
                        && self.todos@[m].id->Some_0@ == id@),
            decreases self.todos@.len() - i,
        {
            let matches_id = match &self.todos[i].id {
                Some(tid) => str_eq(tid.as_str(), id),
                None => false,
            };
            if matches_id {
                proof {
                    assert(self.todos@[i as int].id is Some && self.todos@[i as int].id->Some_0@
                        == id@);
                    assert(self.has_todo(id@));
                    let j = self.todo_index(id@);
                    if j < i {
                        self.lemma_todos_distinct(j, i as int);
                    } else if j > i {
                        self.lemma_todos_distinct(i as int, j);
                    }
                    assert(self.todo_index(id@) == i);
                }
                return Some(self.todos[i].duplicate());
            }
            i = i + 1;
        }
        None
    }

    /// Inserts a todo item into the given list under the given id: succeeds
    /// exactly when no stored todo carries that id yet; a refusal changes
    /// nothing.
    pub fn create_todo_with_id(&mut self, title: &str, related_to: &str, id: String) -> (r: bool)
        requires
            old(self).wf(),
        ensures
            final(self).wf(),
            final(self).users@ == old(self).users@,
            final(self).lists@ == old(self).lists@,
            r == !old(self).has_todo(id@),
            r ==> ({
                let ts = final(self).todos@;
                let os = old(self).todos@;
                &&& ts.len() == os.len() + 1
                &&& ts.take(os.len() as int) == os
                &&& ts.last().id matches Some(tid) && tid@ == id@
                &&& ts.last().title@ == title@
                &&& ts.last().checked == false
                &&& ts.last().related_to@ == related_to@
                &&& ts.last().created_at is None
            }),
            !r ==> *final(self) == *old(self),
    {
        if self.todo_exists(id.as_str()) {
            return false;
        }
        let record = Todo {
            id: Some(id),
            title: title.to_owned(),
            checked: false,
            related_to: related_to.to_owned(),
            created_at: None,
        };
        proof {
            let n = self.todos@.len() as int;
            let pushed = self.todos@.push(record);
            assert forall|i: int, j: int| 0 <= i < j < pushed.len() implies #[trigger] pushed[i].id->Some_0@
                != #[trigger] pushed[j].id->Some_0@ by {
                if j < n {
                } else {
                    assert(pushed[i] == self.todos@[i]);
                    assert(pushed[j] == record);
                }
            }
        }
        self.todos.push(record);
        true
    }

    /// Inserts a todo item into the given list under a fresh random id and
    /// returns the id; `None` only when the drawn id collides with a stored
    /// one, which an empty store cannot cause, and then nothing changes.
    pub fn create_todo(&mut self, title: &str, related_to: &str) -> (r: Option<String>)
        requires
            old(self).wf(),
        ensures
            final(self).wf(),
            final(self).users@ == old(self).users@,
            final(self).lists@ == old(self).lists@,
            match r {
                Some(id) => ({
                    let ts = final(self).todos@;
                    let os = old(self).todos@;
                    &&& id@.len() == 36
                    &&& !old(self).has_todo(id@)
                    &&& ts.len() == os.len() + 1
                    &&& ts.take(os.len() as int) == os
                    &&& ts.last().id matches Some(tid) && tid@ == id@
                    &&& ts.last().title@ == title@
                    &&& ts.last().checked == false
                    &&& ts.last().related_to@ == related_to@
                    &&& ts.last().created_at is None
                }),
                None => *final(self) == *old(self) && old(self).todos@.len() > 0,
            },
    {
        let id = fresh_id();
        if self.create_todo_with_id(title, related_to, id.clone()) {
            Some(id)
        } else {
            proof {
                let w = choose|i: int|
                    0 <= i < self.todos@.len() && (#[trigger] self.todos@[i].id) is Some
                        && self.todos@[i].id->Some_0@ == id@;
                assert(self.todos@.len() > 0);
            }
            None
        }
    }

    /// Whether a todo item with this id exists.
    pub fn todo_exists(&self, id: &str) -> (r: bool)
        requires
            self.wf(),
        ensures
            r == self.has_todo(id@),
    {
        self.get_todo(id).is_some()
    }

    /// The list with this id, if one exists.
    pub fn get_todo_list_info(&self, id: &str) -> (r: Option<TodoList>)
        requires
            self.wf(),
        ensures
            match r {
                Some(l) => self.has_list(id@) && l == self.list_with_id(id@),
                None => !self.has_list(id@),
            },
    {
        let mut i: usize = 0;
        while i < self.lists.len()
            invariant
                self.wf(),
                i <= self.lists@.len(),
                forall|m: int|
                    0 <= m < i ==> !((#[trigger] self.lists@[m].id) is Some
                        && self.lists@[m].id->Some_0@ == id@),
            decreases self.lists@.len() - i,
        {
            let matches_id = match &self.lists[i].id {
                Some(lid) => str_eq(lid.as_str(), id),
                None => false,
            };
            if matches_id {
                proof {
                    assert(self.lists@[i as int].id is Some && self.lists@[i as int].id->Some_0@
                        == id@);
                    assert(self.has_list(id@));
                    let j = choose|j: int|
                        0 <= j < self.lists@.len() && (#[trigger] self.lists@[j].id) is Some
                            && self.lists@[j].id->Some_0@ == id@;
                    if j < i {
                        self.lemma_lists_distinct(j, i as int);
                    } else if j > i {
                        self.lemma_lists_distinct(i as int, j);
                    }
                    assert(j == i);
                }
                return Some(self.lists[i].duplicate());
            }
            i = i + 1;
        }
        None
    }

    /// Whether a list with this id exists.
    pub fn todo_list_exists(&self, id: &str) -> (r: bool)
        requires
            self.wf(),
        ensures
            r == self.has_list(id@),
    {
        self.get_todo_list_info(id).is_some()
    }

    /// All todo items of the given list, in storage order.
    pub fn get_todo_lists(&self, id: &str) -> (r: Vec<Todo>)
        ensures
            r@ == self.todos@.filter(|t: Todo| t.related_to@ == id@),
    {
        let mut out: Vec<Todo> = Vec::new();
        let mut i: usize = 0;
        proof {
            reveal(Seq::filter);
            assert(self.todos@.take(0).filter(|t: Todo| t.related_to@ == id@)
                =~= Seq::<Todo>::empty());
        }
        while i < self.todos.len()
            invariant
                i <= self.todos@.len(),
                out@ == self.todos@.take(i as int).filter(|t: Todo| t.related_to@ == id@),
            decreases self.todos@.len() - i,
        {
            proof {
                assert(self.todos@.take(i as int + 1) =~= self.todos@.take(i as int).push(
                    self.todos@[i as int],
                ));
                self.todos@.take(i as int).lemma_filter_push(
                    self.todos@[i as int],
                    |t: Todo| t.related_to@ == id@,
                );
            }
            if str_eq(self.todos[i].related_to.as_str(), id) {
                out.push(self.todos[i].duplicate());
            }
            i = i + 1;
        }
        proof {
            assert(self.todos@.take(self.todos@.len() as int) =~= self.todos@);
        }
        out
    }

    /// Inserts a list for `owner` under the given id: succeeds exactly when
    /// no stored list carries that id yet; a refusal changes nothing.
    pub fn create_todo_list_with_id(
        &mut self,
        todos: &TodoListCreationDto,
        owner: &str,
        id: String,
    ) -> (r: bool)
        requires
            old(self).wf(),
        ensures
            final(self).wf(),
            final(self).users@ == old(self).users@,
            final(self).todos@ == old(self).todos@,
            r == !old(self).has_list(id@),
            r ==> ({
                let ls = final(self).lists@;
                let os = old(self).lists@;
                &&& ls.len() == os.len() + 1
                &&& ls.take(os.len() as int) == os
                &&& ls.last().id matches Some(lid) && lid@ == id@
                &&& ls.last().name@ == todos.name@
                &&& ls.last().owner@ == owner@
                &&& ls.last().created_at is None
            }),
            !r ==> *final(self) == *old(self),
    {
        if self.todo_list_exists(id.as_str()) {
            return false;
        }
        let record = TodoList {
            id: Some(id),
            name: todos.name.clone(),
            owner: owner.to_owned(),
            created_at: None,
        };
        proof {
            let n = self.lists@.len() as int;
            let pushed = self.lists@.push(record);
            assert forall|i: int, j: int| 0 <= i < j < pushed.len() implies #[trigger] pushed[i].id->Some_0@
                != #[trigger] pushed[j].id->Some_0@ by {
                if j < n {
                } else {
                    assert(pushed[i] == self.lists@[i]);
                    assert(pushed[j] == record);
                }
            }
        }
        self.lists.push(record);
        true
    }

    /// Inserts a list for `owner` under a fresh random id and returns the
    /// id; `None` only when the drawn id collides with a stored one, which
    /// an empty store cannot cause, and then nothing changes.
    pub fn create_todo_list(&mut self, todos: &TodoListCreationDto, owner: &str) -> (r: Option<
        String,
    >)
        requires
            old(self).wf(),
        ensures
            final(self).wf(),
            final(self).users@ == old(self).users@,
            final(self).todos@ == old(self).todos@,
            match r {
                Some(id) => ({
                    let ls = final(self).lists@;
                    let os = old(self).lists@;
                    &&& id@.len() == 36
                    &&& !old(self).has_list(id@)
                    &&& ls.len() == os.len() + 1
                    &&& ls.take(os.len() as int) == os
                    &&& ls.last().id matches Some(lid) && lid@ == id@
                    &&& ls.last().name@ == todos.name@
                    &&& ls.last().owner@ == owner@
                    &&& ls.last().created_at is None
                }),
                None => *final(self) == *old(self) && old(self).lists@.len() > 0,
            },
    {
        let id = fresh_id();
        if self.create_todo_list_with_id(todos, owner, id.clone()) {
            Some(id)
        } else {
            proof {
                let w = choose|i: int|
                    0 <= i < self.lists@.len() && (#[trigger] self.lists@[i].id) is Some
                        && self.lists@[i].id->Some_0@ == id@;
                assert(self.lists@.len() > 0);
            }
            None
        }
    }

    /// All lists owned by the given user, in storage order.
    pub fn get_users_todo_lists(&self, user_id: &str) -> (r: Vec<TodoList>)
        ensures
            r@ == self.lists@.filter(|l: TodoList| l.owner@ == user_id@),
    {
        let mut out: Vec<TodoList> = Vec::new();
        let mut i: usize = 0;
        proof {
            reveal(Seq::filter);
            assert(self.lists@.take(0).filter(|l: TodoList| l.owner@ == user_id@)
                =~= Seq::<TodoList>::empty());
        }
        while i < self.lists.len()
            invariant
                i <= self.lists@.len(),
                out@ == self.lists@.take(i as int).filter(|l: TodoList| l.owner@ == user_id@),
            decreases self.lists@.len() - i,
        {
            proof {
                assert(self.lists@.take(i as int + 1) =~= self.lists@.take(i as int).push(
                    self.lists@[i as int],
                ));
                self.lists@.take(i as int).lemma_filter_push(
                    self.lists@[i as int],
                    |l: TodoList| l.owner@ == user_id@,
                );
            }
            if str_eq(self.lists[i].owner.as_str(), user_id) {
                out.push(self.lists[i].duplicate());
            }
            i = i + 1;
        }
        proof {
            assert(self.lists@.take(self.lists@.len() as int) =~= self.lists@);
        }
        out
    }

    /// The ownership check gating every list-scoped operation: true exactly
    /// when a list with id `todos_id` exists and its owner is `user_id`.  A
    /// missing list and a mismatched owner are both plain `false`; nothing
    /// distinguishes them for the caller.
    pub fn check_todo_list_owner(&self, todos_id: &str, user_id: &str) -> (r: bool)
        ensures
            r == self.owns(todos_id@, user_id@),
    {
        let mut i: usize = 0;
        while i < self.lists.len()
            invariant
                i <= self.lists@.len(),
                forall|m: int|
                    0 <= m < i ==> !((#[trigger] self.lists@[m].id) is Some
                        && self.lists@[m].id->Some_0@ == todos_id@ && self.lists@[m].owner@
                        == user_id@),
            decreases self.lists@.len() - i,
        {
            let matches_both = match &self.lists[i].id {
                Some(lid) => str_eq(lid.as_str(), todos_id) && str_eq(
                    self.lists[i].owner.as_str(),
                    user_id,
                ),
                None => false,
            };
            if matches_both {
                return true;
            }
            i = i + 1;
        }
        false
    }

    /// Whether the user owns the item, resolved through the item's list;
    /// `None` is the distinct signal that no such item exists.
    pub fn owns_item_via_list(&self, user_id: &str, item_id: &str) -> (r: Option<bool>)
        requires
            self.wf(),
        ensures
            match r {
                Some(b) => self.has_todo(item_id@) && b == self.owns(
                    self.todo_with_id(item_id@).related_to@,
                    user_id@,
                ),
                None => !self.has_todo(item_id@),
            },
    {
        match self.get_todo(item_id) {
            Some(t) => Some(self.check_todo_list_owner(t.related_to.as_str(), user_id)),
            None => None,
        }
    }

    /// Sets the checked flag of the todo with the given id; `false` when no
    /// such todo exists, in which case nothing changes.
    pub fn change_todo_checked(&mut self, id: &str, checked: bool) -> (r: bool)
        requires
            old(self).wf(),
        ensures
            final(self).wf(),
            final(self).users@ == old(self).users@,
            final(self).lists@ == old(self).lists@,
            r == old(self).has_todo(id@),
            r ==> final(self).todos@ == old(self).todos@.update(
                old(self).todo_index(id@),
                Todo {
                    checked: checked,
                    ..old(self).todos@[old(self).todo_index(id@)]
                },
            ),
            !r ==> *final(self) == *old(self),
    {
        let mut i: usize = 0;
        while i < self.todos.len()
            invariant
                self.wf(),
                *self == *old(self),
                i <= self.todos@.len(),
                forall|m: int|
                    0 <= m < i ==> !((#[trigger] self.todos@[m].id) is Some
                        && self.todos@[m].id->Some_0@ == id@),
            decreases self.todos@.len() - i,
        {
            let matches_id = match &self.todos[i].id {
                Some(tid) => str_eq(tid.as_str(), id),
                None => false,
            };
            if matches_id {
                proof {
                    assert(self.todos@[i as int].id is Some && self.todos@[i as int].id->Some_0@
                        == id@);
                    assert(self.has_todo(id@));
                    let j = self.todo_index(id@);
                    if j < i {
                        self.lemma_todos_distinct(j, i as int);
                    } else if j > i {
                        self.lemma_todos_distinct(i as int, j);
                    }
                    assert(self.todo_index(id@) == i);
                }
                let old_item = self.todos[i].duplicate();
                let updated = Todo {
                    id: old_item.id,
                    title: old_item.title,
                    checked: checked,
                    related_to: old_item.related_to,
                    created_at: old_item.created_at,
                };
                self.todos[i] = updated;
                proof {
                    assert forall|a: int, b: int|
                        0 <= a < b < self.todos@.len() implies #[trigger] self.todos@[a].id->Some_0@
                        != #[trigger] self.todos@[b].id->Some_0@ by {}
                }
                return true;
            }
            i = i + 1;
        }
        false
    }
}

/// An owned list exists.
pub proof fn lemma_owns_implies_has_list(s: Store, list_id: Seq<char>, owner_id: Seq<char>)
    requires
        s.owns(list_id, owner_id),
    ensures
        s.has_list(list_id),
{
    let w = choose|i: int|
        0 <= i < s.lists@.len() && (#[trigger] s.lists@[i].id) is Some && s.lists@[i].id->Some_0@
            == list_id && s.lists@[i].owner@ == owner_id;
    assert(s.lists@[w].id is Some && s.lists@[w].id->Some_0@ == list_id);
}

/// The ownership rule over an authenticated id and a list id: the check is
/// `false` whenever no list with the id exists, `false` whenever one exists
/// with another owner, and `true` exactly when a list with that id and that
/// owner exists.
pub proof fn lemma_owns_characterization(s: Store, list_id: Seq<char>, owner_id: Seq<char>)
    requires
        s.wf(),
    ensures
        !s.has_list(list_id) ==> !s.owns(list_id, owner_id),
        s.has_list(list_id) && s.list_with_id(list_id).owner@ != owner_id ==> !s.owns(
            list_id,
            owner_id,
        ),
        s.has_list(list_id) && s.list_with_id(list_id).owner@ == owner_id ==> s.owns(
            list_id,
            owner_id,
        ),
{
    if s.has_list(list_id) {
        let j = choose|j: int|
            0 <= j < s.lists@.len() && (#[trigger] s.lists@[j].id) is Some
                && s.lists@[j].id->Some_0@ == list_id;
        if s.owns(list_id, owner_id) {
            let k = choose|k: int|
                0 <= k < s.lists@.len() && (#[trigger] s.lists@[k].id) is Some
                    && s.lists@[k].id->Some_0@ == list_id && s.lists@[k].owner@ == owner_id;
            assert(k == j);
        }
    }
}

} // verus!
