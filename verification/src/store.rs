//! The relational state of the engine and its well-formedness invariant.
//!
//! Seven tables, each a vector of rows in insertion order. The invariant
//! mirrors the schema: primary keys are unique per table, usernames are
//! unique, and every reference to a user or task points at an existing row.
//! Every operation of the engine requires and preserves it.

use vstd::prelude::*;

use crate::model::{Evaluation, Message, Progress, SubTask, Task, TaskRole, User};

verus! {

pub struct Store {
    pub users: Vec<User>,
    pub tasks: Vec<Task>,
    pub roles: Vec<TaskRole>,
    pub sub_tasks: Vec<SubTask>,
    pub progress: Vec<Progress>,
    pub evaluations: Vec<Evaluation>,
    pub messages: Vec<Message>,
}

impl Store {
    pub open spec fn has_user(self, id: u128) -> bool {
        exists|i: int| 0 <= i < self.users@.len() && (#[trigger] self.users@[i]).id == id
    }

    pub open spec fn has_task(self, id: u128) -> bool {
        exists|i: int| 0 <= i < self.tasks@.len() && (#[trigger] self.tasks@[i]).id == id
    }

    pub open spec fn has_role(self, id: u128) -> bool {
        exists|i: int| 0 <= i < self.roles@.len() && (#[trigger] self.roles@[i]).id == id
    }

    pub open spec fn has_sub_task(self, id: u128) -> bool {
        exists|i: int| 0 <= i < self.sub_tasks@.len() && (#[trigger] self.sub_tasks@[i]).id == id
    }

    pub open spec fn has_progress(self, id: u128) -> bool {
        exists|i: int| 0 <= i < self.progress@.len() && (#[trigger] self.progress@[i]).id == id
    }

    pub open spec fn has_evaluation(self, id: u128) -> bool {
        exists|i: int|
            0 <= i < self.evaluations@.len() && (#[trigger] self.evaluations@[i]).id == id
    }

    pub open spec fn has_message(self, id: u128) -> bool {
        exists|i: int| 0 <= i < self.messages@.len() && (#[trigger] self.messages@[i]).id == id
    }

    pub open spec fn username_taken(self, username: Seq<char>) -> bool {
        exists|i: int|
            0 <= i < self.users@.len() && (#[trigger] self.users@[i]).username@ == username
    }

    /// The user with the given id; meaningful only under `wf` and `has_user`.
    pub open spec fn user_of(self, id: u128) -> User {
        let i = choose|i: int| 0 <= i < self.users@.len() && (#[trigger] self.users@[i]).id == id;
        self.users@[i]
    }

    /// The task with the given id; meaningful only under `wf` and `has_task`.
    pub open spec fn task_of(self, id: u128) -> Task {
        let i = choose|i: int| 0 <= i < self.tasks@.len() && (#[trigger] self.tasks@[i]).id == id;
        self.tasks@[i]
    }

    /// The sub-task with the given id; meaningful only under `wf` and `has_sub_task`.
    pub open spec fn sub_task_of(self, id: u128) -> SubTask {
        let i = choose|i: int|
            0 <= i < self.sub_tasks@.len() && (#[trigger] self.sub_tasks@[i]).id == id;
        self.sub_tasks@[i]
    }

    /// The role slot with the given id; meaningful only under `wf` and `has_role`.
    pub open spec fn role_of(self, id: u128) -> TaskRole {
        let i = choose|i: int| 0 <= i < self.roles@.len() && (#[trigger] self.roles@[i]).id == id;
        self.roles@[i]
    }

    pub open spec fn users_distinct(self) -> bool {
        forall|i: int, j: int|
            0 <= i < j < self.users@.len() ==> (#[trigger] self.users@[i]).id != (
            #[trigger] self.users@[j]).id
    }

    pub open spec fn usernames_distinct(self) -> bool {
        forall|i: int, j: int|
            0 <= i < j < self.users@.len() ==> (#[trigger] self.users@[i]).username@ != (
            #[trigger] self.users@[j]).username@
    }

    pub open spec fn tasks_distinct(self) -> bool {
        forall|i: int, j: int|
            0 <= i < j < self.tasks@.len() ==> (#[trigger] self.tasks@[i]).id != (
            #[trigger] self.tasks@[j]).id
    }

    pub open spec fn roles_distinct(self) -> bool {
        forall|i: int, j: int|
            0 <= i < j < self.roles@.len() ==> (#[trigger] self.roles@[i]).id != (
            #[trigger] self.roles@[j]).id
    }

    pub open spec fn sub_tasks_distinct(self) -> bool {
        forall|i: int, j: int|
            0 <= i < j < self.sub_tasks@.len() ==> (#[trigger] self.sub_tasks@[i]).id != (
            #[trigger] self.sub_tasks@[j]).id
    }

    pub open spec fn progress_distinct(self) -> bool {
        forall|i: int, j: int|
            0 <= i < j < self.progress@.len() ==> (#[trigger] self.progress@[i]).id != (
            #[trigger] self.progress@[j]).id
    }

    pub open spec fn evaluations_distinct(self) -> bool {
        forall|i: int, j: int|
            0 <= i < j < self.evaluations@.len() ==> (#[trigger] self.evaluations@[i]).id != (
            #[trigger] self.evaluations@[j]).id
    }

    pub open spec fn messages_distinct(self) -> bool {
        forall|i: int, j: int|
            0 <= i < j < self.messages@.len() ==> (#[trigger] self.messages@[i]).id != (
            #[trigger] self.messages@[j]).id
    }

    /// Referential integrity: tasks name an existing creator; slots and
    /// sub-tasks name an existing task, and their claimant or assignee, if
    /// set, an existing user; log entries name an existing task.
    pub open spec fn refs_ok(self) -> bool {
        &&& forall|i: int|
            0 <= i < self.tasks@.len() ==> self.has_user((#[trigger] self.tasks@[i]).creator_id)
        &&& forall|i: int|
            0 <= i < self.roles@.len() ==> self.has_task((#[trigger] self.roles@[i]).task_id)
        &&& forall|i: int|
            0 <= i < self.roles@.len() ==> ((#[trigger] self.roles@[i]).user_id matches Some(u)
                ==> self.has_user(u))
        &&& forall|i: int|
            0 <= i < self.sub_tasks@.len() ==> self.has_task(
                (#[trigger] self.sub_tasks@[i]).task_id,
            )
        &&& forall|i: int|
            0 <= i < self.sub_tasks@.len() ==> ((#[trigger] self.sub_tasks@[i]).assignee_id
                matches Some(u) ==> self.has_user(u))
        &&& forall|i: int|
            0 <= i < self.progress@.len() ==> self.has_task((#[trigger] self.progress@[i]).task_id)
        &&& forall|i: int|
            0 <= i < self.evaluations@.len() ==> self.has_task(
                (#[trigger] self.evaluations@[i]).task_id,
            )
    }

    /// Well-formedness of the whole state.
    pub open spec fn wf(self) -> bool {
        &&& self.users_distinct()
        &&& self.usernames_distinct()
        &&& self.tasks_distinct()
        &&& self.roles_distinct()
        &&& self.sub_tasks_distinct()
        &&& self.progress_distinct()
        &&& self.evaluations_distinct()
        &&& self.messages_distinct()
        &&& self.refs_ok()
    }

    /// An empty workspace.
    pub fn new() -> (s: Store)
        ensures
            s.wf(),
            s.users@.len() == 0,
            s.tasks@.len() == 0,
            s.roles@.len() == 0,
            s.sub_tasks@.len() == 0,
            s.progress@.len() == 0,
            s.evaluations@.len() == 0,
            s.messages@.len() == 0,
    {
        Store {
            users: Vec::new(),
            tasks: Vec::new(),
            roles: Vec::new(),
            sub_tasks: Vec::new(),
            progress: Vec::new(),
            evaluations: Vec::new(),
            messages: Vec::new(),
        }
    }

    /// Index of the user row with the given id, if any.
    pub fn find_user_index(&self, id: u128) -> (r: Option<usize>)
        ensures
            match r {
                Some(i) => i < self.users@.len() && self.users@[i as int].id == id,
                None => !self.has_user(id),
            },
    {
        let mut i: usize = 0;
        while i < self.users.len()
            invariant
                i <= self.users@.len(),
                forall|j: int| 0 <= j < i ==> (#[trigger] self.users@[j]).id != id,
            decreases self.users@.len() - i,
        {
            if self.users[i].id == id {
                return Some(i);
            }
            i = i + 1;
        }
        None
    }

    /// Index of the task row with the given id, if any.
    pub fn find_task_index(&self, id: u128) -> (r: Option<usize>)
        ensures
            match r {
                Some(i) => i < self.tasks@.len() && self.tasks@[i as int].id == id,
                None => !self.has_task(id),
            },
    {
        let mut i: usize = 0;
        while i < self.tasks.len()
            invariant
                i <= self.tasks@.len(),
                forall|j: int| 0 <= j < i ==> (#[trigger] self.tasks@[j]).id != id,
            decreases self.tasks@.len() - i,
        {
            if self.tasks[i].id == id {
                return Some(i);
            }
            i = i + 1;
        }
        None
    }

    /// Index of the role slot with the given id, if any.
    pub fn find_role_index(&self, id: u128) -> (r: Option<usize>)
        ensures
            match r {
                Some(i) => i < self.roles@.len() && self.roles@[i as int].id == id,
                None => !self.has_role(id),
            },
    {
        let mut i: usize = 0;
        while i < self.roles.len()
            invariant
                i <= self.roles@.len(),
                forall|j: int| 0 <= j < i ==> (#[trigger] self.roles@[j]).id != id,
            decreases self.roles@.len() - i,
        {
            if self.roles[i].id == id {
                return Some(i);
            }
            i = i + 1;
        }
        None
    }

    /// Index of the sub-task row with the given id, if any.
    pub fn find_sub_task_index(&self, id: u128) -> (r: Option<usize>)
        ensures
            match r {
                Some(i) => i < self.sub_tasks@.len() && self.sub_tasks@[i as int].id == id,
                None => !self.has_sub_task(id),
            },
    {
        let mut i: usize = 0;
        while i < self.sub_tasks.len()
            invariant
                i <= self.sub_tasks@.len(),
                forall|j: int| 0 <= j < i ==> (#[trigger] self.sub_tasks@[j]).id != id,
            decreases self.sub_tasks@.len() - i,
        {
            if self.sub_tasks[i].id == id {
                return Some(i);
            }
            i = i + 1;
        }
        None
    }

    /// Index of the user row with the given username, if any.
    pub fn find_user_by_username(&self, username: &String) -> (r: Option<usize>)
        ensures
            match r {
                Some(i) => i < self.users@.len() && self.users@[i as int].username@ == username@,
                None => !self.username_taken(username@),
            },
    {
        let mut i: usize = 0;
        while i < self.users.len()
            invariant
                i <= self.users@.len(),
                forall|j: int| 0 <= j < i ==> (#[trigger] self.users@[j]).username@ != username@,
            decreases self.users@.len() - i,
        {
            if self.users[i].username == *username {
                return Some(i);
            }
            i = i + 1;
        }
        None
    }
}

/// Under unique user ids, looking a row's own id up yields that row.
pub proof fn lemma_user_of_index(s: Store, k: int)
    requires
        s.wf(),
        0 <= k < s.users@.len(),
    ensures
        s.has_user(s.users@[k].id),
        s.user_of(s.users@[k].id) == s.users@[k],
{
    let id = s.users@[k].id;
    assert(0 <= k < s.users@.len() && s.users@[k].id == id);
    assert(s.has_user(id));
    let i = choose|i: int| 0 <= i < s.users@.len() && (#[trigger] s.users@[i]).id == id;
    if i != k {
        assert(s.users@[i].id != s.users@[k].id);
    }
}

/// Under unique task ids, looking a row's own id up yields that row.
pub proof fn lemma_task_of_index(s: Store, k: int)
    requires
        s.wf(),
        0 <= k < s.tasks@.len(),
    ensures
        s.has_task(s.tasks@[k].id),
        s.task_of(s.tasks@[k].id) == s.tasks@[k],
{
    let id = s.tasks@[k].id;
    assert(0 <= k < s.tasks@.len() && s.tasks@[k].id == id);
    assert(s.has_task(id));
    let i = choose|i: int| 0 <= i < s.tasks@.len() && (#[trigger] s.tasks@[i]).id == id;
    if i != k {
        assert(s.tasks@[i].id != s.tasks@[k].id);
    }
}

/// Under unique sub-task ids, looking a row's own id up yields that row.
pub proof fn lemma_sub_task_of_index(s: Store, k: int)
    requires
        s.wf(),
        0 <= k < s.sub_tasks@.len(),
    ensures
        s.has_sub_task(s.sub_tasks@[k].id),
        s.sub_task_of(s.sub_tasks@[k].id) == s.sub_tasks@[k],
{
    let id = s.sub_tasks@[k].id;
    assert(0 <= k < s.sub_tasks@.len() && s.sub_tasks@[k].id == id);
    assert(s.has_sub_task(id));
    let i = choose|i: int| 0 <= i < s.sub_tasks@.len() && (#[trigger] s.sub_tasks@[i]).id == id;
    if i != k {
        assert(s.sub_tasks@[i].id != s.sub_tasks@[k].id);
    }
}

/// Under unique slot ids, looking a row's own id up yields that row.
pub proof fn lemma_role_of_index(s: Store, k: int)
    requires
        s.wf(),
        0 <= k < s.roles@.len(),
    ensures
        s.has_role(s.roles@[k].id),
        s.role_of(s.roles@[k].id) == s.roles@[k],
{
    let id = s.roles@[k].id;
    assert(0 <= k < s.roles@.len() && s.roles@[k].id == id);
    assert(s.has_role(id));
    let i = choose|i: int| 0 <= i < s.roles@.len() && (#[trigger] s.roles@[i]).id == id;
    if i != k {
        assert(s.roles@[i].id != s.roles@[k].id);
    }
}

} // verus!
