//! The role-claim protocol: conditional claim of an open slot, and the
//! member-wide cascade that releases a claimant from a whole task.

use vstd::prelude::*;

use vstd::pervasive::VecAdditionalExecFns;

use crate::model::{ClaimRoleInput, OpError, RoleInfo, SubTask, TaskRole};
use crate::store::Store;

verus! {

/// A claim succeeds exactly when the slot exists, is still open, and the
/// claiming user exists.
pub open spec fn claim_ok(s: Store, role_id: u128, user_id: u128) -> bool {
    &&& exists|i: int|
        0 <= i < s.roles@.len() && (#[trigger] s.roles@[i]).id == role_id && s.roles@[i].user_id
            is None
    &&& s.has_user(user_id)
}

/// The slot after a successful claim: only the claimant changes.
pub open spec fn claimed_slot(r: TaskRole, user_id: u128) -> TaskRole {
    TaskRole { user_id: Some(user_id), ..r }
}

/// Effect of a successful claim: exactly the matching slot gains the
/// claimant, everything else is untouched.
pub open spec fn claim_applied(s0: Store, s1: Store, role_id: u128, user_id: u128) -> bool {
    &&& s1.roles@.len() == s0.roles@.len()
    &&& (forall|i: int|
        0 <= i < s0.roles@.len() ==> #[trigger] s1.roles@[i] == (if s0.roles@[i].id == role_id {
            claimed_slot(s0.roles@[i], user_id)
        } else {
            s0.roles@[i]
        }))
    &&& s1.users@ == s0.users@
    &&& s1.tasks@ == s0.tasks@
    &&& s1.sub_tasks@ == s0.sub_tasks@
    &&& s1.progress@ == s0.progress@
    &&& s1.evaluations@ == s0.evaluations@
    &&& s1.messages@ == s0.messages@
}

/// A slot after the cascade that releases `user_id` from `task_id`: its
/// claimant is cleared when it belongs to that task and that user.
pub open spec fn released_role(r: TaskRole, task_id: u128, user_id: u128) -> TaskRole {
    if r.task_id == task_id && r.user_id == Some(user_id) {
        TaskRole { user_id: None, ..r }
    } else {
        r
    }
}

/// A sub-task after the same cascade: its assignee is cleared when it
/// belongs to that task and was assigned to that user.
pub open spec fn released_sub_task(st: SubTask, task_id: u128, user_id: u128) -> SubTask {
    if st.task_id == task_id && st.assignee_id == Some(user_id) {
        SubTask { assignee_id: None, ..st }
    } else {
        st
    }
}

/// Effect of the release cascade for one (task, member) pair: that
/// member's slots of that task are opened, that member's sub-task
/// assignments in that task are cleared, nothing else moves.
pub open spec fn release_applied(s0: Store, s1: Store, task_id: u128, user_id: u128) -> bool {
    &&& s1.roles@.len() == s0.roles@.len()
    &&& (forall|i: int|
        0 <= i < s0.roles@.len() ==> #[trigger] s1.roles@[i] == released_role(
            s0.roles@[i],
            task_id,
            user_id,
        ))
    &&& s1.sub_tasks@.len() == s0.sub_tasks@.len()
    &&& (forall|i: int|
        0 <= i < s0.sub_tasks@.len() ==> #[trigger] s1.sub_tasks@[i] == released_sub_task(
            s0.sub_tasks@[i],
            task_id,
            user_id,
        ))
    &&& s1.users@ == s0.users@
    &&& s1.tasks@ == s0.tasks@
    &&& s1.progress@ == s0.progress@
    &&& s1.evaluations@ == s0.evaluations@
    &&& s1.messages@ == s0.messages@
}

/// One slot of a task joined with the claimant's profile fields.
pub open spec fn role_info_row(s: Store, r: TaskRole) -> RoleInfo {
    match r.user_id {
        Some(u) => {
            let usr = s.user_of(u);
            RoleInfo {
                role_id: r.id,
                role_name: r.role_name,
                user_id: Some(u),
                name: usr.name,
                username: Some(usr.username),
                phone: usr.phone,
                student_id: usr.student_id,
                email: usr.email,
            }
        },
        None => RoleInfo {
            role_id: r.id,
            role_name: r.role_name,
            user_id: None,
            name: None,
            username: None,
            phone: None,
            student_id: None,
            email: None,
        },
    }
}

/// The slot roster of one task, in table order.
pub open spec fn role_info_rows(s: Store, rs: Seq<TaskRole>, task_id: u128) -> Seq<RoleInfo>
    decreases rs.len(),
{
    if rs.len() == 0 {
        Seq::empty()
    } else {
        let prefix = role_info_rows(s, rs.drop_last(), task_id);
        if rs.last().task_id == task_id {
            prefix.push(role_info_row(s, rs.last()))
        } else {
            prefix
        }
    }
}

impl Store {
    /// Conditional claim: set the claimant where the slot id matches and the
    /// claimant is currently absent. This is the one race-safe write of the
    /// protocol; losing it — slot gone, already claimed, or no such user —
    /// reports `Conflict` and changes nothing.
    pub fn claim_role(&mut self, input: &ClaimRoleInput) -> (r: Result<(), OpError>)
        requires
            old(self).wf(),
        ensures
            final(self).wf(),
            r is Ok <==> claim_ok(*old(self), input.role_id, input.user_id),
            r is Err ==> *final(self) == *old(self) && r == Err::<(), OpError>(OpError::Conflict),
            r is Ok ==> claim_applied(*old(self), *final(self), input.role_id, input.user_id),
    {
        if self.find_user_index(input.user_id).is_none() {
            return Err(OpError::Conflict);
        }
        let idx = match self.find_role_index(input.role_id) {
            Some(i) => i,
            None => {
                return Err(OpError::Conflict);
            },
        };
        if self.roles[idx].user_id.is_some() {
            proof {
                assert forall|i: int|
                    0 <= i < self.roles@.len() && (#[trigger] self.roles@[i]).id
                        == input.role_id implies i == idx by {
                    if i != idx {
                        assert(self.roles@[i].id != self.roles@[idx as int].id);
                    }
                }
            }
            return Err(OpError::Conflict);
        }
        let updated = TaskRole {
            id: self.roles[idx].id,
            task_id: self.roles[idx].task_id,
            role_name: self.roles[idx].role_name.clone(),
            user_id: Some(input.user_id),
        };
        self.roles.set(idx, updated);
        proof {
            let s0 = *old(self);
            assert forall|i: int|
                0 <= i < s0.roles@.len() implies #[trigger] self.roles@[i] == (
            if s0.roles@[i].id == input.role_id {
                claimed_slot(s0.roles@[i], input.user_id)
            } else {
                s0.roles@[i]
            }) by {
                if i != idx {
                    assert(s0.roles@[i].id != s0.roles@[idx as int].id);
                }
            }
            assert forall|i: int, j: int|
                0 <= i < j < self.roles@.len() implies (#[trigger] self.roles@[i]).id != (
            #[trigger] self.roles@[j]).id by {
                assert(self.roles@[i].id == s0.roles@[i].id);
                assert(self.roles@[j].id == s0.roles@[j].id);
            }
            assert(self.refs_ok()) by {
                assert forall|i: int| 0 <= i < self.roles@.len() implies self.has_task(
                    (#[trigger] self.roles@[i]).task_id,
                ) && (self.roles@[i].user_id matches Some(u) ==> self.has_user(u)) by {
                    assert(s0.has_task(s0.roles@[i].task_id));
                    assert(s0.roles@[i].user_id matches Some(u) ==> s0.has_user(u));
                }
            }
        }
        Ok(())
    }

    /// Release the claimant of the given slot from its whole task: every
    /// slot of that task held by that user is opened again, and every
    /// sub-task of that task assigned to that user loses its assignee. Both
    /// cascade writes land together. A slot without a claimant, or an
    /// unknown slot id, is a silent success.
    pub fn remove_member_from_task_role(&mut self, role_id: u128)
        requires
            old(self).wf(),
        ensures
            final(self).wf(),
            (!old(self).has_role(role_id) || old(self).role_of(role_id).user_id is None)
                ==> *final(self) == *old(self),
            old(self).has_role(role_id) ==> (old(self).role_of(role_id).user_id matches Some(u)
                ==> release_applied(
                *old(self),
                *final(self),
                old(self).role_of(role_id).task_id,
                u,
            )),
    {
        let idx = match self.find_role_index(role_id) {
            Some(i) => i,
            None => {
                return ;
            },
        };
        let user_id = match self.roles[idx].user_id {
            Some(u) => u,
            None => {
                proof {
                    crate::store::lemma_role_of_index(*self, idx as int);
                }
                return ;
            },
        };
        let task_id = self.roles[idx].task_id;
        proof {
            crate::store::lemma_role_of_index(*self, idx as int);
        }
        let ghost s0 = *self;
        // cascade over the task's role slots
        let mut i: usize = 0;
        while i < self.roles.len()
            invariant
                self.roles@.len() == s0.roles@.len(),
                i <= self.roles@.len(),
                forall|j: int|
                    0 <= j < i ==> #[trigger] self.roles@[j] == released_role(
                        s0.roles@[j],
                        task_id,
                        user_id,
                    ),
                forall|j: int| i <= j < self.roles@.len() ==> self.roles@[j] == s0.roles@[j],
                self.users@ == s0.users@,
                self.tasks@ == s0.tasks@,
                self.sub_tasks@ == s0.sub_tasks@,
                self.progress@ == s0.progress@,
                self.evaluations@ == s0.evaluations@,
                self.messages@ == s0.messages@,
            decreases self.roles@.len() - i,
        {
            let held = match self.roles[i].user_id {
                Some(u) => u == user_id,
                None => false,
            };
            if held && self.roles[i].task_id == task_id {
                let cleared = TaskRole {
                    id: self.roles[i].id,
                    task_id: self.roles[i].task_id,
                    role_name: self.roles[i].role_name.clone(),
                    user_id: None,
                };
                self.roles.set(i, cleared);
            }
            i = i + 1;
        }
        // cascade over the task's sub-tasks
        let mut k: usize = 0;
        while k < self.sub_tasks.len()
            invariant
                self.sub_tasks@.len() == s0.sub_tasks@.len(),
                k <= self.sub_tasks@.len(),
                forall|j: int|
                    0 <= j < k ==> #[trigger] self.sub_tasks@[j] == released_sub_task(
                        s0.sub_tasks@[j],
                        task_id,
                        user_id,
                    ),
                forall|j: int|
                    k <= j < self.sub_tasks@.len() ==> self.sub_tasks@[j] == s0.sub_tasks@[j],
                self.roles@.len() == s0.roles@.len(),
                forall|j: int|
                    0 <= j < self.roles@.len() ==> #[trigger] self.roles@[j] == released_role(
                        s0.roles@[j],
                        task_id,
                        user_id,
                    ),
                self.users@ == s0.users@,
                self.tasks@ == s0.tasks@,
                self.progress@ == s0.progress@,
                self.evaluations@ == s0.evaluations@,
                self.messages@ == s0.messages@,
            decreases self.sub_tasks@.len() - k,
        {
            let assigned = match self.sub_tasks[k].assignee_id {
                Some(u) => u == user_id,
                None => false,
            };
            if assigned && self.sub_tasks[k].task_id == task_id {
                let cleared = SubTask {
                    id: self.sub_tasks[k].id,
                    task_id: self.sub_tasks[k].task_id,
                    title: self.sub_tasks[k].title.clone(),
                    description: crate::model::clone_opt_string(&self.sub_tasks[k].description),
                    assignee_id: None,
                    status: self.sub_tasks[k].status,
                    created_at: self.sub_tasks[k].created_at,
                    due_date: self.sub_tasks[k].due_date,
                };
                self.sub_tasks.set(k, cleared);
            }
            k = k + 1;
        }
        proof {
            let s1 = *self;
            assert forall|i2: int, j2: int|
                0 <= i2 < j2 < s1.roles@.len() implies (#[trigger] s1.roles@[i2]).id != (
            #[trigger] s1.roles@[j2]).id by {
                assert(s1.roles@[i2].id == s0.roles@[i2].id);
                assert(s1.roles@[j2].id == s0.roles@[j2].id);
            }
            assert forall|i2: int, j2: int|
                0 <= i2 < j2 < s1.sub_tasks@.len() implies (#[trigger] s1.sub_tasks@[i2]).id != (
            #[trigger] s1.sub_tasks@[j2]).id by {
                assert(s1.sub_tasks@[i2].id == s0.sub_tasks@[i2].id);
                assert(s1.sub_tasks@[j2].id == s0.sub_tasks@[j2].id);
            }
            assert(s1.refs_ok()) by {
                assert forall|i2: int| 0 <= i2 < s1.roles@.len() implies s1.has_task(
                    (#[trigger] s1.roles@[i2]).task_id,
                ) && (s1.roles@[i2].user_id matches Some(u) ==> s1.has_user(u)) by {
                    assert(s0.has_task(s0.roles@[i2].task_id));
                    assert(s0.roles@[i2].user_id matches Some(u) ==> s0.has_user(u));
                }
                assert forall|i2: int| 0 <= i2 < s1.sub_tasks@.len() implies s1.has_task(
                    (#[trigger] s1.sub_tasks@[i2]).task_id,
                ) && (s1.sub_tasks@[i2].assignee_id matches Some(u) ==> s1.has_user(u)) by {
                    assert(s0.has_task(s0.sub_tasks@[i2].task_id));
                    assert(s0.sub_tasks@[i2].assignee_id matches Some(u) ==> s0.has_user(u));
                }
            }
        }
    }

    /// The full slot roster of one task, each slot joined with the
    /// claimant's profile fields, in table order.
    pub fn get_task_roles(&self, task_id: u128) -> (r: Vec<RoleInfo>)
        requires
            self.wf(),
        ensures
            r@ == role_info_rows(*self, self.roles@, task_id),
    {
        let mut out: Vec<RoleInfo> = Vec::new();
        let mut i: usize = 0;
        while i < self.roles.len()
            invariant
                self.wf(),
                i <= self.roles@.len(),
                out@ == role_info_rows(*self, self.roles@.take(i as int), task_id),
            decreases self.roles@.len() - i,
        {
            proof {
                assert(self.roles@.take(i + 1 as int).drop_last() =~= self.roles@.take(i as int));
                assert(self.roles@.take(i + 1 as int).last() == self.roles@[i as int]);
            }
            if self.roles[i].task_id == task_id {
                let row = match self.roles[i].user_id {
                    Some(u) => {
                        proof {
                            assert(self.roles@[i as int].user_id matches Some(x) ==> self.has_user(
                                x,
                            ));
                        }
                        let k = match self.find_user_index(u) {
                            Some(k) => k,
                            None => {
                                proof {
                                    assert(false);
                                }
                                0
                            },
                        };
                        proof {
                            crate::store::lemma_user_of_index(*self, k as int);
                        }
                        RoleInfo {
                            role_id: self.roles[i].id,
                            role_name: self.roles[i].role_name.clone(),
                            user_id: Some(u),
                            name: crate::model::clone_opt_string(&self.users[k].name),
                            username: Some(self.users[k].username.clone()),
                            phone: crate::model::clone_opt_string(&self.users[k].phone),
                            student_id: crate::model::clone_opt_string(&self.users[k].student_id),
                            email: crate::model::clone_opt_string(&self.users[k].email),
                        }
                    },
                    None => RoleInfo {
                        role_id: self.roles[i].id,
                        role_name: self.roles[i].role_name.clone(),
                        user_id: None,
                        name: None,
                        username: None,
                        phone: None,
                        student_id: None,
                        email: None,
                    },
                };
                out.push(row);
            }
            i = i + 1;
        }
        proof {
            assert(self.roles@.take(self.roles@.len() as int) =~= self.roles@);
        }
        out
    }
}

} // verus!
