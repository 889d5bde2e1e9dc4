//! Sub-tasks: deliverables attached to a task, with an advisory assignee
//! and an independent status fixed at creation.

use vstd::prelude::*;

use vstd::pervasive::VecAdditionalExecFns;

use crate::model::{OpError, SubTask, SubTaskDetails, SubTaskInput, SubTaskStatus, SubTaskUpdateInput};
use crate::order::{
    lemma_map_values_multiset, lemma_same_contents_pointwise, sort_keyed, strip_keys, Keyed,
};
use crate::store::Store;

verus! {

/// The row a successful creation appends: not started, unassigned.
pub open spec fn new_sub_task(
    sub_task_id: u128,
    task_id: u128,
    now: i64,
    input: SubTaskInput,
) -> SubTask {
    SubTask {
        id: sub_task_id,
        task_id,
        title: input.title,
        description: input.description,
        assignee_id: None,
        status: SubTaskStatus::NotStarted,
        created_at: now,
        due_date: input.due_date,
    }
}

/// Effect of a successful creation at a given clock value.
pub open spec fn sub_task_created_at(
    s0: Store,
    s1: Store,
    task_id: u128,
    sub_task_id: u128,
    now: i64,
    input: SubTaskInput,
) -> bool {
    &&& s1.sub_tasks@ == s0.sub_tasks@.push(new_sub_task(sub_task_id, task_id, now, input))
    &&& s1.users@ == s0.users@
    &&& s1.tasks@ == s0.tasks@
    &&& s1.roles@ == s0.roles@
    &&& s1.progress@ == s0.progress@
    &&& s1.evaluations@ == s0.evaluations@
    &&& s1.messages@ == s0.messages@
}

/// A creation that went through at some clock value.
pub open spec fn sub_task_created(
    s0: Store,
    s1: Store,
    task_id: u128,
    sub_task_id: u128,
    input: SubTaskInput,
) -> bool {
    exists|now: i64| sub_task_created_at(s0, s1, task_id, sub_task_id, now, input)
}

/// A sub-task after a full replace of its four mutable fields.
pub open spec fn updated_sub_task(st: SubTask, input: SubTaskUpdateInput) -> SubTask {
    SubTask {
        title: input.title,
        description: input.description,
        due_date: input.due_date,
        assignee_id: input.assignee_id,
        ..st
    }
}

/// A sub-task joined with its assignee's display name: the name when one is
/// set, the username otherwise, nothing while the sub-task is unassigned.
pub open spec fn sub_task_row(s: Store, st: SubTask) -> SubTaskDetails {
    SubTaskDetails {
        id: st.id,
        title: st.title,
        description: st.description,
        status: st.status,
        due_date: st.due_date,
        assignee_id: st.assignee_id,
        assignee_name: match st.assignee_id {
            Some(u) => {
                let usr = s.user_of(u);
                match usr.name {
                    Some(n) => Some(n),
                    None => Some(usr.username),
                }
            },
            None => None,
        },
    }
}

/// The sub-tasks of one task, joined with assignee names, in table order.
pub open spec fn sub_task_rows(s: Store, sts: Seq<SubTask>, task_id: u128) -> Seq<SubTaskDetails>
    decreases sts.len(),
{
    if sts.len() == 0 {
        Seq::empty()
    } else {
        let prefix = sub_task_rows(s, sts.drop_last(), task_id);
        if sts.last().task_id == task_id {
            prefix.push(sub_task_row(s, sts.last()))
        } else {
            prefix
        }
    }
}

impl Store {
    /// Attach a sub-task to a task. The write lands exactly when the task
    /// exists and the id is new; otherwise nothing changes and a store
    /// error is reported.
    pub fn create_sub_task_at(
        &mut self,
        task_id: u128,
        sub_task_id: u128,
        now: i64,
        input: &SubTaskInput,
    ) -> (r: Result<(), OpError>)
        requires
            old(self).wf(),
        ensures
            final(self).wf(),
            r is Ok <==> old(self).has_task(task_id) && !old(self).has_sub_task(sub_task_id),
            r is Err ==> *final(self) == *old(self) && r == Err::<(), OpError>(OpError::Store),
            r is Ok ==> sub_task_created_at(
                *old(self),
                *final(self),
                task_id,
                sub_task_id,
                now,
                *input,
            ),
    {
        if self.find_task_index(task_id).is_none() {
            return Err(OpError::Store);
        }
        if self.find_sub_task_index(sub_task_id).is_some() {
            return Err(OpError::Store);
        }
        let ghost s0 = *self;
        let row = SubTask {
            id: sub_task_id,
            task_id,
            title: input.title.clone(),
            description: crate::model::clone_opt_string(&input.description),
            assignee_id: None,
            status: SubTaskStatus::NotStarted,
            created_at: now,
            due_date: input.due_date,
        };
        self.sub_tasks.push(row);
        proof {
            let s1 = *self;
            let n = s0.sub_tasks@.len() as int;
            assert forall|a: int, b: int|
                0 <= a < b < s1.sub_tasks@.len() implies (#[trigger] s1.sub_tasks@[a]).id != (
            #[trigger] s1.sub_tasks@[b]).id by {
                if b < n {
                    assert(s0.sub_tasks@[a].id != s0.sub_tasks@[b].id);
                } else {
                    assert(!s0.has_sub_task(sub_task_id));
                }
            }
            assert(s1.refs_ok()) by {
                assert forall|m: int| 0 <= m < s1.sub_tasks@.len() implies s1.has_task(
                    (#[trigger] s1.sub_tasks@[m]).task_id,
                ) && (s1.sub_tasks@[m].assignee_id matches Some(u) ==> s1.has_user(u)) by {
                    if m < n {
                        assert(s0.has_task(s0.sub_tasks@[m].task_id));
                        assert(s0.sub_tasks@[m].assignee_id matches Some(u) ==> s0.has_user(u));
                    } else {
                        assert(s0.has_task(task_id));
                    }
                }
            }
        }
        Ok(())
    }

    /// Attach a sub-task under a freshly drawn id, stamped with the current
    /// time. Success reports the new id; an unknown task is always refused.
    pub fn create_sub_task(&mut self, task_id: u128, input: &SubTaskInput) -> (r: Result<
        u128,
        OpError,
    >)
        requires
            old(self).wf(),
        ensures
            final(self).wf(),
            r matches Err(e) ==> *final(self) == *old(self) && e == OpError::Store,
            !old(self).has_task(task_id) ==> r is Err,
            r matches Ok(id) ==> old(self).has_task(task_id) && sub_task_created(
                *old(self),
                *final(self),
                task_id,
                id,
                *input,
            ),
    {
        let sub_task_id = crate::ext::fresh_id();
        let now = crate::ext::now_micros();
        match self.create_sub_task_at(task_id, sub_task_id, now, input) {
            Ok(()) => {
                proof {
                    assert(sub_task_created_at(
                        *old(self),
                        *self,
                        task_id,
                        sub_task_id,
                        now,
                        *input,
                    ));
                    assert(sub_task_created(*old(self), *self, task_id, sub_task_id, *input));
                }
                Ok(sub_task_id)
            },
            Err(e) => Err(e),
        }
    }

    /// Replace title, description, due date and assignee in one write; the
    /// assignee may be cleared. A missing row is not an error — nothing
    /// changes and the call still succeeds — but an unknown assignee is
    /// refused by the store.
    pub fn update_sub_task(&mut self, sub_task_id: u128, input: &SubTaskUpdateInput) -> (r: Result<
        (),
        OpError,
    >)
        requires
            old(self).wf(),
        ensures
            final(self).wf(),
            r is Err <==> (input.assignee_id matches Some(u) && !old(self).has_user(u)),
            r is Err ==> *final(self) == *old(self) && r == Err::<(), OpError>(OpError::Store),
            r is Ok && !old(self).has_sub_task(sub_task_id) ==> *final(self) == *old(self),
            r is Ok && old(self).has_sub_task(sub_task_id) ==> {
                &&& final(self).sub_tasks@.len() == old(self).sub_tasks@.len()
                &&& (forall|i: int|
                    0 <= i < old(self).sub_tasks@.len() ==> #[trigger] final(self).sub_tasks@[i]
                        == (if old(self).sub_tasks@[i].id == sub_task_id {
                        updated_sub_task(old(self).sub_tasks@[i], *input)
                    } else {
                        old(self).sub_tasks@[i]
                    }))
                &&& final(self).users@ == old(self).users@
                &&& final(self).tasks@ == old(self).tasks@
                &&& final(self).roles@ == old(self).roles@
                &&& final(self).progress@ == old(self).progress@
                &&& final(self).evaluations@ == old(self).evaluations@
                &&& final(self).messages@ == old(self).messages@
            },
    {
        if let Some(u) = input.assignee_id {
            if self.find_user_index(u).is_none() {
                return Err(OpError::Store);
            }
        }
        let idx = match self.find_sub_task_index(sub_task_id) {
            Some(i) => i,
            None => {
                return Ok(());
            },
        };
        let updated = SubTask {
            id: self.sub_tasks[idx].id,
            task_id: self.sub_tasks[idx].task_id,
            title: input.title.clone(),
            description: crate::model::clone_opt_string(&input.description),
            assignee_id: input.assignee_id,
            status: self.sub_tasks[idx].status,
            created_at: self.sub_tasks[idx].created_at,
            due_date: input.due_date,
        };
        self.sub_tasks.set(idx, updated);
        proof {
            let s0 = *old(self);
            assert forall|i: int|
                0 <= i < s0.sub_tasks@.len() implies #[trigger] self.sub_tasks@[i] == (
            if s0.sub_tasks@[i].id == sub_task_id {
                updated_sub_task(s0.sub_tasks@[i], *input)
            } else {
                s0.sub_tasks@[i]
            }) by {
                if i != idx {
                    assert(s0.sub_tasks@[i].id != s0.sub_tasks@[idx as int].id);
                }
            }
            lemma_wf_after_sub_task_rows_update(s0, *self);
        }
        Ok(())
    }

    /// Hard delete. Succeeds exactly when the row existed; the row is then
    /// gone and everything else is untouched.
    pub fn delete_sub_task(&mut self, sub_task_id: u128) -> (r: Result<(), OpError>)
        requires
            old(self).wf(),
        ensures
            final(self).wf(),
            r is Ok <==> old(self).has_sub_task(sub_task_id),
            r is Err ==> *final(self) == *old(self) && r == Err::<(), OpError>(OpError::NotFound),
            r is Ok ==> {
                &&& (exists|i: int|
                    0 <= i < old(self).sub_tasks@.len() && (#[trigger] old(self).sub_tasks@[i]).id
                        == sub_task_id && final(self).sub_tasks@ == old(self).sub_tasks@.remove(i))
                &&& final(self).users@ == old(self).users@
                &&& final(self).tasks@ == old(self).tasks@
                &&& final(self).roles@ == old(self).roles@
                &&& final(self).progress@ == old(self).progress@
                &&& final(self).evaluations@ == old(self).evaluations@
                &&& final(self).messages@ == old(self).messages@
            },
    {
        let idx = match self.find_sub_task_index(sub_task_id) {
            Some(i) => i,
            None => {
                return Err(OpError::NotFound);
            },
        };
        let ghost s0 = *self;
        self.sub_tasks.remove(idx);
        proof {
            let s1 = *self;
            assert(s1.sub_tasks@ == s0.sub_tasks@.remove(idx as int));
            assert forall|a: int, b: int|
                0 <= a < b < s1.sub_tasks@.len() implies (#[trigger] s1.sub_tasks@[a]).id != (
            #[trigger] s1.sub_tasks@[b]).id by {
                let a0: int = if a < idx {
                    a
                } else {
                    a + 1
                };
                let b0: int = if b < idx {
                    b
                } else {
                    b + 1
                };
                assert(s1.sub_tasks@[a] == s0.sub_tasks@[a0]);
                assert(s1.sub_tasks@[b] == s0.sub_tasks@[b0]);
                assert(s0.sub_tasks@[a0].id != s0.sub_tasks@[b0].id);
            }
            assert(s1.refs_ok()) by {
                assert forall|m: int| 0 <= m < s1.sub_tasks@.len() implies s1.has_task(
                    (#[trigger] s1.sub_tasks@[m]).task_id,
                ) && (s1.sub_tasks@[m].assignee_id matches Some(u) ==> s1.has_user(u)) by {
                    let m0: int = if m < idx {
                        m
                    } else {
                        m + 1
                    };
                    assert(s1.sub_tasks@[m] == s0.sub_tasks@[m0]);
                    assert(s0.has_task(s0.sub_tasks@[m0].task_id));
                    assert(s0.sub_tasks@[m0].assignee_id matches Some(u) ==> s0.has_user(u));
                }
            }
        }
        Ok(())
    }

    /// The sub-tasks of one task joined with assignee display names, oldest
    /// first by creation time.
    pub fn list_sub_tasks(&self, task_id: u128) -> (r: Vec<SubTaskDetails>)
        requires
            self.wf(),
        ensures
            r@.to_multiset() == sub_task_rows(*self, self.sub_tasks@, task_id).to_multiset(),
            forall|i: int, j: int|
                0 <= i < j < r@.len() ==> self.has_sub_task((#[trigger] r@[i]).id)
                    && self.has_sub_task((#[trigger] r@[j]).id) && self.sub_task_of(
                    r@[i].id,
                ).created_at <= self.sub_task_of(r@[j].id).created_at,
    {
        let mut keyed: Vec<Keyed<SubTaskDetails>> = Vec::new();
        let mut i: usize = 0;
        while i < self.sub_tasks.len()
            invariant
                self.wf(),
                i <= self.sub_tasks@.len(),
                keyed@.len() == sub_task_rows(*self, self.sub_tasks@.take(i as int), task_id).len(),
                forall|m: int|
                    0 <= m < keyed@.len() ==> (#[trigger] keyed@[m]).item == sub_task_rows(
                        *self,
                        self.sub_tasks@.take(i as int),
                        task_id,
                    )[m],
                forall|m: int|
                    0 <= m < keyed@.len() ==> (#[trigger] keyed@[m]).k2 == 0 && self.has_sub_task(
                        keyed@[m].item.id,
                    ) && keyed@[m].k1 == self.sub_task_of(keyed@[m].item.id).created_at,
            decreases self.sub_tasks@.len() - i,
        {
            proof {
                assert(self.sub_tasks@.take(i + 1 as int).drop_last() =~= self.sub_tasks@.take(
                    i as int,
                ));
                assert(self.sub_tasks@.take(i + 1 as int).last() == self.sub_tasks@[i as int]);
            }
            if self.sub_tasks[i].task_id == task_id {
                let name = match self.sub_tasks[i].assignee_id {
                    Some(u) => {
                        proof {
                            assert(self.sub_tasks@[i as int].assignee_id matches Some(x)
                                ==> self.has_user(x));
                        }
                        let k = match self.find_user_index(u) {
                            Some(k) => k,
                            None => {
                                proof {
                                    assert(false);
                                }
                                0
                            },
                        };
                        proof {
                            crate::store::lemma_user_of_index(*self, k as int);
                        }
                        match &self.users[k].name {
                            Some(n) => Some(n.clone()),
                            None => Some(self.users[k].username.clone()),
                        }
                    },
                    None => None,
                };
                let row = SubTaskDetails {
                    id: self.sub_tasks[i].id,
                    title: self.sub_tasks[i].title.clone(),
                    description: crate::model::clone_opt_string(&self.sub_tasks[i].description),
                    status: self.sub_tasks[i].status,
                    due_date: self.sub_tasks[i].due_date,
                    assignee_id: self.sub_tasks[i].assignee_id,
                    assignee_name: name,
                };
                let entry = Keyed { k1: self.sub_tasks[i].created_at, k2: 0i64, item: row };
                proof {
                    assert(entry.item == sub_task_row(*self, self.sub_tasks@[i as int]));
                    crate::store::lemma_sub_task_of_index(*self, i as int);
                }
                keyed.push(entry);
            }
            i = i + 1;
        }
        proof {
            assert(self.sub_tasks@.take(self.sub_tasks@.len() as int) =~= self.sub_tasks@);
        }
        let ghost built = keyed@;
        let ghost rows = sub_task_rows(*self, self.sub_tasks@, task_id);
        let mut keyed = keyed;
        sort_keyed(&mut keyed);
        let ghost sorted = keyed@;
        let out = strip_keys(keyed);
        proof {
            let itemf = |k: Keyed<SubTaskDetails>| k.item;
            assert(built.map_values(itemf) =~= rows);
            lemma_map_values_multiset(sorted, built, itemf);
            assert(out@ =~= sorted.map_values(itemf));
            assert(out@.to_multiset() == rows.to_multiset());
            lemma_same_contents_pointwise(
                built,
                sorted,
                |k: Keyed<SubTaskDetails>| k.k2 == 0 && self.has_sub_task(k.item.id) && k.k1
                    == self.sub_task_of(k.item.id).created_at,
            );
            assert forall|i2: int, j2: int|
                0 <= i2 < j2 < out@.len() implies self.has_sub_task((#[trigger] out@[i2]).id)
                && self.has_sub_task((#[trigger] out@[j2]).id) && self.sub_task_of(
                out@[i2].id,
            ).created_at <= self.sub_task_of(out@[j2].id).created_at by {
                assert(crate::order::key_le(sorted[i2], sorted[j2]));
                assert(sorted[i2].k2 == 0 && sorted[j2].k2 == 0);
                assert(out@[i2] == sorted[i2].item && out@[j2] == sorted[j2].item);
            }
        }
        out
    }
}

/// Editing the mutable fields of sub-task rows — ids, owning tasks, and the
/// other tables untouched, any new assignee an existing user — keeps the
/// store well-formed.
proof fn lemma_wf_after_sub_task_rows_update(s0: Store, s1: Store)
    requires
        s0.wf(),
        s1.sub_tasks@.len() == s0.sub_tasks@.len(),
        forall|i: int|
            0 <= i < s0.sub_tasks@.len() ==> (#[trigger] s1.sub_tasks@[i]).id
                == s0.sub_tasks@[i].id && s1.sub_tasks@[i].task_id == s0.sub_tasks@[i].task_id && (
            s1.sub_tasks@[i].assignee_id matches Some(u) ==> s0.has_user(u)),
        s1.users@ == s0.users@,
        s1.tasks@ == s0.tasks@,
        s1.roles@ == s0.roles@,
        s1.progress@ == s0.progress@,
        s1.evaluations@ == s0.evaluations@,
        s1.messages@ == s0.messages@,
    ensures
        s1.wf(),
{
    assert forall|i: int, j: int|
        0 <= i < j < s1.sub_tasks@.len() implies (#[trigger] s1.sub_tasks@[i]).id != (
    #[trigger] s1.sub_tasks@[j]).id by {
        assert(s0.sub_tasks@[i].id != s0.sub_tasks@[j].id);
    }
    assert(s1.refs_ok()) by {
        assert forall|i: int| 0 <= i < s1.tasks@.len() implies s1.has_user(
            (#[trigger] s1.tasks@[i]).creator_id,
        ) by {
            assert(s0.has_user(s0.tasks@[i].creator_id));
        }
        assert forall|i: int| 0 <= i < s1.roles@.len() implies s1.has_task(
            (#[trigger] s1.roles@[i]).task_id,
        ) && (s1.roles@[i].user_id matches Some(u) ==> s1.has_user(u)) by {
            assert(s0.has_task(s0.roles@[i].task_id));
            assert(s0.roles@[i].user_id matches Some(u) ==> s0.has_user(u));
        }
        assert forall|i: int| 0 <= i < s1.sub_tasks@.len() implies s1.has_task(
            (#[trigger] s1.sub_tasks@[i]).task_id,
        ) && (s1.sub_tasks@[i].assignee_id matches Some(u) ==> s1.has_user(u)) by {
            assert(s0.has_task(s0.sub_tasks@[i].task_id));
        }
        assert forall|i: int| 0 <= i < s1.progress@.len() implies s1.has_task(
            (#[trigger] s1.progress@[i]).task_id,
        ) by {
            assert(s0.has_task(s0.progress@[i].task_id));
        }
        assert forall|i: int| 0 <= i < s1.evaluations@.len() implies s1.has_task(
            (#[trigger] s1.evaluations@[i]).task_id,
        ) by {
            assert(s0.has_task(s0.evaluations@[i].task_id));
        }
    }
}

} // verus!
