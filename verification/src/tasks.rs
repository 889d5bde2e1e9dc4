//! The task lifecycle: transactional creation of a task with its role
//! slots, title/description edits, the one-way finish transition, and the
//! open-task listing.

use vstd::prelude::*;

use vstd::pervasive::VecAdditionalExecFns;

use crate::model::{
    FinishTaskInput, OpError, Task, TaskDetails, TaskInput, TaskRole, TaskStatus, TaskUpdateInput,
    UpdateOutcome,
};
use crate::order::{
    lemma_map_values_multiset, lemma_same_contents_pointwise, sort_keyed, strip_keys, Keyed,
};
use crate::store::Store;

verus! {

/// Creation succeeds exactly when the creator exists, the task id is new,
/// and the slot ids are new and pairwise distinct.
pub open spec fn create_ok(s: Store, task_id: u128, slot_ids: Seq<u128>, creator_id: u128) -> bool {
    &&& s.has_user(creator_id)
    &&& !s.has_task(task_id)
    &&& forall|i: int| 0 <= i < slot_ids.len() ==> !s.has_role(#[trigger] slot_ids[i])
    &&& forall|i: int, j: int|
        0 <= i < j < slot_ids.len() ==> #[trigger] slot_ids[i] != #[trigger] slot_ids[j]
}

/// The task row a successful creation appends: open, stamped with `now`.
pub open spec fn new_task(task_id: u128, now: i64, input: TaskInput) -> Task {
    Task {
        id: task_id,
        title: input.title,
        description: input.description,
        creator_id: input.creator_id,
        created_at: now,
        team_size: input.team_size,
        status: TaskStatus::Open,
    }
}

/// The slot rows a successful creation appends: one open slot per name,
/// duplicates included.
pub open spec fn new_slots(task_id: u128, slot_ids: Seq<u128>, names: Seq<String>) -> Seq<
    TaskRole,
> {
    Seq::new(
        slot_ids.len(),
        |i: int| TaskRole { id: slot_ids[i], task_id, role_name: names[i], user_id: None },
    )
}

/// All-or-nothing effect of a successful creation.
pub open spec fn task_created(
    s0: Store,
    s1: Store,
    task_id: u128,
    slot_ids: Seq<u128>,
    now: i64,
    input: TaskInput,
) -> bool {
    &&& s1.tasks@ == s0.tasks@.push(new_task(task_id, now, input))
    &&& s1.roles@ == s0.roles@ + new_slots(task_id, slot_ids, input.roles@)
    &&& s1.users@ == s0.users@
    &&& s1.sub_tasks@ == s0.sub_tasks@
    &&& s1.progress@ == s0.progress@
    &&& s1.evaluations@ == s0.evaluations@
    &&& s1.messages@ == s0.messages@
}

/// A creation that went through with some fresh ids and some clock value.
pub open spec fn created_with_some_ids(s0: Store, s1: Store, id: u128, input: TaskInput) -> bool {
    exists|slot_ids: Seq<u128>, now: i64|
        slot_ids.len() == input.roles@.len() && create_ok(s0, id, slot_ids, input.creator_id)
            && task_created(s0, s1, id, slot_ids, now, input)
}

/// The task after an edit: only title and description change.
pub open spec fn edited_task(t: Task, input: TaskUpdateInput) -> Task {
    Task { title: input.title, description: input.description, ..t }
}

/// The task after finishing: only the status changes.
pub open spec fn finished_task(t: Task) -> Task {
    Task { status: TaskStatus::Finished, ..t }
}

/// Effect of finishing an existing task: exactly the matching row is set to
/// finished, everything else is untouched.
pub open spec fn finish_applied(s0: Store, s1: Store, task_id: u128) -> bool {
    &&& s1.tasks@.len() == s0.tasks@.len()
    &&& (forall|i: int|
        0 <= i < s0.tasks@.len() ==> #[trigger] s1.tasks@[i] == (if s0.tasks@[i].id == task_id {
            finished_task(s0.tasks@[i])
        } else {
            s0.tasks@[i]
        }))
    &&& s1.users@ == s0.users@
    &&& s1.roles@ == s0.roles@
    &&& s1.sub_tasks@ == s0.sub_tasks@
    &&& s1.progress@ == s0.progress@
    &&& s1.evaluations@ == s0.evaluations@
    &&& s1.messages@ == s0.messages@
}

/// An open task joined with its creator's display fields.
pub open spec fn task_details_row(s: Store, t: Task) -> TaskDetails {
    let u = s.user_of(t.creator_id);
    TaskDetails {
        id: t.id,
        title: t.title,
        description: t.description,
        creator_id: t.creator_id,
        created_at: t.created_at,
        team_size: t.team_size,
        status: t.status,
        creator_name: u.name,
        creator_username: u.username,
    }
}

/// The open tasks of a table, joined with their creators, in table order.
pub open spec fn open_task_rows(s: Store, ts: Seq<Task>) -> Seq<TaskDetails>
    decreases ts.len(),
{
    if ts.len() == 0 {
        Seq::empty()
    } else {
        let prefix = open_task_rows(s, ts.drop_last());
        if ts.last().status is Open {
            prefix.push(task_details_row(s, ts.last()))
        } else {
            prefix
        }
    }
}

impl Store {
    /// Create a task and one open role slot per name, all or nothing: when
    /// any id is already in use, or the creator is unknown, nothing is
    /// written and a store error is reported.
    pub fn create_task_at(
        &mut self,
        task_id: u128,
        slot_ids: &Vec<u128>,
        now: i64,
        input: &TaskInput,
    ) -> (r: Result<(), OpError>)
        requires
            old(self).wf(),
            slot_ids@.len() == input.roles@.len(),
        ensures
            final(self).wf(),
            r is Ok <==> create_ok(*old(self), task_id, slot_ids@, input.creator_id),
            r is Err ==> *final(self) == *old(self) && r == Err::<(), OpError>(OpError::Store),
            r is Ok ==> task_created(*old(self), *final(self), task_id, slot_ids@, now, *input),
    {
        if self.find_user_index(input.creator_id).is_none() {
            return Err(OpError::Store);
        }
        if self.find_task_index(task_id).is_some() {
            return Err(OpError::Store);
        }
        let mut i: usize = 0;
        while i < slot_ids.len()
            invariant
                old(self).wf(),
                *self == *old(self),
                i <= slot_ids@.len(),
                slot_ids@.len() == input.roles@.len(),
                forall|m: int| 0 <= m < i ==> !self.has_role(#[trigger] slot_ids@[m]),
                forall|m1: int, m2: int|
                    0 <= m1 < m2 < i ==> #[trigger] slot_ids@[m1] != #[trigger] slot_ids@[m2],
            decreases slot_ids@.len() - i,
        {
            if self.find_role_index(slot_ids[i]).is_some() {
                return Err(OpError::Store);
            }
            let mut j: usize = 0;
            while j < i
                invariant
                    old(self).wf(),
                    *self == *old(self),
                    j <= i < slot_ids@.len(),
                    forall|m: int| 0 <= m < j ==> #[trigger] slot_ids@[m] != slot_ids@[i as int],
                decreases i - j,
            {
                if slot_ids[j] == slot_ids[i] {
                    return Err(OpError::Store);
                }
                j = j + 1;
            }
            i = i + 1;
        }
        let ghost s0 = *self;
        let task = Task {
            id: task_id,
            title: input.title.clone(),
            description: input.description.clone(),
            creator_id: input.creator_id,
            created_at: now,
            team_size: input.team_size,
            status: TaskStatus::Open,
        };
        self.tasks.push(task);
        let mut k: usize = 0;
        while k < slot_ids.len()
            invariant
                k <= slot_ids@.len(),
                slot_ids@.len() == input.roles@.len(),
                self.roles@.len() == s0.roles@.len() + k,
                forall|m: int| 0 <= m < s0.roles@.len() ==> self.roles@[m] == s0.roles@[m],
                forall|m: int|
                    0 <= m < k ==> self.roles@[s0.roles@.len() + m] == (TaskRole {
                        id: slot_ids@[m],
                        task_id,
                        role_name: input.roles@[m],
                        user_id: None,
                    }),
                self.tasks@ == s0.tasks@.push(new_task(task_id, now, *input)),
                self.users@ == s0.users@,
                self.sub_tasks@ == s0.sub_tasks@,
                self.progress@ == s0.progress@,
                self.evaluations@ == s0.evaluations@,
                self.messages@ == s0.messages@,
            decreases slot_ids@.len() - k,
        {
            let slot = TaskRole {
                id: slot_ids[k],
                task_id,
                role_name: input.roles[k].clone(),
                user_id: None,
            };
            self.roles.push(slot);
            k = k + 1;
        }
        proof {
            let s1 = *self;
            assert(s1.roles@ =~= s0.roles@ + new_slots(task_id, slot_ids@, input.roles@));
            assert forall|x: u128| s0.has_task(x) implies s1.has_task(x) by {
                let n = choose|n: int|
                    0 <= n < s0.tasks@.len() && (#[trigger] s0.tasks@[n]).id == x;
                assert(s1.tasks@[n] == s0.tasks@[n]);
            }
            assert forall|x: u128| s0.has_user(x) implies s1.has_user(x) by {
                let n = choose|n: int|
                    0 <= n < s0.users@.len() && (#[trigger] s0.users@[n]).id == x;
                assert(s1.users@[n] == s0.users@[n]);
            }
            // key uniqueness survives the appends
            assert forall|a: int, b: int|
                0 <= a < b < s1.tasks@.len() implies (#[trigger] s1.tasks@[a]).id != (
            #[trigger] s1.tasks@[b]).id by {
                if b < s0.tasks@.len() {
                    assert(s0.tasks@[a].id != s0.tasks@[b].id);
                } else {
                    assert(!s0.has_task(task_id));
                }
            }
            assert forall|a: int, b: int|
                0 <= a < b < s1.roles@.len() implies (#[trigger] s1.roles@[a]).id != (
            #[trigger] s1.roles@[b]).id by {
                let n = s0.roles@.len() as int;
                if b < n {
                    assert(s0.roles@[a].id != s0.roles@[b].id);
                } else if a < n {
                    assert(!s0.has_role(slot_ids@[b - n]));
                } else {
                    assert(slot_ids@[a - n] != slot_ids@[b - n]);
                }
            }
            // every reference still resolves
            assert(s1.refs_ok()) by {
                assert forall|m: int| 0 <= m < s1.tasks@.len() implies s1.has_user(
                    (#[trigger] s1.tasks@[m]).creator_id,
                ) by {
                    if m < s0.tasks@.len() {
                        assert(s0.has_user(s0.tasks@[m].creator_id));
                    } else {
                        assert(s0.has_user(input.creator_id));
                    }
                }
                assert(s1.has_task(task_id)) by {
                    assert(s1.tasks@[s0.tasks@.len() as int].id == task_id);
                }
                assert forall|m: int| 0 <= m < s1.roles@.len() implies s1.has_task(
                    (#[trigger] s1.roles@[m]).task_id,
                ) && (s1.roles@[m].user_id matches Some(u) ==> s1.has_user(u)) by {
                    if m < s0.roles@.len() {
                        assert(s0.has_task(s0.roles@[m].task_id));
                        assert(s0.roles@[m].user_id matches Some(u) ==> s0.has_user(u));
                    } else {
                        let n = s0.roles@.len() as int;
                        assert(s1.roles@[m] == new_slots(task_id, slot_ids@, input.roles@)[m - n]);
                        assert(s1.roles@[m].task_id == task_id);
                        assert(s1.roles@[m].user_id is None);
                    }
                }
                assert forall|m: int| 0 <= m < s1.sub_tasks@.len() implies s1.has_task(
                    (#[trigger] s1.sub_tasks@[m]).task_id,
                ) && (s1.sub_tasks@[m].assignee_id matches Some(u) ==> s1.has_user(u)) by {
                    assert(s0.has_task(s0.sub_tasks@[m].task_id));
                    assert(s0.sub_tasks@[m].assignee_id matches Some(u) ==> s0.has_user(u));
                }
                assert forall|m: int| 0 <= m < s1.progress@.len() implies s1.has_task(
                    (#[trigger] s1.progress@[m]).task_id,
                ) by {
                    assert(s0.has_task(s0.progress@[m].task_id));
                }
                assert forall|m: int| 0 <= m < s1.evaluations@.len() implies s1.has_task(
                    (#[trigger] s1.evaluations@[m]).task_id,
                ) by {
                    assert(s0.has_task(s0.evaluations@[m].task_id));
                }
            }
        }
        Ok(())
    }

    /// Create a task with freshly drawn ids, stamped with the current time.
    /// Success reports the new task id; failure leaves the store untouched.
    pub fn create_task(&mut self, input: &TaskInput) -> (r: Result<u128, OpError>)
        requires
            old(self).wf(),
        ensures
            final(self).wf(),
            r matches Err(e) ==> *final(self) == *old(self) && e == OpError::Store,
            !old(self).has_user(input.creator_id) ==> r is Err,
            r matches Ok(id) ==> created_with_some_ids(*old(self), *final(self), id, *input),
    {
        let task_id = crate::ext::fresh_id();
        let now = crate::ext::now_micros();
        let mut slot_ids: Vec<u128> = Vec::new();
        let mut i: usize = 0;
        while i < input.roles.len()
            invariant
                old(self).wf(),
                *self == *old(self),
                slot_ids@.len() == i <= input.roles@.len(),
            decreases input.roles@.len() - i,
        {
            slot_ids.push(crate::ext::fresh_id());
            i = i + 1;
        }
        match self.create_task_at(task_id, &slot_ids, now, input) {
            Ok(()) => {
                proof {
                    let sids = slot_ids@;
                    assert(sids.len() == input.roles@.len() && create_ok(
                        *old(self),
                        task_id,
                        sids,
                        input.creator_id,
                    ) && task_created(*old(self), *self, task_id, sids, now, *input));
                    assert(created_with_some_ids(*old(self), *self, task_id, *input));
                }
                Ok(task_id)
            },
            Err(e) => Err(e),
        }
    }

    /// Replace title and description. `Updated` exactly when the task exists
    /// and at least one of the two texts differs; an unknown id or an
    /// edit that changes nothing reports `NoEffect`.
    pub fn update_task(&mut self, input: &TaskUpdateInput) -> (r: UpdateOutcome)
        requires
            old(self).wf(),
        ensures
            final(self).wf(),
            r == UpdateOutcome::Updated <==> (old(self).has_task(input.task_id) && (old(
                self,
            ).task_of(input.task_id).title@ != input.title@ || old(self).task_of(
                input.task_id,
            ).description@ != input.description@)),
            !old(self).has_task(input.task_id) ==> *final(self) == *old(self),
            old(self).has_task(input.task_id) ==> final(self).tasks@.len() == old(
                self,
            ).tasks@.len() && (forall|i: int|
                0 <= i < old(self).tasks@.len() ==> #[trigger] final(self).tasks@[i] == (
                if old(self).tasks@[i].id == input.task_id {
                    edited_task(old(self).tasks@[i], *input)
                } else {
                    old(self).tasks@[i]
                })) && final(self).users@ == old(self).users@ && final(self).roles@ == old(
                self,
            ).roles@ && final(self).sub_tasks@ == old(self).sub_tasks@ && final(self).progress@
                == old(self).progress@ && final(self).evaluations@ == old(self).evaluations@
                && final(self).messages@ == old(self).messages@,
    {
        let idx = match self.find_task_index(input.task_id) {
            Some(i) => i,
            None => {
                return UpdateOutcome::NoEffect;
            },
        };
        proof {
            crate::store::lemma_task_of_index(*self, idx as int);
        }
        let changed = !(self.tasks[idx].title == input.title) || !(self.tasks[idx].description
            == input.description);
        let updated = Task {
            id: self.tasks[idx].id,
            title: input.title.clone(),
            description: input.description.clone(),
            creator_id: self.tasks[idx].creator_id,
            created_at: self.tasks[idx].created_at,
            team_size: self.tasks[idx].team_size,
            status: self.tasks[idx].status,
        };
        self.tasks.set(idx, updated);
        proof {
            let s0 = *old(self);
            assert forall|i: int|
                0 <= i < s0.tasks@.len() implies #[trigger] self.tasks@[i] == (
            if s0.tasks@[i].id == input.task_id {
                edited_task(s0.tasks@[i], *input)
            } else {
                s0.tasks@[i]
            }) by {
                if i != idx {
                    assert(s0.tasks@[i].id != s0.tasks@[idx as int].id);
                }
            }
            lemma_wf_after_task_field_update(s0, *self);
        }
        if changed {
            UpdateOutcome::Updated
        } else {
            UpdateOutcome::NoEffect
        }
    }

    /// Set the status to finished. `Updated` exactly when the task exists
    /// and was still open; finishing a finished task, or an unknown id,
    /// reports `NoEffect`. The transition is one-way: the status afterwards
    /// is finished whenever the task exists.
    pub fn finish_task(&mut self, input: &FinishTaskInput) -> (r: UpdateOutcome)
        requires
            old(self).wf(),
        ensures
            final(self).wf(),
            r == UpdateOutcome::Updated <==> (old(self).has_task(input.task_id) && old(
                self,
            ).task_of(input.task_id).status is Open),
            !old(self).has_task(input.task_id) ==> *final(self) == *old(self),
            old(self).has_task(input.task_id) ==> finish_applied(
                *old(self),
                *final(self),
                input.task_id,
            ),
    {
        let idx = match self.find_task_index(input.task_id) {
            Some(i) => i,
            None => {
                return UpdateOutcome::NoEffect;
            },
        };
        proof {
            crate::store::lemma_task_of_index(*self, idx as int);
        }
        let was_open = match self.tasks[idx].status {
            TaskStatus::Open => true,
            TaskStatus::Finished => false,
        };
        let updated = Task {
            id: self.tasks[idx].id,
            title: self.tasks[idx].title.clone(),
            description: self.tasks[idx].description.clone(),
            creator_id: self.tasks[idx].creator_id,
            created_at: self.tasks[idx].created_at,
            team_size: self.tasks[idx].team_size,
            status: TaskStatus::Finished,
        };
        self.tasks.set(idx, updated);
        proof {
            let s0 = *old(self);
            assert forall|i: int|
                0 <= i < s0.tasks@.len() implies #[trigger] self.tasks@[i] == (
            if s0.tasks@[i].id == input.task_id {
                finished_task(s0.tasks@[i])
            } else {
                s0.tasks@[i]
            }) by {
                if i != idx {
                    assert(s0.tasks@[i].id != s0.tasks@[idx as int].id);
                }
            }
            lemma_wf_after_task_field_update(s0, *self);
        }
        if was_open {
            UpdateOutcome::Updated
        } else {
            UpdateOutcome::NoEffect
        }
    }

    /// Every open task joined with its creator's display fields, newest
    /// first by creation time.
    pub fn list_tasks(&self) -> (r: Vec<TaskDetails>)
        requires
            self.wf(),
        ensures
            r@.to_multiset() == open_task_rows(*self, self.tasks@).to_multiset(),
            forall|i: int, j: int|
                0 <= i < j < r@.len() ==> (#[trigger] r@[i]).created_at >= (
                #[trigger] r@[j]).created_at,
    {
        let mut keyed: Vec<Keyed<TaskDetails>> = Vec::new();
        let mut i: usize = 0;
        while i < self.tasks.len()
            invariant
                self.wf(),
                i <= self.tasks@.len(),
                keyed@.len() == open_task_rows(*self, self.tasks@.take(i as int)).len(),
                forall|m: int|
                    0 <= m < keyed@.len() ==> (#[trigger] keyed@[m]).item == open_task_rows(
                        *self,
                        self.tasks@.take(i as int),
                    )[m],
                forall|m: int|
                    0 <= m < keyed@.len() ==> (#[trigger] keyed@[m]).k1 == 0 && keyed@[m].k2
                        == keyed@[m].item.created_at,
            decreases self.tasks@.len() - i,
        {
            proof {
                assert(self.tasks@.take(i + 1 as int).drop_last() =~= self.tasks@.take(i as int));
                assert(self.tasks@.take(i + 1 as int).last() == self.tasks@[i as int]);
            }
            let is_open = match self.tasks[i].status {
                TaskStatus::Open => true,
                TaskStatus::Finished => false,
            };
            if is_open {
                let k = match self.find_user_index(self.tasks[i].creator_id) {
                    Some(k) => k,
                    None => {
                        proof {
                            assert(self.has_user(self.tasks@[i as int].creator_id));
                            assert(false);
                        }
                        0
                    },
                };
                proof {
                    crate::store::lemma_user_of_index(*self, k as int);
                }
                let row = TaskDetails {
                    id: self.tasks[i].id,
                    title: self.tasks[i].title.clone(),
                    description: self.tasks[i].description.clone(),
                    creator_id: self.tasks[i].creator_id,
                    created_at: self.tasks[i].created_at,
                    team_size: self.tasks[i].team_size,
                    status: self.tasks[i].status,
                    creator_name: crate::model::clone_opt_string(&self.users[k].name),
                    creator_username: self.users[k].username.clone(),
                };
                let entry = Keyed { k1: 0i64, k2: self.tasks[i].created_at, item: row };
                proof {
                    assert(entry.item == task_details_row(*self, self.tasks@[i as int]));
                }
                keyed.push(entry);
            }
            i = i + 1;
        }
        proof {
            assert(self.tasks@.take(self.tasks@.len() as int) =~= self.tasks@);
        }
        let ghost built = keyed@;
        let ghost rows = open_task_rows(*self, self.tasks@);
        let mut keyed = keyed;
        sort_keyed(&mut keyed);
        let ghost sorted = keyed@;
        let out = strip_keys(keyed);
        proof {
            let itemf = |k: Keyed<TaskDetails>| k.item;
            assert(built.map_values(itemf) =~= rows);
            lemma_map_values_multiset(sorted, built, itemf);
            assert(out@ =~= sorted.map_values(itemf));
            assert(out@.to_multiset() == rows.to_multiset());
            lemma_same_contents_pointwise(
                built,
                sorted,
                |k: Keyed<TaskDetails>| k.k1 == 0 && k.k2 == k.item.created_at,
            );
            assert forall|i2: int, j2: int|
                0 <= i2 < j2 < out@.len() implies (#[trigger] out@[i2]).created_at >= (
            #[trigger] out@[j2]).created_at by {
                assert(crate::order::key_le(sorted[i2], sorted[j2]));
                assert(sorted[i2].k1 == 0 && sorted[j2].k1 == 0);
                assert(out@[i2] == sorted[i2].item && out@[j2] == sorted[j2].item);
            }
        }
        out
    }
}

/// Editing text or status of task rows — ids, creators, and the other
/// tables untouched — keeps the store well-formed.
proof fn lemma_wf_after_task_field_update(s0: Store, s1: Store)
    requires
        s0.wf(),
        s1.tasks@.len() == s0.tasks@.len(),
        forall|i: int|
            0 <= i < s0.tasks@.len() ==> (#[trigger] s1.tasks@[i]).id == s0.tasks@[i].id
                && s1.tasks@[i].creator_id == s0.tasks@[i].creator_id,
        s1.users@ == s0.users@,
        s1.roles@ == s0.roles@,
        s1.sub_tasks@ == s0.sub_tasks@,
        s1.progress@ == s0.progress@,
        s1.evaluations@ == s0.evaluations@,
        s1.messages@ == s0.messages@,
    ensures
        s1.wf(),
{
    assert forall|i: int, j: int|
        0 <= i < j < s1.tasks@.len() implies (#[trigger] s1.tasks@[i]).id != (
    #[trigger] s1.tasks@[j]).id by {
        assert(s0.tasks@[i].id != s0.tasks@[j].id);
    }
    assert forall|x: u128| s0.has_task(x) implies s1.has_task(x) by {
        let n = choose|n: int| 0 <= n < s0.tasks@.len() && (#[trigger] s0.tasks@[n]).id == x;
        assert(s1.tasks@[n].id == x);
    }
    assert(s1.refs_ok()) by {
        assert forall|i: int| 0 <= i < s1.tasks@.len() implies s1.has_user(
            (#[trigger] s1.tasks@[i]).creator_id,
        ) by {
            assert(s0.has_user(s0.tasks@[i].creator_id));
        }
        assert forall|i: int| 0 <= i < s1.roles@.len() implies s1.has_task(
            (#[trigger] s1.roles@[i]).task_id,
        ) && (s1.roles@[i].user_id matches Some(u) ==> s1.has_user(u)) by {
            assert(s0.has_task(s0.roles@[i].task_id));
            assert(s0.roles@[i].user_id matches Some(u) ==> s0.has_user(u));
        }
        assert forall|i: int| 0 <= i < s1.sub_tasks@.len() implies s1.has_task(
            (#[trigger] s1.sub_tasks@[i]).task_id,
        ) && (s1.sub_tasks@[i].assignee_id matches Some(u) ==> s1.has_user(u)) by {
            assert(s0.has_task(s0.sub_tasks@[i].task_id));
            assert(s0.sub_tasks@[i].assignee_id matches Some(u) ==> s0.has_user(u));
        }
        assert forall|i: int| 0 <= i < s1.progress@.len() implies s1.has_task(
            (#[trigger] s1.progress@[i]).task_id,
        ) by {
            assert(s0.has_task(s0.progress@[i].task_id));
        }
        assert forall|i: int| 0 <= i < s1.evaluations@.len() implies s1.has_task(
            (#[trigger] s1.evaluations@[i]).task_id,
        ) by {
            assert(s0.has_task(s0.evaluations@[i].task_id));
        }
    }
}

} // verus!
