//! Read-side projections across tables: the roles a user has claimed, and
//! the tasks a user has published with their full rosters. Both group open
//! tasks strictly before finished ones.

use vstd::prelude::*;

use crate::model::{MemberRole, MyRole, TaskRole, TaskStatus, TaskWithMembers};
use crate::order::{
    key_le, lemma_map_values_multiset, lemma_same_contents_pointwise, sort_keyed, strip_keys,
    Keyed,
};
use crate::store::Store;

verus! {

/// Open tasks sort strictly before finished ones.
pub open spec fn status_rank(st: TaskStatus) -> i64 {
    match st {
        TaskStatus::Open => 0,
        TaskStatus::Finished => 1,
    }
}

/// One claimed slot joined with its task's display fields.
pub open spec fn my_role_row(s: Store, r: TaskRole) -> MyRole {
    let t = s.task_of(r.task_id);
    MyRole {
        task_id: r.task_id,
        title: t.title,
        description: t.description,
        role_name: r.role_name,
        status: t.status,
    }
}

/// The slots a user has claimed, joined with their tasks, in table order.
pub open spec fn my_role_rows(s: Store, rs: Seq<TaskRole>, user_id: u128) -> Seq<MyRole>
    decreases rs.len(),
{
    if rs.len() == 0 {
        Seq::empty()
    } else {
        let prefix = my_role_rows(s, rs.drop_last(), user_id);
        if rs.last().user_id == Some(user_id) {
            prefix.push(my_role_row(s, rs.last()))
        } else {
            prefix
        }
    }
}

/// The slots that belong to one task, in table order.
pub open spec fn slots_of_task(rs: Seq<TaskRole>, task_id: u128) -> Seq<TaskRole>
    decreases rs.len(),
{
    if rs.len() == 0 {
        Seq::empty()
    } else {
        let prefix = slots_of_task(rs.drop_last(), task_id);
        if rs.last().task_id == task_id {
            prefix.push(rs.last())
        } else {
            prefix
        }
    }
}

/// How one roster entry renders one slot: the claimant's profile when the
/// slot is filled, empty display fields when it is not.
pub open spec fn is_member_row(s: Store, r: TaskRole, m: MemberRole) -> bool {
    &&& m.role_name == r.role_name
    &&& match r.user_id {
        Some(u) => {
            let usr = s.user_of(u);
            &&& m.username == usr.username
            &&& (match usr.name {
                Some(n) => m.name == n,
                None => m.name@ == Seq::<char>::empty(),
            })
            &&& m.phone == usr.phone
            &&& m.student_id == usr.student_id
            &&& m.email == usr.email
        },
        None => {
            &&& m.username@ == Seq::<char>::empty()
            &&& m.name@ == Seq::<char>::empty()
            &&& m.phone is None
            &&& m.student_id is None
            &&& m.email is None
        },
    }
}

/// A roster renders exactly the task's slots, in table order.
pub open spec fn members_match(s: Store, task_id: u128, ms: Seq<MemberRole>) -> bool {
    &&& ms.len() == slots_of_task(s.roles@, task_id).len()
    &&& forall|k: int|
        0 <= k < ms.len() ==> is_member_row(
            s,
            slots_of_task(s.roles@, task_id)[k],
            #[trigger] ms[k],
        )
}

/// The ids of the tasks one user created, in table order.
pub open spec fn my_task_ids(ts: Seq<crate::model::Task>, user_id: u128) -> Seq<u128>
    decreases ts.len(),
{
    if ts.len() == 0 {
        Seq::empty()
    } else {
        let prefix = my_task_ids(ts.drop_last(), user_id);
        if ts.last().creator_id == user_id {
            prefix.push(ts.last().id)
        } else {
            prefix
        }
    }
}

impl Store {
    /// Every slot the user has claimed, joined with its task: open tasks
    /// strictly before finished ones, newest task first within a group.
    pub fn get_my_roles(&self, user_id: u128) -> (r: Vec<MyRole>)
        requires
            self.wf(),
        ensures
            r@.to_multiset() == my_role_rows(*self, self.roles@, user_id).to_multiset(),
            forall|m: int|
                0 <= m < r@.len() ==> self.has_task((#[trigger] r@[m]).task_id) && r@[m].status
                    == self.task_of(r@[m].task_id).status,
            forall|i: int, j: int|
                0 <= i < j < r@.len() ==> status_rank((#[trigger] r@[i]).status) <= status_rank(
                    (#[trigger] r@[j]).status,
                ),
            forall|i: int, j: int|
                0 <= i < j < r@.len() && (#[trigger] r@[i]).status == (#[trigger] r@[j]).status
                    ==> self.task_of(r@[i].task_id).created_at >= self.task_of(
                    r@[j].task_id,
                ).created_at,
    {
        let mut keyed: Vec<Keyed<MyRole>> = Vec::new();
        let mut i: usize = 0;
        while i < self.roles.len()
            invariant
                self.wf(),
                i <= self.roles@.len(),
                keyed@.len() == my_role_rows(*self, self.roles@.take(i as int), user_id).len(),
                forall|m: int|
                    0 <= m < keyed@.len() ==> (#[trigger] keyed@[m]).item == my_role_rows(
                        *self,
                        self.roles@.take(i as int),
                        user_id,
                    )[m],
                forall|m: int|
                    0 <= m < keyed@.len() ==> self.has_task((#[trigger] keyed@[m]).item.task_id)
                        && keyed@[m].item.status == self.task_of(keyed@[m].item.task_id).status
                        && keyed@[m].k1 == status_rank(keyed@[m].item.status) && keyed@[m].k2
                        == self.task_of(keyed@[m].item.task_id).created_at,
            decreases self.roles@.len() - i,
        {
            proof {
                assert(self.roles@.take(i + 1 as int).drop_last() =~= self.roles@.take(i as int));
                assert(self.roles@.take(i + 1 as int).last() == self.roles@[i as int]);
            }
            let held = match self.roles[i].user_id {
                Some(u) => u == user_id,
                None => false,
            };
            if held {
                proof {
                    assert(self.has_task(self.roles@[i as int].task_id));
                }
                let k = match self.find_task_index(self.roles[i].task_id) {
                    Some(k) => k,
                    None => {
                        proof {
                            assert(false);
                        }
                        0
                    },
                };
                proof {
                    crate::store::lemma_task_of_index(*self, k as int);
                }
                let rank: i64 = match self.tasks[k].status {
                    TaskStatus::Open => 0,
                    TaskStatus::Finished => 1,
                };
                let row = MyRole {
                    task_id: self.roles[i].task_id,
                    title: self.tasks[k].title.clone(),
                    description: self.tasks[k].description.clone(),
                    role_name: self.roles[i].role_name.clone(),
                    status: self.tasks[k].status,
                };
                proof {
                    assert(row == my_role_row(*self, self.roles@[i as int]));
                }
                keyed.push(Keyed { k1: rank, k2: self.tasks[k].created_at, item: row });
            }
            i = i + 1;
        }
        proof {
            assert(self.roles@.take(self.roles@.len() as int) =~= self.roles@);
        }
        let ghost built = keyed@;
        let ghost rows = my_role_rows(*self, self.roles@, user_id);
        let mut keyed = keyed;
        sort_keyed(&mut keyed);
        let ghost sorted = keyed@;
        let out = strip_keys(keyed);
        proof {
            let itemf = |k: Keyed<MyRole>| k.item;
            assert(built.map_values(itemf) =~= rows);
            lemma_map_values_multiset(sorted, built, itemf);
            assert(out@ =~= sorted.map_values(itemf));
            assert(out@.to_multiset() == rows.to_multiset());
            lemma_same_contents_pointwise(
                built,
                sorted,
                |k: Keyed<MyRole>| self.has_task(k.item.task_id) && k.item.status == self.task_of(
                    k.item.task_id,
                ).status && k.k1 == status_rank(k.item.status) && k.k2 == self.task_of(
                    k.item.task_id,
                ).created_at,
            );
            assert forall|i2: int, j2: int|
                0 <= i2 < j2 < out@.len() implies status_rank((#[trigger] out@[i2]).status)
                <= status_rank((#[trigger] out@[j2]).status) && ((out@[i2]).status
                == (out@[j2]).status ==> self.task_of(out@[i2].task_id).created_at >= self.task_of(
                out@[j2].task_id,
            ).created_at) by {
                assert(key_le(sorted[i2], sorted[j2]));
                assert(out@[i2] == sorted[i2].item && out@[j2] == sorted[j2].item);
            }
        }
        out
    }

    /// The roster of one task: one entry per slot, in table order, the
    /// claimant's profile where the slot is filled and empty display fields
    /// where it is not.
    fn build_members(&self, task_id: u128) -> (r: Vec<MemberRole>)
        requires
            self.wf(),
        ensures
            members_match(*self, task_id, r@),
    {
        let mut out: Vec<MemberRole> = Vec::new();
        let mut i: usize = 0;
        while i < self.roles.len()
            invariant
                self.wf(),
                i <= self.roles@.len(),
                out@.len() == slots_of_task(self.roles@.take(i as int), task_id).len(),
                forall|m: int|
                    0 <= m < out@.len() ==> is_member_row(
                        *self,
                        slots_of_task(self.roles@.take(i as int), task_id)[m],
                        #[trigger] out@[m],
                    ),
            decreases self.roles@.len() - i,
        {
            proof {
                assert(self.roles@.take(i + 1 as int).drop_last() =~= self.roles@.take(i as int));
                assert(self.roles@.take(i + 1 as int).last() == self.roles@[i as int]);
            }
            if self.roles[i].task_id == task_id {
                let row = match self.roles[i].user_id {
                    Some(u) => {
                        proof {
                            assert(self.roles@[i as int].user_id matches Some(x) ==> self.has_user(
                                x,
                            ));
                        }
                        let k = match self.find_user_index(u) {
                            Some(k) => k,
                            None => {
                                proof {
                                    assert(false);
                                }
                                0
                            },
                        };
                        proof {
                            crate::store::lemma_user_of_index(*self, k as int);
                        }
                        let name = match &self.users[k].name {
                            Some(n) => n.clone(),
                            None => String::new(),
                        };
                        MemberRole {
                            name,
                            username: self.users[k].username.clone(),
                            role_name: self.roles[i].role_name.clone(),
                            phone: crate::model::clone_opt_string(&self.users[k].phone),
                            student_id: crate::model::clone_opt_string(&self.users[k].student_id),
                            email: crate::model::clone_opt_string(&self.users[k].email),
                        }
                    },
                    None => MemberRole {
                        name: String::new(),
                        username: String::new(),
                        role_name: self.roles[i].role_name.clone(),
                        phone: None,
                        student_id: None,
                        email: None,
                    },
                };
                proof {
                    assert(is_member_row(*self, self.roles@[i as int], row));
                }
                out.push(row);
            }
            i = i + 1;
        }
        proof {
            assert(self.roles@.take(self.roles@.len() as int) =~= self.roles@);
        }
        out
    }

    /// Every task the user created, each carrying its full roster, open
    /// tasks strictly before finished ones.
    pub fn get_my_published_tasks(&self, user_id: u128) -> (r: Vec<TaskWithMembers>)
        requires
            self.wf(),
        ensures
            r@.map_values(|t: TaskWithMembers| t.id).to_multiset() == my_task_ids(
                self.tasks@,
                user_id,
            ).to_multiset(),
            forall|m: int|
                0 <= m < r@.len() ==> {
                    let t = #[trigger] r@[m];
                    &&& self.has_task(t.id)
                    &&& self.task_of(t.id).creator_id == user_id
                    &&& t.title == self.task_of(t.id).title
                    &&& t.status == self.task_of(t.id).status
                    &&& members_match(*self, t.id, t.members@)
                },
            forall|i: int, j: int|
                0 <= i < j < r@.len() ==> status_rank((#[trigger] r@[i]).status) <= status_rank(
                    (#[trigger] r@[j]).status,
                ),
    {
        let mut keyed: Vec<Keyed<TaskWithMembers>> = Vec::new();
        let mut i: usize = 0;
        while i < self.tasks.len()
            invariant
                self.wf(),
                i <= self.tasks@.len(),
                keyed@.len() == my_task_ids(self.tasks@.take(i as int), user_id).len(),
                forall|m: int|
                    0 <= m < keyed@.len() ==> (#[trigger] keyed@[m]).item.id == my_task_ids(
                        self.tasks@.take(i as int),
                        user_id,
                    )[m],
                forall|m: int|
                    0 <= m < keyed@.len() ==> {
                        let t = (#[trigger] keyed@[m]).item;
                        &&& self.has_task(t.id)
                        &&& self.task_of(t.id).creator_id == user_id
                        &&& t.title == self.task_of(t.id).title
                        &&& t.status == self.task_of(t.id).status
                        &&& members_match(*self, t.id, t.members@)
                        &&& keyed@[m].k1 == status_rank(t.status)
                        &&& keyed@[m].k2 == 0
                    },
            decreases self.tasks@.len() - i,
        {
            proof {
                assert(self.tasks@.take(i + 1 as int).drop_last() =~= self.tasks@.take(i as int));
                assert(self.tasks@.take(i + 1 as int).last() == self.tasks@[i as int]);
            }
            if self.tasks[i].creator_id == user_id {
                let members = self.build_members(self.tasks[i].id);
                let rank: i64 = match self.tasks[i].status {
                    TaskStatus::Open => 0,
                    TaskStatus::Finished => 1,
                };
                let row = TaskWithMembers {
                    id: self.tasks[i].id,
                    title: self.tasks[i].title.clone(),
                    status: self.tasks[i].status,
                    members,
                };
                proof {
                    crate::store::lemma_task_of_index(*self, i as int);
                }
                keyed.push(Keyed { k1: rank, k2: 0i64, item: row });
            }
            i = i + 1;
        }
        proof {
            assert(self.tasks@.take(self.tasks@.len() as int) =~= self.tasks@);
        }
        let ghost built = keyed@;
        let ghost ids = my_task_ids(self.tasks@, user_id);
        let mut keyed = keyed;
        sort_keyed(&mut keyed);
        let ghost sorted = keyed@;
        let out = strip_keys(keyed);
        proof {
            let idf = |k: Keyed<TaskWithMembers>| k.item.id;
            let itemf = |k: Keyed<TaskWithMembers>| k.item;
            assert(built.map_values(idf) =~= ids);
            lemma_map_values_multiset(sorted, built, idf);
            assert(out@ =~= sorted.map_values(itemf));
            assert(out@.map_values(|t: TaskWithMembers| t.id) =~= sorted.map_values(idf));
            assert(out@.map_values(|t: TaskWithMembers| t.id).to_multiset() == ids.to_multiset());
            lemma_same_contents_pointwise(
                built,
                sorted,
                |k: Keyed<TaskWithMembers>| {
                    &&& self.has_task(k.item.id)
                    &&& self.task_of(k.item.id).creator_id == user_id
                    &&& k.item.title == self.task_of(k.item.id).title
                    &&& k.item.status == self.task_of(k.item.id).status
                    &&& members_match(*self, k.item.id, k.item.members@)
                    &&& k.k1 == status_rank(k.item.status)
                },
            );
            assert forall|i2: int, j2: int|
                0 <= i2 < j2 < out@.len() implies status_rank((#[trigger] out@[i2]).status)
                <= status_rank((#[trigger] out@[j2]).status) by {
                assert(key_le(sorted[i2], sorted[j2]));
                assert(out@[i2] == sorted[i2].item && out@[j2] == sorted[j2].item);
            }
        }
        out
    }
}

} // verus!
