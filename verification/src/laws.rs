//! The engine's cross-operation guarantees, stated and proved over the
//! transition relations that the operations' contracts use.

use vstd::prelude::*;

use crate::model::MyRole;
use crate::roles::{claim_applied, claim_ok, release_applied};
use crate::store::Store;
use crate::tasks::{finish_applied, finished_task};
use crate::views::status_rank;

verus! {

/// At most one claimant: once a claim of a slot has gone through, the slot
/// holds the winner, and no further claim of that slot can succeed — by
/// `claim_role`'s contract every later attempt reports a conflict and
/// changes nothing — until the slot is released.
pub proof fn lemma_at_most_one_claimant(s0: Store, s1: Store, role_id: u128, u1: u128, u2: u128)
    requires
        s0.wf(),
        claim_ok(s0, role_id, u1),
        claim_applied(s0, s1, role_id, u1),
    ensures
        s1.has_role(role_id),
        s1.role_of(role_id).user_id == Some(u1),
        !claim_ok(s1, role_id, u2),
{
    let i = choose|i: int|
        0 <= i < s0.roles@.len() && (#[trigger] s0.roles@[i]).id == role_id && s0.roles@[i].user_id
            is None;
    assert(s1.roles@[i].id == role_id);
    assert(s1.has_role(role_id));
    assert(s1.roles@[i].user_id == Some(u1));
    assert forall|j: int|
        0 <= j < s1.roles@.len() && (#[trigger] s1.roles@[j]).id == role_id implies j == i by {
        assert(s1.roles@[j] == (if s0.roles@[j].id == role_id {
            crate::roles::claimed_slot(s0.roles@[j], u1)
        } else {
            s0.roles@[j]
        }));
        if j != i {
            assert(s0.roles@[j].id != s0.roles@[i].id);
        }
    }
    let k = choose|k: int| 0 <= k < s1.roles@.len() && (#[trigger] s1.roles@[k]).id == role_id;
    assert(k == i);
    assert(s1.role_of(role_id).user_id == Some(u1));
    assert(!claim_ok(s1, role_id, u2)) by {
        if claim_ok(s1, role_id, u2) {
            let m = choose|m: int|
                0 <= m < s1.roles@.len() && (#[trigger] s1.roles@[m]).id == role_id
                    && s1.roles@[m].user_id is None;
            assert(m == i);
        }
    }
}

/// One serialized run of claim attempts on one slot: step `k` either
/// succeeds and applies the claim, or loses and changes nothing — exactly
/// what `claim_role`'s contract leaves possible.
pub open spec fn claim_run(
    states: Seq<Store>,
    role_id: u128,
    users: Seq<u128>,
    won: Seq<bool>,
) -> bool {
    &&& states.len() == users.len() + 1
    &&& won.len() == users.len()
    &&& forall|k: int|
        0 <= k < users.len() ==> #[trigger] won[k] == claim_ok(states[k], role_id, users[k])
    &&& forall|k: int|
        0 <= k < users.len() ==> if #[trigger] won[k] {
            claim_applied(states[k], states[k + 1], role_id, users[k])
        } else {
            states[k + 1] == states[k]
        }
}

/// After a win nothing moves: every state from the winning step on is the
/// state the winner left behind.
proof fn lemma_claim_run_stuck(
    states: Seq<Store>,
    role_id: u128,
    users: Seq<u128>,
    won: Seq<bool>,
    k: int,
)
    requires
        claim_run(states, role_id, users, won),
        forall|u: u128| !claim_ok(states[1], role_id, u),
        1 <= k < states.len(),
    ensures
        states[k] == states[1],
    decreases k,
{
    if k > 1 {
        lemma_claim_run_stuck(states, role_id, users, won, k - 1);
        assert(!won[k - 1]);
        assert(states[k] == states[k - 1]);
    }
}

/// Exactly one claimant out of any number of attempts: when a run of claim
/// attempts by existing users starts on an open slot, the first attempt
/// succeeds, every other attempt reports a conflict, and the slot ends up
/// held by the winner.
pub proof fn lemma_exactly_one_winner(
    states: Seq<Store>,
    role_id: u128,
    users: Seq<u128>,
    won: Seq<bool>,
)
    requires
        claim_run(states, role_id, users, won),
        users.len() >= 1,
        states[0].wf(),
        exists|i: int|
            0 <= i < states[0].roles@.len() && (#[trigger] states[0].roles@[i]).id == role_id
                && states[0].roles@[i].user_id is None,
        forall|k: int| 0 <= k < users.len() ==> states[0].has_user(#[trigger] users[k]),
    ensures
        won[0],
        forall|k: int| 1 <= k < won.len() ==> !(#[trigger] won[k]),
        states.last().has_role(role_id),
        states.last().role_of(role_id).user_id == Some(users[0]),
{
    assert(claim_ok(states[0], role_id, users[0]));
    assert(won[0]);
    assert(claim_applied(states[0], states[1], role_id, users[0]));
    assert forall|u: u128| !claim_ok(states[1], role_id, u) by {
        lemma_at_most_one_claimant(states[0], states[1], role_id, users[0], u);
    }
    assert forall|k: int| 1 <= k < won.len() implies !(#[trigger] won[k]) by {
        lemma_claim_run_stuck(states, role_id, users, won, k);
        assert(won[k] == claim_ok(states[k], role_id, users[k]));
    }
    lemma_claim_run_stuck(states, role_id, users, won, states.len() - 1);
    lemma_at_most_one_claimant(states[0], states[1], role_id, users[0], users[0]);
    assert(states.last() == states[1]);
}

/// Release cascade completeness: after the cascade for user `u` on task
/// `t`, no slot of `t` is held by `u` and no sub-task of `t` is assigned to
/// `u`; every other row is exactly what it was.
pub proof fn lemma_release_cascade_complete(s0: Store, s1: Store, t: u128, u: u128)
    requires
        release_applied(s0, s1, t, u),
    ensures
        forall|i: int|
            0 <= i < s1.roles@.len() && (#[trigger] s1.roles@[i]).task_id == t
                ==> s1.roles@[i].user_id != Some(u),
        forall|i: int|
            0 <= i < s1.sub_tasks@.len() && (#[trigger] s1.sub_tasks@[i]).task_id == t
                ==> s1.sub_tasks@[i].assignee_id != Some(u),
        forall|i: int|
            0 <= i < s1.roles@.len() && ((#[trigger] s1.roles@[i]).task_id != t
                || s0.roles@[i].user_id != Some(u)) ==> s1.roles@[i] == s0.roles@[i],
        forall|i: int|
            0 <= i < s1.sub_tasks@.len() && ((#[trigger] s1.sub_tasks@[i]).task_id != t
                || s0.sub_tasks@[i].assignee_id != Some(u)) ==> s1.sub_tasks@[i]
                == s0.sub_tasks@[i],
{
    assert forall|i: int|
        0 <= i < s1.roles@.len() && (#[trigger] s1.roles@[i]).task_id == t implies s1.roles@[i].user_id
        != Some(u) by {
        assert(s1.roles@[i] == crate::roles::released_role(s0.roles@[i], t, u));
    }
    assert forall|i: int|
        0 <= i < s1.sub_tasks@.len() && (#[trigger] s1.sub_tasks@[i]).task_id
            == t implies s1.sub_tasks@[i].assignee_id != Some(u) by {
        assert(s1.sub_tasks@[i] == crate::roles::released_sub_task(s0.sub_tasks@[i], t, u));
    }
}

/// Idempotent finish: after one finish of an existing task its status is
/// finished; a second finish changes no row — and by `finish_task`'s
/// contract it reports no-effect, not an error.
pub proof fn lemma_finish_idempotent(s0: Store, s1: Store, task_id: u128)
    requires
        s0.wf(),
        s0.has_task(task_id),
        finish_applied(s0, s1, task_id),
    ensures
        s1.has_task(task_id),
        s1.task_of(task_id).status is Finished,
        forall|s2: Store| finish_applied(s1, s2, task_id) ==> s2.tasks@ == s1.tasks@,
{
    let i = choose|i: int| 0 <= i < s0.tasks@.len() && (#[trigger] s0.tasks@[i]).id == task_id;
    assert(s1.tasks@[i] == finished_task(s0.tasks@[i]));
    assert(s1.tasks@[i].id == task_id);
    assert(s1.has_task(task_id));
    assert forall|j: int|
        0 <= j < s1.tasks@.len() && (#[trigger] s1.tasks@[j]).id == task_id implies j == i by {
        if j != i {
            assert(s1.tasks@[j] == (if s0.tasks@[j].id == task_id {
                finished_task(s0.tasks@[j])
            } else {
                s0.tasks@[j]
            }));
            assert(s0.tasks@[j].id != s0.tasks@[i].id);
        }
    }
    let k = choose|k: int| 0 <= k < s1.tasks@.len() && (#[trigger] s1.tasks@[k]).id == task_id;
    assert(k == i);
    assert(s1.task_of(task_id).status is Finished);
    assert forall|s2: Store| finish_applied(s1, s2, task_id) implies s2.tasks@ == s1.tasks@ by {
        assert forall|m: int| 0 <= m < s1.tasks@.len() implies s2.tasks@[m] == s1.tasks@[m] by {
            if s1.tasks@[m].id == task_id {
                assert(m == i);
                assert(s2.tasks@[m] == finished_task(s1.tasks@[m]));
                assert(s1.tasks@[m].status is Finished);
            }
        }
        assert(s2.tasks@ =~= s1.tasks@);
    }
}

/// Open before finished: a listing whose status ranks are non-decreasing
/// never shows a finished task's entry before an open task's entry.
pub proof fn lemma_open_before_finished(r: Seq<MyRole>)
    requires
        forall|i: int, j: int|
            0 <= i < j < r.len() ==> status_rank((#[trigger] r[i]).status) <= status_rank(
                (#[trigger] r[j]).status,
            ),
    ensures
        forall|i: int, j: int|
            0 <= i < j < r.len() ==> !((#[trigger] r[i]).status is Finished && (
            #[trigger] r[j]).status is Open),
{
    assert forall|i: int, j: int|
        0 <= i < j < r.len() implies !((#[trigger] r[i]).status is Finished && (
    #[trigger] r[j]).status is Open) by {
        if r[i].status is Finished && r[j].status is Open {
            assert(status_rank(r[i].status) == 1 && status_rank(r[j].status) == 0);
        }
    }
}

} // verus!
