//! Append-only logs: progress entries and evaluations per task, and the
//! global message board. Entries are never edited or deleted; the numeric
//! fields (percent, rate) are recorded as handed in, unvalidated.

use vstd::prelude::*;

use crate::model::{Evaluation, EvaluationInput, Message, MessageInput, OpError, Progress, ProgressInput};
use crate::order::{
    lemma_map_values_multiset, lemma_same_contents_pointwise, sort_keyed, strip_keys, Keyed,
};
use crate::store::Store;

verus! {

pub open spec fn new_progress(id: u128, now: i64, input: ProgressInput) -> Progress {
    Progress {
        id,
        task_id: input.task_id,
        content: input.content,
        percent: input.percent,
        created_at: now,
    }
}

/// Effect of a successful progress append at a given clock value.
pub open spec fn progress_added_at(
    s0: Store,
    s1: Store,
    id: u128,
    now: i64,
    input: ProgressInput,
) -> bool {
    &&& s1.progress@ == s0.progress@.push(new_progress(id, now, input))
    &&& s1.users@ == s0.users@
    &&& s1.tasks@ == s0.tasks@
    &&& s1.roles@ == s0.roles@
    &&& s1.sub_tasks@ == s0.sub_tasks@
    &&& s1.evaluations@ == s0.evaluations@
    &&& s1.messages@ == s0.messages@
}

/// A progress append that went through at some clock value.
pub open spec fn progress_added(s0: Store, s1: Store, id: u128, input: ProgressInput) -> bool {
    exists|now: i64| progress_added_at(s0, s1, id, now, input)
}

pub open spec fn new_evaluation(id: u128, now: i64, input: EvaluationInput) -> Evaluation {
    Evaluation {
        id,
        task_id: input.task_id,
        username: input.username,
        content: input.content,
        rate: input.rate,
        created_at: now,
    }
}

/// Effect of a successful evaluation append at a given clock value.
pub open spec fn evaluation_added_at(
    s0: Store,
    s1: Store,
    id: u128,
    now: i64,
    input: EvaluationInput,
) -> bool {
    &&& s1.evaluations@ == s0.evaluations@.push(new_evaluation(id, now, input))
    &&& s1.users@ == s0.users@
    &&& s1.tasks@ == s0.tasks@
    &&& s1.roles@ == s0.roles@
    &&& s1.sub_tasks@ == s0.sub_tasks@
    &&& s1.progress@ == s0.progress@
    &&& s1.messages@ == s0.messages@
}

/// An evaluation append that went through at some clock value.
pub open spec fn evaluation_added(s0: Store, s1: Store, id: u128, input: EvaluationInput) -> bool {
    exists|now: i64| evaluation_added_at(s0, s1, id, now, input)
}

pub open spec fn new_message(id: u128, now: i64, input: MessageInput) -> Message {
    Message { id, username: input.username, content: input.content, created_at: now }
}

/// Effect of a successful message append at a given clock value.
pub open spec fn message_added_at(
    s0: Store,
    s1: Store,
    id: u128,
    now: i64,
    input: MessageInput,
) -> bool {
    &&& s1.messages@ == s0.messages@.push(new_message(id, now, input))
    &&& s1.users@ == s0.users@
    &&& s1.tasks@ == s0.tasks@
    &&& s1.roles@ == s0.roles@
    &&& s1.sub_tasks@ == s0.sub_tasks@
    &&& s1.progress@ == s0.progress@
    &&& s1.evaluations@ == s0.evaluations@
}

/// A message append that went through at some clock value.
pub open spec fn message_added(s0: Store, s1: Store, id: u128, input: MessageInput) -> bool {
    exists|now: i64| message_added_at(s0, s1, id, now, input)
}

/// The progress entries of one task, in table order.
pub open spec fn progress_of_task(ps: Seq<Progress>, task_id: u128) -> Seq<Progress>
    decreases ps.len(),
{
    if ps.len() == 0 {
        Seq::empty()
    } else {
        let prefix = progress_of_task(ps.drop_last(), task_id);
        if ps.last().task_id == task_id {
            prefix.push(ps.last())
        } else {
            prefix
        }
    }
}

/// The evaluations of one task, in table order.
pub open spec fn evaluations_of_task(es: Seq<Evaluation>, task_id: u128) -> Seq<Evaluation>
    decreases es.len(),
{
    if es.len() == 0 {
        Seq::empty()
    } else {
        let prefix = evaluations_of_task(es.drop_last(), task_id);
        if es.last().task_id == task_id {
            prefix.push(es.last())
        } else {
            prefix
        }
    }
}

impl Store {
    /// Append a progress entry. The write lands exactly when the task
    /// exists and the id is new.
    pub fn add_progress_at(&mut self, id: u128, now: i64, input: &ProgressInput) -> (r: Result<
        (),
        OpError,
    >)
        requires
            old(self).wf(),
        ensures
            final(self).wf(),
            r is Ok <==> old(self).has_task(input.task_id) && !old(self).has_progress(id),
            r is Err ==> *final(self) == *old(self) && r == Err::<(), OpError>(OpError::Store),
            r is Ok ==> progress_added_at(*old(self), *final(self), id, now, *input),
    {
        if self.find_task_index(input.task_id).is_none() {
            return Err(OpError::Store);
        }
        let mut i: usize = 0;
        while i < self.progress.len()
            invariant
                old(self).wf(),
                *self == *old(self),
                i <= self.progress@.len(),
                forall|j: int| 0 <= j < i ==> (#[trigger] self.progress@[j]).id != id,
            decreases self.progress@.len() - i,
        {
            if self.progress[i].id == id {
                return Err(OpError::Store);
            }
            i = i + 1;
        }
        let ghost s0 = *self;
        let row = Progress {
            id,
            task_id: input.task_id,
            content: input.content.clone(),
            percent: input.percent,
            created_at: now,
        };
        self.progress.push(row);
        proof {
            assert(self.progress@.take(s0.progress@.len() as int) =~= s0.progress@);
            lemma_wf_after_log_append(s0, *self);
        }
        Ok(())
    }

    /// Append a progress entry under a freshly drawn id, stamped with the
    /// current time. An unknown task is always refused.
    pub fn add_progress(&mut self, input: &ProgressInput) -> (r: Result<u128, OpError>)
        requires
            old(self).wf(),
        ensures
            final(self).wf(),
            r matches Err(e) ==> *final(self) == *old(self) && e == OpError::Store,
            !old(self).has_task(input.task_id) ==> r is Err,
            r matches Ok(id) ==> old(self).has_task(input.task_id) && progress_added(
                *old(self),
                *final(self),
                id,
                *input,
            ),
    {
        let id = crate::ext::fresh_id();
        let now = crate::ext::now_micros();
        match self.add_progress_at(id, now, input) {
            Ok(()) => {
                proof {
                    assert(progress_added(*old(self), *self, id, *input));
                }
                Ok(id)
            },
            Err(e) => Err(e),
        }
    }

    /// Append an evaluation. The write lands exactly when the task exists
    /// and the id is new.
    pub fn add_evaluation_at(&mut self, id: u128, now: i64, input: &EvaluationInput) -> (r: Result<
        (),
        OpError,
    >)
        requires
            old(self).wf(),
        ensures
            final(self).wf(),
            r is Ok <==> old(self).has_task(input.task_id) && !old(self).has_evaluation(id),
            r is Err ==> *final(self) == *old(self) && r == Err::<(), OpError>(OpError::Store),
            r is Ok ==> evaluation_added_at(*old(self), *final(self), id, now, *input),
    {
        if self.find_task_index(input.task_id).is_none() {
            return Err(OpError::Store);
        }
        let mut i: usize = 0;
        while i < self.evaluations.len()
            invariant
                old(self).wf(),
                *self == *old(self),
                i <= self.evaluations@.len(),
                forall|j: int| 0 <= j < i ==> (#[trigger] self.evaluations@[j]).id != id,
            decreases self.evaluations@.len() - i,
        {
            if self.evaluations[i].id == id {
                return Err(OpError::Store);
            }
            i = i + 1;
        }
        let ghost s0 = *self;
        let row = Evaluation {
            id,
            task_id: input.task_id,
            username: input.username.clone(),
            content: input.content.clone(),
            rate: input.rate,
            created_at: now,
        };
        self.evaluations.push(row);
        proof {
            assert(self.evaluations@.take(s0.evaluations@.len() as int) =~= s0.evaluations@);
            lemma_wf_after_log_append(s0, *self);
        }
        Ok(())
    }

    /// Append an evaluation under a freshly drawn id, stamped with the
    /// current time. An unknown task is always refused.
    pub fn add_evaluation(&mut self, input: &EvaluationInput) -> (r: Result<u128, OpError>)
        requires
            old(self).wf(),
        ensures
            final(self).wf(),
            r matches Err(e) ==> *final(self) == *old(self) && e == OpError::Store,
            !old(self).has_task(input.task_id) ==> r is Err,
            r matches Ok(id) ==> old(self).has_task(input.task_id) && evaluation_added(
                *old(self),
                *final(self),
                id,
                *input,
            ),
    {
        let id = crate::ext::fresh_id();
        let now = crate::ext::now_micros();
        match self.add_evaluation_at(id, now, input) {
            Ok(()) => {
                proof {
                    assert(evaluation_added(*old(self), *self, id, *input));
                }
                Ok(id)
            },
            Err(e) => Err(e),
        }
    }

    /// Append a board message. The write lands exactly when the id is new.
    pub fn add_message_at(&mut self, id: u128, now: i64, input: &MessageInput) -> (r: Result<
        (),
        OpError,
    >)
        requires
            old(self).wf(),
        ensures
            final(self).wf(),
            r is Ok <==> !old(self).has_message(id),
            r is Err ==> *final(self) == *old(self) && r == Err::<(), OpError>(OpError::Store),
            r is Ok ==> message_added_at(*old(self), *final(self), id, now, *input),
    {
        let mut i: usize = 0;
        while i < self.messages.len()
            invariant
                old(self).wf(),
                *self == *old(self),
                i <= self.messages@.len(),
                forall|j: int| 0 <= j < i ==> (#[trigger] self.messages@[j]).id != id,
            decreases self.messages@.len() - i,
        {
            if self.messages[i].id == id {
                return Err(OpError::Store);
            }
            i = i + 1;
        }
        let ghost s0 = *self;
        let row = Message {
            id,
            username: input.username.clone(),
            content: input.content.clone(),
            created_at: now,
        };
        self.messages.push(row);
        proof {
            assert(self.messages@.take(s0.messages@.len() as int) =~= s0.messages@);
            lemma_wf_after_log_append(s0, *self);
        }
        Ok(())
    }

    /// Append a board message under a freshly drawn id, stamped with the
    /// current time.
    pub fn add_message(&mut self, input: &MessageInput) -> (r: Result<u128, OpError>)
        requires
            old(self).wf(),
        ensures
            final(self).wf(),
            r matches Err(e) ==> *final(self) == *old(self) && e == OpError::Store,
            r matches Ok(id) ==> message_added(*old(self), *final(self), id, *input),
    {
        let id = crate::ext::fresh_id();
        let now = crate::ext::now_micros();
        match self.add_message_at(id, now, input) {
            Ok(()) => {
                proof {
                    assert(message_added(*old(self), *self, id, *input));
                }
                Ok(id)
            },
            Err(e) => Err(e),
        }
    }

    /// The progress log of one task, newest first.
    pub fn list_progress(&self, task_id: u128) -> (r: Vec<Progress>)
        requires
            self.wf(),
        ensures
            r@.to_multiset() == progress_of_task(self.progress@, task_id).to_multiset(),
            forall|i: int, j: int|
                0 <= i < j < r@.len() ==> (#[trigger] r@[i]).created_at >= (
                #[trigger] r@[j]).created_at,
    {
        let mut keyed: Vec<Keyed<Progress>> = Vec::new();
        let mut i: usize = 0;
        while i < self.progress.len()
            invariant
                i <= self.progress@.len(),
                keyed@.len() == progress_of_task(self.progress@.take(i as int), task_id).len(),
                forall|m: int|
                    0 <= m < keyed@.len() ==> (#[trigger] keyed@[m]).item == progress_of_task(
                        self.progress@.take(i as int),
                        task_id,
                    )[m],
                forall|m: int|
                    0 <= m < keyed@.len() ==> (#[trigger] keyed@[m]).k1 == 0 && keyed@[m].k2
                        == keyed@[m].item.created_at,
            decreases self.progress@.len() - i,
        {
            proof {
                assert(self.progress@.take(i + 1 as int).drop_last() =~= self.progress@.take(
                    i as int,
                ));
                assert(self.progress@.take(i + 1 as int).last() == self.progress@[i as int]);
            }
            if self.progress[i].task_id == task_id {
                let row = Progress {
                    id: self.progress[i].id,
                    task_id: self.progress[i].task_id,
                    content: self.progress[i].content.clone(),
                    percent: self.progress[i].percent,
                    created_at: self.progress[i].created_at,
                };
                proof {
                    assert(row == self.progress@[i as int]);
                }
                keyed.push(Keyed { k1: 0i64, k2: row.created_at, item: row });
            }
            i = i + 1;
        }
        proof {
            assert(self.progress@.take(self.progress@.len() as int) =~= self.progress@);
        }
        let ghost built = keyed@;
        let ghost rows = progress_of_task(self.progress@, task_id);
        let mut keyed = keyed;
        sort_keyed(&mut keyed);
        let ghost sorted = keyed@;
        let out = strip_keys(keyed);
        proof {
            let itemf = |k: Keyed<Progress>| k.item;
            assert(built.map_values(itemf) =~= rows);
            lemma_map_values_multiset(sorted, built, itemf);
            assert(out@ =~= sorted.map_values(itemf));
            assert(out@.to_multiset() == rows.to_multiset());
            lemma_same_contents_pointwise(
                built,
                sorted,
                |k: Keyed<Progress>| k.k1 == 0 && k.k2 == k.item.created_at,
            );
            assert forall|i2: int, j2: int|
                0 <= i2 < j2 < out@.len() implies (#[trigger] out@[i2]).created_at >= (
            #[trigger] out@[j2]).created_at by {
                assert(crate::order::key_le(sorted[i2], sorted[j2]));
                assert(sorted[i2].k1 == 0 && sorted[j2].k1 == 0);
                assert(out@[i2] == sorted[i2].item && out@[j2] == sorted[j2].item);
            }
        }
        out
    }

    /// The evaluations of one task, newest first.
    pub fn list_evaluations(&self, task_id: u128) -> (r: Vec<Evaluation>)
        requires
            self.wf(),
        ensures
            r@.to_multiset() == evaluations_of_task(self.evaluations@, task_id).to_multiset(),
            forall|i: int, j: int|
                0 <= i < j < r@.len() ==> (#[trigger] r@[i]).created_at >= (
                #[trigger] r@[j]).created_at,
    {
        let mut keyed: Vec<Keyed<Evaluation>> = Vec::new();
        let mut i: usize = 0;
        while i < self.evaluations.len()
            invariant
                i <= self.evaluations@.len(),
                keyed@.len() == evaluations_of_task(
                    self.evaluations@.take(i as int),
                    task_id,
                ).len(),
                forall|m: int|
                    0 <= m < keyed@.len() ==> (#[trigger] keyed@[m]).item == evaluations_of_task(
                        self.evaluations@.take(i as int),
                        task_id,
                    )[m],
                forall|m: int|
                    0 <= m < keyed@.len() ==> (#[trigger] keyed@[m]).k1 == 0 && keyed@[m].k2
                        == keyed@[m].item.created_at,
            decreases self.evaluations@.len() - i,
        {
            proof {
                assert(self.evaluations@.take(i + 1 as int).drop_last() =~= self.evaluations@.take(
                    i as int,
                ));
                assert(self.evaluations@.take(i + 1 as int).last() == self.evaluations@[i as int]);
            }
            if self.evaluations[i].task_id == task_id {
                let row = Evaluation {
                    id: self.evaluations[i].id,
                    task_id: self.evaluations[i].task_id,
                    username: self.evaluations[i].username.clone(),
                    content: self.evaluations[i].content.clone(),
                    rate: self.evaluations[i].rate,
                    created_at: self.evaluations[i].created_at,
                };
                proof {
                    assert(row == self.evaluations@[i as int]);
                }
                keyed.push(Keyed { k1: 0i64, k2: row.created_at, item: row });
            }
            i = i + 1;
        }
        proof {
            assert(self.evaluations@.take(self.evaluations@.len() as int) =~= self.evaluations@);
        }
        let ghost built = keyed@;
        let ghost rows = evaluations_of_task(self.evaluations@, task_id);
        let mut keyed = keyed;
        sort_keyed(&mut keyed);
        let ghost sorted = keyed@;
        let out = strip_keys(keyed);
        proof {
            let itemf = |k: Keyed<Evaluation>| k.item;
            assert(built.map_values(itemf) =~= rows);
            lemma_map_values_multiset(sorted, built, itemf);
            assert(out@ =~= sorted.map_values(itemf));
            assert(out@.to_multiset() == rows.to_multiset());
            lemma_same_contents_pointwise(
                built,
                sorted,
                |k: Keyed<Evaluation>| k.k1 == 0 && k.k2 == k.item.created_at,
            );
            assert forall|i2: int, j2: int|
                0 <= i2 < j2 < out@.len() implies (#[trigger] out@[i2]).created_at >= (
            #[trigger] out@[j2]).created_at by {
                assert(crate::order::key_le(sorted[i2], sorted[j2]));
                assert(sorted[i2].k1 == 0 && sorted[j2].k1 == 0);
                assert(out@[i2] == sorted[i2].item && out@[j2] == sorted[j2].item);
            }
        }
        out
    }

    /// The whole message board, oldest first.
    pub fn list_messages(&self) -> (r: Vec<Message>)
        requires
            self.wf(),
        ensures
            r@.to_multiset() == self.messages@.to_multiset(),
            forall|i: int, j: int|
                0 <= i < j < r@.len() ==> (#[trigger] r@[i]).created_at <= (
                #[trigger] r@[j]).created_at,
    {
        let mut keyed: Vec<Keyed<Message>> = Vec::new();
        let mut i: usize = 0;
        while i < self.messages.len()
            invariant
                i <= self.messages@.len(),
                keyed@.len() == i,
                forall|m: int|
                    0 <= m < keyed@.len() ==> (#[trigger] keyed@[m]).item == self.messages@[m],
                forall|m: int|
                    0 <= m < keyed@.len() ==> (#[trigger] keyed@[m]).k2 == 0 && keyed@[m].k1
                        == keyed@[m].item.created_at,
            decreases self.messages@.len() - i,
        {
            let row = Message {
                id: self.messages[i].id,
                username: self.messages[i].username.clone(),
                content: self.messages[i].content.clone(),
                created_at: self.messages[i].created_at,
            };
            proof {
                assert(row == self.messages@[i as int]);
            }
            keyed.push(Keyed { k1: row.created_at, k2: 0i64, item: row });
            i = i + 1;
        }
        let ghost built = keyed@;
        let mut keyed = keyed;
        sort_keyed(&mut keyed);
        let ghost sorted = keyed@;
        let out = strip_keys(keyed);
        proof {
            let itemf = |k: Keyed<Message>| k.item;
            assert(built.map_values(itemf) =~= self.messages@);
            lemma_map_values_multiset(sorted, built, itemf);
            assert(out@ =~= sorted.map_values(itemf));
            assert(out@.to_multiset() == self.messages@.to_multiset());
            lemma_same_contents_pointwise(
                built,
                sorted,
                |k: Keyed<Message>| k.k2 == 0 && k.k1 == k.item.created_at,
            );
            assert forall|i2: int, j2: int|
                0 <= i2 < j2 < out@.len() implies (#[trigger] out@[i2]).created_at <= (
            #[trigger] out@[j2]).created_at by {
                assert(crate::order::key_le(sorted[i2], sorted[j2]));
                assert(sorted[i2].k2 == 0 && sorted[j2].k2 == 0);
                assert(out@[i2] == sorted[i2].item && out@[j2] == sorted[j2].item);
            }
        }
        out
    }
}

/// Appending a log row that names an existing task keeps the store
/// well-formed, provided its id is new in its table.
proof fn lemma_wf_after_log_append(s0: Store, s1: Store)
    requires
        s0.wf(),
        s1.users@ == s0.users@,
        s1.tasks@ == s0.tasks@,
        s1.roles@ == s0.roles@,
        s1.sub_tasks@ == s0.sub_tasks@,
        s1.progress@ == s0.progress@ || (s1.progress@.len() == s0.progress@.len() + 1
            && s1.progress@.take(s0.progress@.len() as int) == s0.progress@ && !s0.has_progress(
            s1.progress@.last().id,
        ) && s0.has_task(s1.progress@.last().task_id)),
        s1.evaluations@ == s0.evaluations@ || (s1.evaluations@.len() == s0.evaluations@.len() + 1
            && s1.evaluations@.take(s0.evaluations@.len() as int) == s0.evaluations@
            && !s0.has_evaluation(s1.evaluations@.last().id) && s0.has_task(
            s1.evaluations@.last().task_id,
        )),
        s1.messages@ == s0.messages@ || (s1.messages@.len() == s0.messages@.len() + 1
            && s1.messages@.take(s0.messages@.len() as int) == s0.messages@ && !s0.has_message(
            s1.messages@.last().id,
        )),
    ensures
        s1.wf(),
{
    assert forall|a: int, b: int|
        0 <= a < b < s1.progress@.len() implies (#[trigger] s1.progress@[a]).id != (
    #[trigger] s1.progress@[b]).id by {
        let n = s0.progress@.len() as int;
        if b < n {
            assert(s1.progress@[a] == s0.progress@.take(n)[a]);
            assert(s0.progress@[a].id != s0.progress@[b].id);
        } else {
            assert(s1.progress@[a] == s0.progress@.take(n)[a]);
            assert(!s0.has_progress(s1.progress@[b].id));
        }
    }
    assert forall|a: int, b: int|
        0 <= a < b < s1.evaluations@.len() implies (#[trigger] s1.evaluations@[a]).id != (
    #[trigger] s1.evaluations@[b]).id by {
        let n = s0.evaluations@.len() as int;
        if b < n {
            assert(s1.evaluations@[a] == s0.evaluations@.take(n)[a]);
            assert(s0.evaluations@[a].id != s0.evaluations@[b].id);
        } else {
            assert(s1.evaluations@[a] == s0.evaluations@.take(n)[a]);
            assert(!s0.has_evaluation(s1.evaluations@[b].id));
        }
    }
    assert forall|a: int, b: int|
        0 <= a < b < s1.messages@.len() implies (#[trigger] s1.messages@[a]).id != (
    #[trigger] s1.messages@[b]).id by {
        let n = s0.messages@.len() as int;
        if b < n {
            assert(s1.messages@[a] == s0.messages@.take(n)[a]);
            assert(s0.messages@[a].id != s0.messages@[b].id);
        } else {
            assert(s1.messages@[a] == s0.messages@.take(n)[a]);
            assert(!s0.has_message(s1.messages@[b].id));
        }
    }
    assert(s1.refs_ok()) by {
        assert forall|i: int| 0 <= i < s1.tasks@.len() implies s1.has_user(
            (#[trigger] s1.tasks@[i]).creator_id,
        ) by {
            assert(s0.has_user(s0.tasks@[i].creator_id));
        }
        assert forall|i: int| 0 <= i < s1.roles@.len() implies s1.has_task(
            (#[trigger] s1.roles@[i]).task_id,
        ) && (s1.roles@[i].user_id matches Some(u) ==> s1.has_user(u)) by {
            assert(s0.has_task(s0.roles@[i].task_id));
            assert(s0.roles@[i].user_id matches Some(u) ==> s0.has_user(u));
        }
        assert forall|i: int| 0 <= i < s1.sub_tasks@.len() implies s1.has_task(
            (#[trigger] s1.sub_tasks@[i]).task_id,
        ) && (s1.sub_tasks@[i].assignee_id matches Some(u) ==> s1.has_user(u)) by {
            assert(s0.has_task(s0.sub_tasks@[i].task_id));
            assert(s0.sub_tasks@[i].assignee_id matches Some(u) ==> s0.has_user(u));
        }
        assert forall|i: int| 0 <= i < s1.progress@.len() implies s1.has_task(
            (#[trigger] s1.progress@[i]).task_id,
        ) by {
            let n = s0.progress@.len() as int;
            if i < n {
                assert(s1.progress@[i] == s0.progress@.take(n)[i]);
                assert(s0.has_task(s0.progress@[i].task_id));
            }
        }
        assert forall|i: int| 0 <= i < s1.evaluations@.len() implies s1.has_task(
            (#[trigger] s1.evaluations@[i]).task_id,
        ) by {
            let n = s0.evaluations@.len() as int;
            if i < n {
                assert(s1.evaluations@[i] == s0.evaluations@.take(n)[i]);
                assert(s0.has_task(s0.evaluations@[i].task_id));
            }
        }
    }
}

} // verus!
