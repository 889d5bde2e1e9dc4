//! User records: registration under a unique username, profile updates,
//! and the profile lookup. Credentials are opaque here: whoever calls in
//! hands over an already-computed password hash, and verifying one is the
//! credential service's business.

use vstd::prelude::*;

use vstd::pervasive::VecAdditionalExecFns;

use crate::model::{OpError, UpdateProfileInput, User};
use crate::store::Store;

verus! {

/// The row a successful registration appends: credentials only, every
/// profile field still unset.
pub open spec fn new_user(id: u128, now: i64, username: String, password_hash: String) -> User {
    User {
        id,
        username,
        password_hash,
        name: None,
        avatar_url: None,
        phone: None,
        student_id: None,
        email: None,
        created_at: now,
    }
}

/// Effect of a successful registration at a given clock value.
pub open spec fn user_registered_at(
    s0: Store,
    s1: Store,
    id: u128,
    now: i64,
    username: String,
    password_hash: String,
) -> bool {
    &&& s1.users@ == s0.users@.push(new_user(id, now, username, password_hash))
    &&& s1.tasks@ == s0.tasks@
    &&& s1.roles@ == s0.roles@
    &&& s1.sub_tasks@ == s0.sub_tasks@
    &&& s1.progress@ == s0.progress@
    &&& s1.evaluations@ == s0.evaluations@
    &&& s1.messages@ == s0.messages@
}

/// A registration that went through at some clock value.
pub open spec fn user_registered(
    s0: Store,
    s1: Store,
    id: u128,
    username: String,
    password_hash: String,
) -> bool {
    exists|now: i64| user_registered_at(s0, s1, id, now, username, password_hash)
}

/// A user after an avatar upload: only the stored blob path changes.
pub open spec fn avatar_updated(u: User, url: String) -> User {
    User { avatar_url: Some(url), ..u }
}

/// A user after a profile update: the four profile fields are replaced.
pub open spec fn profile_updated(u: User, input: UpdateProfileInput) -> User {
    User {
        name: Some(input.name),
        phone: input.phone,
        student_id: input.student_id,
        email: input.email,
        ..u
    }
}

impl Store {
    /// Insert a user row. The write lands exactly when the username and the
    /// id are both new; a taken username is the conflict every caller sees.
    pub fn register_at(
        &mut self,
        id: u128,
        now: i64,
        username: String,
        password_hash: String,
    ) -> (r: Result<(), OpError>)
        requires
            old(self).wf(),
        ensures
            final(self).wf(),
            r is Ok <==> !old(self).username_taken(username@) && !old(self).has_user(id),
            r is Err ==> *final(self) == *old(self) && r == Err::<(), OpError>(OpError::Conflict),
            r is Ok ==> user_registered_at(*old(self), *final(self), id, now, username,
            password_hash),
    {
        if self.find_user_by_username(&username).is_some() {
            return Err(OpError::Conflict);
        }
        if self.find_user_index(id).is_some() {
            return Err(OpError::Conflict);
        }
        let ghost s0 = *self;
        let row = User {
            id,
            username,
            password_hash,
            name: None,
            avatar_url: None,
            phone: None,
            student_id: None,
            email: None,
            created_at: now,
        };
        self.users.push(row);
        proof {
            let s1 = *self;
            let n = s0.users@.len() as int;
            assert forall|a: int, b: int|
                0 <= a < b < s1.users@.len() implies (#[trigger] s1.users@[a]).id != (
            #[trigger] s1.users@[b]).id by {
                if b < n {
                    assert(s0.users@[a].id != s0.users@[b].id);
                } else {
                    assert(!s0.has_user(id));
                }
            }
            assert forall|a: int, b: int|
                0 <= a < b < s1.users@.len() implies (#[trigger] s1.users@[a]).username@ != (
            #[trigger] s1.users@[b]).username@ by {
                if b < n {
                    assert(s0.users@[a].username@ != s0.users@[b].username@);
                } else {
                    assert(!s0.username_taken(s1.users@[b].username@));
                }
            }
            assert forall|x: u128| s0.has_user(x) implies s1.has_user(x) by {
                let w = choose|w: int|
                    0 <= w < s0.users@.len() && (#[trigger] s0.users@[w]).id == x;
                assert(s1.users@[w] == s0.users@[w]);
            }
            assert(s1.refs_ok()) by {
                assert forall|i: int| 0 <= i < s1.tasks@.len() implies s1.has_user(
                    (#[trigger] s1.tasks@[i]).creator_id,
                ) by {
                    assert(s0.has_user(s0.tasks@[i].creator_id));
                }
                assert forall|i: int| 0 <= i < s1.roles@.len() implies s1.has_task(
                    (#[trigger] s1.roles@[i]).task_id,
                ) && (s1.roles@[i].user_id matches Some(u) ==> s1.has_user(u)) by {
                    assert(s0.has_task(s0.roles@[i].task_id));
                    assert(s0.roles@[i].user_id matches Some(u) ==> s0.has_user(u));
                }
                assert forall|i: int| 0 <= i < s1.sub_tasks@.len() implies s1.has_task(
                    (#[trigger] s1.sub_tasks@[i]).task_id,
                ) && (s1.sub_tasks@[i].assignee_id matches Some(u) ==> s1.has_user(u)) by {
                    assert(s0.has_task(s0.sub_tasks@[i].task_id));
                    assert(s0.sub_tasks@[i].assignee_id matches Some(u) ==> s0.has_user(u));
                }
            }
        }
        Ok(())
    }

    /// Register a user under a freshly drawn id, stamped with the current
    /// time. The caller supplies the already-hashed credential. A taken
    /// username is always refused.
    pub fn register(&mut self, username: String, password_hash: String) -> (r: Result<
        u128,
        OpError,
    >)
        requires
            old(self).wf(),
        ensures
            final(self).wf(),
            r matches Err(e) ==> *final(self) == *old(self) && e == OpError::Conflict,
            old(self).username_taken(username@) ==> r is Err,
            r matches Ok(id) ==> !old(self).username_taken(username@) && user_registered(
                *old(self),
                *final(self),
                id,
                username,
                password_hash,
            ),
    {
        let id = crate::ext::fresh_id();
        let now = crate::ext::now_micros();
        match self.register_at(id, now, username, password_hash) {
            Ok(()) => {
                proof {
                    assert(user_registered(*old(self), *self, id, username, password_hash));
                }
                Ok(id)
            },
            Err(e) => Err(e),
        }
    }

    /// Replace the four profile fields of one user. Succeeds exactly when
    /// the user exists.
    pub fn update_user_profile(&mut self, input: &UpdateProfileInput) -> (r: Result<(), OpError>)
        requires
            old(self).wf(),
        ensures
            final(self).wf(),
            r is Ok <==> old(self).has_user(input.user_id),
            r is Err ==> *final(self) == *old(self) && r == Err::<(), OpError>(OpError::NotFound),
            r is Ok ==> {
                &&& final(self).users@.len() == old(self).users@.len()
                &&& (forall|i: int|
                    0 <= i < old(self).users@.len() ==> #[trigger] final(self).users@[i] == (
                    if old(self).users@[i].id == input.user_id {
                        profile_updated(old(self).users@[i], *input)
                    } else {
                        old(self).users@[i]
                    }))
                &&& final(self).tasks@ == old(self).tasks@
                &&& final(self).roles@ == old(self).roles@
                &&& final(self).sub_tasks@ == old(self).sub_tasks@
                &&& final(self).progress@ == old(self).progress@
                &&& final(self).evaluations@ == old(self).evaluations@
                &&& final(self).messages@ == old(self).messages@
            },
    {
        let idx = match self.find_user_index(input.user_id) {
            Some(i) => i,
            None => {
                return Err(OpError::NotFound);
            },
        };
        let updated = User {
            id: self.users[idx].id,
            username: self.users[idx].username.clone(),
            password_hash: self.users[idx].password_hash.clone(),
            name: Some(input.name.clone()),
            avatar_url: crate::model::clone_opt_string(&self.users[idx].avatar_url),
            phone: crate::model::clone_opt_string(&input.phone),
            student_id: crate::model::clone_opt_string(&input.student_id),
            email: crate::model::clone_opt_string(&input.email),
            created_at: self.users[idx].created_at,
        };
        self.users.set(idx, updated);
        proof {
            let s0 = *old(self);
            let s1 = *self;
            assert forall|i: int|
                0 <= i < s0.users@.len() implies #[trigger] s1.users@[i] == (
            if s0.users@[i].id == input.user_id {
                profile_updated(s0.users@[i], *input)
            } else {
                s0.users@[i]
            }) by {
                if i != idx {
                    assert(s0.users@[i].id != s0.users@[idx as int].id);
                }
            }
            lemma_wf_after_user_field_update(s0, s1);
        }
        Ok(())
    }

    /// Record the public path the blob store returned for a user's avatar.
    /// Succeeds exactly when the user exists.
    pub fn set_avatar_url(&mut self, user_id: u128, url: String) -> (r: Result<(), OpError>)
        requires
            old(self).wf(),
        ensures
            final(self).wf(),
            r is Ok <==> old(self).has_user(user_id),
            r is Err ==> *final(self) == *old(self) && r == Err::<(), OpError>(OpError::NotFound),
            r is Ok ==> {
                &&& final(self).users@.len() == old(self).users@.len()
                &&& (forall|i: int|
                    0 <= i < old(self).users@.len() ==> #[trigger] final(self).users@[i] == (
                    if old(self).users@[i].id == user_id {
                        avatar_updated(old(self).users@[i], url)
                    } else {
                        old(self).users@[i]
                    }))
                &&& final(self).tasks@ == old(self).tasks@
                &&& final(self).roles@ == old(self).roles@
                &&& final(self).sub_tasks@ == old(self).sub_tasks@
                &&& final(self).progress@ == old(self).progress@
                &&& final(self).evaluations@ == old(self).evaluations@
                &&& final(self).messages@ == old(self).messages@
            },
    {
        let idx = match self.find_user_index(user_id) {
            Some(i) => i,
            None => {
                return Err(OpError::NotFound);
            },
        };
        let updated = User {
            id: self.users[idx].id,
            username: self.users[idx].username.clone(),
            password_hash: self.users[idx].password_hash.clone(),
            name: crate::model::clone_opt_string(&self.users[idx].name),
            avatar_url: Some(url),
            phone: crate::model::clone_opt_string(&self.users[idx].phone),
            student_id: crate::model::clone_opt_string(&self.users[idx].student_id),
            email: crate::model::clone_opt_string(&self.users[idx].email),
            created_at: self.users[idx].created_at,
        };
        self.users.set(idx, updated);
        proof {
            let s0 = *old(self);
            let s1 = *self;
            assert forall|i: int|
                0 <= i < s0.users@.len() implies #[trigger] s1.users@[i] == (
            if s0.users@[i].id == user_id {
                avatar_updated(s0.users@[i], url)
            } else {
                s0.users@[i]
            }) by {
                if i != idx {
                    assert(s0.users@[i].id != s0.users@[idx as int].id);
                }
            }
            lemma_wf_after_user_field_update(s0, s1);
        }
        Ok(())
    }

    /// The credentials stored for a username: the user id and the opaque
    /// password hash. What a login flow needs before it hands the hash to
    /// the credential service.
    pub fn find_credentials(&self, username: &String) -> (r: Option<(u128, String)>)
        requires
            self.wf(),
        ensures
            r is Some <==> self.username_taken(username@),
            r matches Some(p) ==> exists|i: int|
                0 <= i < self.users@.len() && (#[trigger] self.users@[i]).username@ == username@
                    && p.0 == self.users@[i].id && p.1 == self.users@[i].password_hash,
    {
        let idx = match self.find_user_by_username(username) {
            Some(i) => i,
            None => {
                return None;
            },
        };
        Some((self.users[idx].id, self.users[idx].password_hash.clone()))
    }

    /// The full record of one user, if it exists.
    pub fn get_user_info(&self, user_id: u128) -> (r: Option<User>)
        requires
            self.wf(),
        ensures
            r is Some <==> self.has_user(user_id),
            r matches Some(u) ==> u == self.user_of(user_id),
    {
        let idx = match self.find_user_index(user_id) {
            Some(i) => i,
            None => {
                return None;
            },
        };
        proof {
            crate::store::lemma_user_of_index(*self, idx as int);
        }
        Some(
            User {
                id: self.users[idx].id,
                username: self.users[idx].username.clone(),
                password_hash: self.users[idx].password_hash.clone(),
                name: crate::model::clone_opt_string(&self.users[idx].name),
                avatar_url: crate::model::clone_opt_string(&self.users[idx].avatar_url),
                phone: crate::model::clone_opt_string(&self.users[idx].phone),
                student_id: crate::model::clone_opt_string(&self.users[idx].student_id),
                email: crate::model::clone_opt_string(&self.users[idx].email),
                created_at: self.users[idx].created_at,
            },
        )
    }
}

/// Editing the profile fields of user rows — ids, usernames, and the other
/// tables untouched — keeps the store well-formed.
proof fn lemma_wf_after_user_field_update(s0: Store, s1: Store)
    requires
        s0.wf(),
        s1.users@.len() == s0.users@.len(),
        forall|i: int|
            0 <= i < s0.users@.len() ==> (#[trigger] s1.users@[i]).id == s0.users@[i].id
                && s1.users@[i].username@ == s0.users@[i].username@,
        s1.tasks@ == s0.tasks@,
        s1.roles@ == s0.roles@,
        s1.sub_tasks@ == s0.sub_tasks@,
        s1.progress@ == s0.progress@,
        s1.evaluations@ == s0.evaluations@,
        s1.messages@ == s0.messages@,
    ensures
        s1.wf(),
{
    assert forall|a: int, b: int|
        0 <= a < b < s1.users@.len() implies (#[trigger] s1.users@[a]).id != (
    #[trigger] s1.users@[b]).id && (s1.users@[a]).username@ != (s1.users@[b]).username@ by {
        assert(s1.users@[a].id == s0.users@[a].id);
        assert(s1.users@[b].id == s0.users@[b].id);
        assert(s1.users@[a].username@ == s0.users@[a].username@);
        assert(s1.users@[b].username@ == s0.users@[b].username@);
        assert(s0.users@[a].id != s0.users@[b].id);
        assert(s0.users@[a].username@ != s0.users@[b].username@);
    }
    assert forall|x: u128| s0.has_user(x) implies s1.has_user(x) by {
        let w = choose|w: int| 0 <= w < s0.users@.len() && (#[trigger] s0.users@[w]).id == x;
        assert(s1.users@[w].id == s0.users@[w].id);
    }
    assert(s1.refs_ok()) by {
        assert forall|i: int| 0 <= i < s1.tasks@.len() implies s1.has_user(
            (#[trigger] s1.tasks@[i]).creator_id,
        ) by {
            assert(s0.has_user(s0.tasks@[i].creator_id));
        }
        assert forall|i: int| 0 <= i < s1.roles@.len() implies s1.has_task(
            (#[trigger] s1.roles@[i]).task_id,
        ) && (s1.roles@[i].user_id matches Some(u) ==> s1.has_user(u)) by {
            assert(s0.has_task(s0.roles@[i].task_id));
            assert(s0.roles@[i].user_id matches Some(u) ==> s0.has_user(u));
        }
        assert forall|i: int| 0 <= i < s1.sub_tasks@.len() implies s1.has_task(
            (#[trigger] s1.sub_tasks@[i]).task_id,
        ) && (s1.sub_tasks@[i].assignee_id matches Some(u) ==> s1.has_user(u)) by {
            assert(s0.has_task(s0.sub_tasks@[i].task_id));
            assert(s0.sub_tasks@[i].assignee_id matches Some(u) ==> s0.has_user(u));
        }
    }
}

} // verus!
