//! Entity types, request payloads, view rows, and the outcome/error
//! taxonomy of the task-board engine.
//!
//! Identifiers are 128-bit values (the width of a UUID); timestamps are
//! microseconds since the Unix epoch. Statuses are closed enums; the wire
//! literals the presentation layer expects come from the `label` methods.

use vstd::prelude::*;

verus! {

/// Lifecycle of a task: `Open` until it is finished, one way.
#[derive(Clone, Copy, Debug, PartialEq, Eq, Structural)]
pub enum TaskStatus {
    Open,
    Finished,
}

impl TaskStatus {
    /// The wire literal for this status.
    pub open spec fn label_spec(self) -> Seq<char> {
        match self {
            TaskStatus::Open => "open"@,
            TaskStatus::Finished => "finished"@,
        }
    }

    pub fn label(&self) -> (r: String)
        ensures
            r@ == self.label_spec(),
    {
        match self {
            TaskStatus::Open => "open".to_owned(),
            TaskStatus::Finished => "finished".to_owned(),
        }
    }
}

/// Lifecycle of a sub-task; fixed at creation, no transition is exposed.
#[derive(Clone, Copy, Debug, PartialEq, Eq, Structural)]
pub enum SubTaskStatus {
    NotStarted,
    InProgress,
    Done,
}

impl SubTaskStatus {
    /// The wire literal for this status.
    pub open spec fn label_spec(self) -> Seq<char> {
        match self {
            SubTaskStatus::NotStarted => "not started"@,
            SubTaskStatus::InProgress => "in progress"@,
            SubTaskStatus::Done => "done"@,
        }
    }

    pub fn label(&self) -> (r: String)
        ensures
            r@ == self.label_spec(),
    {
        match self {
            SubTaskStatus::NotStarted => "not started".to_owned(),
            SubTaskStatus::InProgress => "in progress".to_owned(),
            SubTaskStatus::Done => "done".to_owned(),
        }
    }
}

/// Outcome of an update that can match no row or change nothing.
#[derive(Clone, Copy, Debug, PartialEq, Eq, Structural)]
pub enum UpdateOutcome {
    /// Exactly one row was changed.
    Updated,
    /// No row matched, or the row already held the given values.
    NoEffect,
}

/// How a mutating operation fails.
#[derive(Clone, Copy, Debug, PartialEq, Eq, Structural)]
pub enum OpError {
    /// A conditional update lost the race, or a uniqueness rule was hit.
    Conflict,
    /// The referenced row does not exist.
    NotFound,
    /// A constraint of the store rejected the write; nothing was changed.
    Store,
}

// --- entities ---

pub struct User {
    pub id: u128,
    pub username: String,
    pub password_hash: String,
    pub name: Option<String>,
    pub avatar_url: Option<String>,
    pub phone: Option<String>,
    pub student_id: Option<String>,
    pub email: Option<String>,
    pub created_at: i64,
}

pub struct Task {
    pub id: u128,
    pub title: String,
    pub description: String,
    pub creator_id: u128,
    pub created_at: i64,
    pub team_size: i32,
    pub status: TaskStatus,
}

/// A named, independently claimable position within a task's team.
/// `user_id` is the claimant; `None` means the slot is open.
pub struct TaskRole {
    pub id: u128,
    pub task_id: u128,
    pub role_name: String,
    pub user_id: Option<u128>,
}

pub struct SubTask {
    pub id: u128,
    pub task_id: u128,
    pub title: String,
    pub description: Option<String>,
    pub assignee_id: Option<u128>,
    pub status: SubTaskStatus,
    pub created_at: i64,
    pub due_date: Option<i64>,
}

pub struct Progress {
    pub id: u128,
    pub task_id: u128,
    pub content: String,
    pub percent: i32,
    pub created_at: i64,
}

pub struct Evaluation {
    pub id: u128,
    pub task_id: u128,
    pub username: String,
    pub content: String,
    pub rate: i32,
    pub created_at: i64,
}

pub struct Message {
    pub id: u128,
    pub username: String,
    pub content: String,
    pub created_at: i64,
}

// --- request payloads ---

pub struct RegisterInput {
    pub username: String,
    pub password: String,
}

pub struct LoginInput {
    pub username: String,
    pub password: String,
}

/// Bearer-token claims: the subject (a user id rendered as text) and expiry.
pub struct Claims {
    pub sub: String,
    pub exp: usize,
}

pub struct TaskInput {
    pub title: String,
    pub description: String,
    pub creator_id: u128,
    pub team_size: i32,
    pub roles: Vec<String>,
}

pub struct TaskUpdateInput {
    pub task_id: u128,
    pub title: String,
    pub description: String,
}

pub struct FinishTaskInput {
    pub task_id: u128,
}

pub struct ClaimRoleInput {
    pub role_id: u128,
    pub user_id: u128,
}

pub struct UpdateProfileInput {
    pub user_id: u128,
    pub name: String,
    pub phone: Option<String>,
    pub student_id: Option<String>,
    pub email: Option<String>,
}

pub struct SubTaskInput {
    pub title: String,
    pub description: Option<String>,
    pub due_date: Option<i64>,
}

pub struct SubTaskUpdateInput {
    pub title: String,
    pub description: Option<String>,
    pub due_date: Option<i64>,
    pub assignee_id: Option<u128>,
}

pub struct ProgressInput {
    pub task_id: u128,
    pub content: String,
    pub percent: i32,
}

pub struct EvaluationInput {
    pub task_id: u128,
    pub username: String,
    pub content: String,
    pub rate: i32,
}

pub struct MessageInput {
    pub username: String,
    pub content: String,
}

// --- view rows ---

/// An open task joined with its creator's display fields.
pub struct TaskDetails {
    pub id: u128,
    pub title: String,
    pub description: String,
    pub creator_id: u128,
    pub created_at: i64,
    pub team_size: i32,
    pub status: TaskStatus,
    pub creator_name: Option<String>,
    pub creator_username: String,
}

/// One claimed slot of the calling user, joined with its task.
pub struct MyRole {
    pub task_id: u128,
    pub title: String,
    pub description: String,
    pub role_name: String,
    pub status: TaskStatus,
}

/// A slot of one task joined with the claimant's profile; the profile
/// fields are `None` while the slot is open.
pub struct RoleInfo {
    pub role_id: u128,
    pub role_name: String,
    pub user_id: Option<u128>,
    pub name: Option<String>,
    pub username: Option<String>,
    pub phone: Option<String>,
    pub student_id: Option<String>,
    pub email: Option<String>,
}

/// One roster entry of a published task; empty display fields stand for an
/// unfilled slot.
pub struct MemberRole {
    pub name: String,
    pub username: String,
    pub role_name: String,
    pub phone: Option<String>,
    pub student_id: Option<String>,
    pub email: Option<String>,
}

/// A task of the calling user together with its full roster.
pub struct TaskWithMembers {
    pub id: u128,
    pub title: String,
    pub status: TaskStatus,
    pub members: Vec<MemberRole>,
}

/// A sub-task joined with its assignee's display name.
pub struct SubTaskDetails {
    pub id: u128,
    pub title: String,
    pub description: Option<String>,
    pub status: SubTaskStatus,
    pub due_date: Option<i64>,
    pub assignee_id: Option<u128>,
    pub assignee_name: Option<String>,
}

/// An exact copy of an optional text field.
pub fn clone_opt_string(o: &Option<String>) -> (r: Option<String>)
    ensures
        r == o,
{
    match o {
        Option::None => Option::None,
        Option::Some(s) => Option::Some(s.clone()),
    }
}

} // verus!
