//! A verified task-board engine: tasks published with named role slots,
//! a race-safe claim/release protocol over those slots, sub-tasks with
//! assignees, append-only progress/evaluation/message logs, and read-side
//! views. State lives in an in-memory relational [`store::Store`]; every
//! operation's effect is stated in its contract and checked by Verus.

pub mod ext;
pub mod laws;
pub mod logs;
pub mod model;
pub mod order;
pub mod roles;
pub mod store;
pub mod subtasks;
pub mod tasks;
pub mod users;
pub mod views;
