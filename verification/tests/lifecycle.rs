use taskboard::model::{
    FinishTaskInput, OpError, TaskInput, TaskStatus, TaskUpdateInput, UpdateOutcome,
    UpdateProfileInput,
};
use taskboard::store::Store;

fn user(store: &mut Store, id: u128, name: &str) {
    store
        .register_at(id, 0, name.to_string(), "hash".to_string())
        .unwrap();
}

fn input(creator: u128, title: &str, roles: &[&str]) -> TaskInput {
    TaskInput {
        title: title.to_string(),
        description: "desc".to_string(),
        creator_id: creator,
        team_size: roles.len() as i32,
        roles: roles.iter().map(|r| r.to_string()).collect(),
    }
}

#[test]
fn create_task_appends_task_and_slots() {
    let mut s = Store::new();
    user(&mut s, 1, "alice");
    let r = s.create_task_at(100, &vec![11, 12], 5, &input(1, "t", &["leader", "writer"]));
    assert_eq!(r, Ok(()));
    assert_eq!(s.tasks.len(), 1);
    assert_eq!(s.tasks[0].id, 100);
    assert_eq!(s.tasks[0].status, TaskStatus::Open);
    assert_eq!(s.roles.len(), 2);
    assert_eq!(s.roles[0].role_name, "leader");
    assert_eq!(s.roles[0].user_id, None);
    assert_eq!(s.roles[1].role_name, "writer");
    assert_eq!(s.roles[1].user_id, None);
}

#[test]
fn create_task_with_no_roles_is_fine() {
    let mut s = Store::new();
    user(&mut s, 1, "alice");
    assert_eq!(s.create_task_at(100, &vec![], 5, &input(1, "t", &[])), Ok(()));
    assert_eq!(s.tasks.len(), 1);
    assert_eq!(s.roles.len(), 0);
}

#[test]
fn create_task_rolls_back_on_slot_id_conflict() {
    let mut s = Store::new();
    user(&mut s, 1, "alice");
    s.create_task_at(100, &vec![11], 5, &input(1, "t", &["leader"]))
        .unwrap();
    // the second slot id collides with an existing slot: nothing of the
    // attempt is visible afterwards
    let r = s.create_task_at(101, &vec![13, 11], 6, &input(1, "u", &["a", "b"]));
    assert_eq!(r, Err(OpError::Store));
    assert!(s.find_task_index(101).is_none());
    assert_eq!(s.tasks.len(), 1);
    assert_eq!(s.roles.len(), 1);
    assert!(s.find_role_index(13).is_none());
}

#[test]
fn create_task_rejects_duplicate_slot_ids() {
    let mut s = Store::new();
    user(&mut s, 1, "alice");
    let r = s.create_task_at(100, &vec![11, 11], 5, &input(1, "t", &["a", "b"]));
    assert_eq!(r, Err(OpError::Store));
    assert_eq!(s.tasks.len(), 0);
    assert_eq!(s.roles.len(), 0);
}

#[test]
fn create_task_rejects_unknown_creator() {
    let mut s = Store::new();
    let r = s.create_task_at(100, &vec![11], 5, &input(7, "t", &["a"]));
    assert_eq!(r, Err(OpError::Store));
    assert_eq!(s.tasks.len(), 0);
}

#[test]
fn create_task_with_fresh_ids_succeeds() {
    let mut s = Store::new();
    user(&mut s, 1, "alice");
    let id = s.create_task(&input(1, "t", &["leader"])).unwrap();
    assert!(s.find_task_index(id).is_some());
    assert_eq!(s.roles.len(), 1);
    assert_eq!(s.roles[0].task_id, id);
}

#[test]
fn edit_changes_title_and_description() {
    let mut s = Store::new();
    user(&mut s, 1, "alice");
    s.create_task_at(100, &vec![], 5, &input(1, "t", &[])).unwrap();
    let r = s.update_task(&TaskUpdateInput {
        task_id: 100,
        title: "new".to_string(),
        description: "nd".to_string(),
    });
    assert_eq!(r, UpdateOutcome::Updated);
    assert_eq!(s.tasks[0].title, "new");
    assert_eq!(s.tasks[0].description, "nd");
}

#[test]
fn edit_with_identical_values_reports_no_effect() {
    let mut s = Store::new();
    user(&mut s, 1, "alice");
    s.create_task_at(100, &vec![], 5, &input(1, "t", &[])).unwrap();
    let r = s.update_task(&TaskUpdateInput {
        task_id: 100,
        title: "t".to_string(),
        description: "desc".to_string(),
    });
    assert_eq!(r, UpdateOutcome::NoEffect);
    assert_eq!(s.tasks[0].title, "t");
}

#[test]
fn edit_unknown_task_reports_no_effect() {
    let mut s = Store::new();
    let r = s.update_task(&TaskUpdateInput {
        task_id: 9,
        title: "x".to_string(),
        description: "y".to_string(),
    });
    assert_eq!(r, UpdateOutcome::NoEffect);
}

#[test]
fn finish_twice_keeps_finished_and_reports_no_effect() {
    let mut s = Store::new();
    user(&mut s, 1, "alice");
    s.create_task_at(100, &vec![], 5, &input(1, "t", &[])).unwrap();
    assert_eq!(s.finish_task(&FinishTaskInput { task_id: 100 }), UpdateOutcome::Updated);
    assert_eq!(s.tasks[0].status, TaskStatus::Finished);
    assert_eq!(s.finish_task(&FinishTaskInput { task_id: 100 }), UpdateOutcome::NoEffect);
    assert_eq!(s.tasks[0].status, TaskStatus::Finished);
}

#[test]
fn finish_unknown_task_reports_no_effect() {
    let mut s = Store::new();
    assert_eq!(s.finish_task(&FinishTaskInput { task_id: 9 }), UpdateOutcome::NoEffect);
}

#[test]
fn list_tasks_shows_open_only_newest_first() {
    let mut s = Store::new();
    user(&mut s, 1, "alice");
    s.create_task_at(100, &vec![], 5, &input(1, "old", &[])).unwrap();
    s.create_task_at(101, &vec![], 9, &input(1, "new", &[])).unwrap();
    s.create_task_at(102, &vec![], 7, &input(1, "mid", &[])).unwrap();
    s.finish_task(&FinishTaskInput { task_id: 102 });
    let list = s.list_tasks();
    assert_eq!(list.len(), 2);
    assert_eq!(list[0].id, 101);
    assert_eq!(list[1].id, 100);
    assert_eq!(list[0].creator_username, "alice");
    assert_eq!(list[0].creator_name, None);
    assert_eq!(list[0].status, TaskStatus::Open);
}

#[test]
fn register_duplicate_username_conflicts() {
    let mut s = Store::new();
    assert_eq!(s.register_at(1, 0, "alice".to_string(), "h1".to_string()), Ok(()));
    assert_eq!(
        s.register_at(2, 0, "alice".to_string(), "h2".to_string()),
        Err(OpError::Conflict)
    );
    assert_eq!(s.users.len(), 1);
}

#[test]
fn register_with_fresh_id_succeeds() {
    let mut s = Store::new();
    let id = s.register("alice".to_string(), "h".to_string()).unwrap();
    assert!(s.find_user_index(id).is_some());
    assert!(s.register("alice".to_string(), "h".to_string()).is_err());
}

#[test]
fn profile_update_replaces_fields() {
    let mut s = Store::new();
    user(&mut s, 1, "alice");
    let r = s.update_user_profile(&UpdateProfileInput {
        user_id: 1,
        name: "Alice".to_string(),
        phone: Some("123".to_string()),
        student_id: None,
        email: Some("a@b".to_string()),
    });
    assert_eq!(r, Ok(()));
    assert_eq!(s.users[0].name.as_deref(), Some("Alice"));
    assert_eq!(s.users[0].phone.as_deref(), Some("123"));
    assert_eq!(s.users[0].student_id, None);
    assert_eq!(s.users[0].email.as_deref(), Some("a@b"));
    assert_eq!(s.users[0].username, "alice");
}

#[test]
fn profile_update_of_unknown_user_is_not_found() {
    let mut s = Store::new();
    let r = s.update_user_profile(&UpdateProfileInput {
        user_id: 9,
        name: "x".to_string(),
        phone: None,
        student_id: None,
        email: None,
    });
    assert_eq!(r, Err(OpError::NotFound));
}

#[test]
fn avatar_path_is_stored_against_the_user() {
    let mut s = Store::new();
    user(&mut s, 1, "alice");
    assert_eq!(s.set_avatar_url(1, "/static/avatars/a.png".to_string()), Ok(()));
    assert_eq!(s.users[0].avatar_url.as_deref(), Some("/static/avatars/a.png"));
    assert_eq!(
        s.set_avatar_url(9, "/x".to_string()),
        Err(OpError::NotFound)
    );
}

#[test]
fn credentials_come_back_by_username() {
    let mut s = Store::new();
    s.register_at(7, 0, "alice".to_string(), "h7".to_string()).unwrap();
    let (id, hash) = s.find_credentials(&"alice".to_string()).unwrap();
    assert_eq!(id, 7);
    assert_eq!(hash, "h7");
    assert!(s.find_credentials(&"bob".to_string()).is_none());
}

#[test]
fn user_info_returns_the_record() {
    let mut s = Store::new();
    user(&mut s, 1, "alice");
    let u = s.get_user_info(1).unwrap();
    assert_eq!(u.id, 1);
    assert_eq!(u.username, "alice");
    assert!(s.get_user_info(2).is_none());
}

#[test]
fn status_labels_are_the_wire_literals() {
    assert_eq!(TaskStatus::Open.label(), "open");
    assert_eq!(TaskStatus::Finished.label(), "finished");
    assert_eq!(taskboard::model::SubTaskStatus::NotStarted.label(), "not started");
    assert_eq!(taskboard::model::SubTaskStatus::InProgress.label(), "in progress");
    assert_eq!(taskboard::model::SubTaskStatus::Done.label(), "done");
}
