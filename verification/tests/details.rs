use taskboard::model::{
    ClaimRoleInput, EvaluationInput, FinishTaskInput, MessageInput, OpError, ProgressInput,
    SubTaskInput, SubTaskStatus, SubTaskUpdateInput, TaskInput, TaskStatus, UpdateProfileInput,
};
use taskboard::store::Store;

fn user(store: &mut Store, id: u128, name: &str) {
    store
        .register_at(id, 0, name.to_string(), "hash".to_string())
        .unwrap();
}

fn task_at(store: &mut Store, id: u128, creator: u128, slots: &[(u128, &str)], now: i64) {
    let input = TaskInput {
        title: format!("task {}", id),
        description: "desc".to_string(),
        creator_id: creator,
        team_size: slots.len() as i32,
        roles: slots.iter().map(|(_, n)| n.to_string()).collect(),
    };
    let ids: Vec<u128> = slots.iter().map(|(i, _)| *i).collect();
    store.create_task_at(id, &ids, now, &input).unwrap();
}

fn sub(title: &str) -> SubTaskInput {
    SubTaskInput { title: title.to_string(), description: None, due_date: None }
}

#[test]
fn sub_task_starts_not_started_and_unassigned() {
    let mut s = Store::new();
    user(&mut s, 1, "alice");
    task_at(&mut s, 100, 1, &[], 5);
    assert_eq!(s.create_sub_task_at(100, 31, 6, &sub("a")), Ok(()));
    assert_eq!(s.sub_tasks[0].status, SubTaskStatus::NotStarted);
    assert_eq!(s.sub_tasks[0].assignee_id, None);
    assert_eq!(s.sub_tasks[0].title, "a");
}

#[test]
fn sub_task_creation_needs_an_existing_task() {
    let mut s = Store::new();
    user(&mut s, 1, "alice");
    assert_eq!(s.create_sub_task_at(100, 31, 6, &sub("a")), Err(OpError::Store));
    assert_eq!(s.sub_tasks.len(), 0);
    task_at(&mut s, 100, 1, &[], 5);
    assert!(s.create_sub_task(999, &sub("a")).is_err());
    let id = s.create_sub_task(100, &sub("a")).unwrap();
    assert!(s.find_sub_task_index(id).is_some());
}

#[test]
fn sub_task_update_replaces_all_four_fields() {
    let mut s = Store::new();
    user(&mut s, 1, "alice");
    task_at(&mut s, 100, 1, &[], 5);
    s.create_sub_task_at(100, 31, 6, &sub("a")).unwrap();
    let r = s.update_sub_task(31, &SubTaskUpdateInput {
        title: "b".to_string(),
        description: Some("d".to_string()),
        due_date: Some(99),
        assignee_id: Some(1),
    });
    assert_eq!(r, Ok(()));
    assert_eq!(s.sub_tasks[0].title, "b");
    assert_eq!(s.sub_tasks[0].description.as_deref(), Some("d"));
    assert_eq!(s.sub_tasks[0].due_date, Some(99));
    assert_eq!(s.sub_tasks[0].assignee_id, Some(1));
    // unassigning works through the same path
    let r = s.update_sub_task(31, &SubTaskUpdateInput {
        title: "b".to_string(),
        description: None,
        due_date: None,
        assignee_id: None,
    });
    assert_eq!(r, Ok(()));
    assert_eq!(s.sub_tasks[0].assignee_id, None);
}

#[test]
fn sub_task_update_of_missing_row_still_succeeds() {
    let mut s = Store::new();
    let r = s.update_sub_task(31, &SubTaskUpdateInput {
        title: "b".to_string(),
        description: None,
        due_date: None,
        assignee_id: None,
    });
    assert_eq!(r, Ok(()));
}

#[test]
fn sub_task_update_with_unknown_assignee_is_a_store_error() {
    let mut s = Store::new();
    user(&mut s, 1, "alice");
    task_at(&mut s, 100, 1, &[], 5);
    s.create_sub_task_at(100, 31, 6, &sub("a")).unwrap();
    let r = s.update_sub_task(31, &SubTaskUpdateInput {
        title: "b".to_string(),
        description: None,
        due_date: None,
        assignee_id: Some(42),
    });
    assert_eq!(r, Err(OpError::Store));
    assert_eq!(s.sub_tasks[0].title, "a");
}

#[test]
fn sub_task_delete_reports_not_found_once_gone() {
    let mut s = Store::new();
    user(&mut s, 1, "alice");
    task_at(&mut s, 100, 1, &[], 5);
    s.create_sub_task_at(100, 31, 6, &sub("a")).unwrap();
    assert_eq!(s.delete_sub_task(31), Ok(()));
    assert_eq!(s.sub_tasks.len(), 0);
    assert_eq!(s.delete_sub_task(31), Err(OpError::NotFound));
}

#[test]
fn sub_task_listing_is_oldest_first_with_assignee_names() {
    let mut s = Store::new();
    user(&mut s, 1, "alice");
    user(&mut s, 2, "bob");
    s.update_user_profile(&UpdateProfileInput {
        user_id: 2,
        name: "Bob".to_string(),
        phone: None,
        student_id: None,
        email: None,
    })
    .unwrap();
    task_at(&mut s, 100, 1, &[], 5);
    s.create_sub_task_at(100, 31, 9, &sub("late")).unwrap();
    s.create_sub_task_at(100, 32, 6, &sub("early")).unwrap();
    let assign = |a| SubTaskUpdateInput {
        title: "x".to_string(),
        description: None,
        due_date: None,
        assignee_id: Some(a),
    };
    s.update_sub_task(31, &SubTaskUpdateInput { title: "late".to_string(), ..assign(1) })
        .unwrap();
    s.update_sub_task(32, &SubTaskUpdateInput { title: "early".to_string(), ..assign(2) })
        .unwrap();
    let list = s.list_sub_tasks(100);
    assert_eq!(list.len(), 2);
    assert_eq!(list[0].id, 32);
    assert_eq!(list[1].id, 31);
    // a user without a display name is shown by username; one with a name by name
    assert_eq!(list[0].assignee_name.as_deref(), Some("Bob"));
    assert_eq!(list[1].assignee_name.as_deref(), Some("alice"));
}

#[test]
fn my_roles_orders_open_before_finished_newest_first() {
    let mut s = Store::new();
    user(&mut s, 1, "alice");
    task_at(&mut s, 100, 1, &[(11, "a")], 5);
    task_at(&mut s, 200, 1, &[(21, "b")], 9);
    task_at(&mut s, 300, 1, &[(31, "c")], 7);
    for r in [11, 21, 31] {
        s.claim_role(&ClaimRoleInput { role_id: r, user_id: 1 }).unwrap();
    }
    // the oldest task is finished; it must come last despite creation order
    s.finish_task(&FinishTaskInput { task_id: 100 });
    let mine = s.get_my_roles(1);
    assert_eq!(mine.len(), 3);
    assert_eq!(mine[0].task_id, 200);
    assert_eq!(mine[0].status, TaskStatus::Open);
    assert_eq!(mine[1].task_id, 300);
    assert_eq!(mine[1].status, TaskStatus::Open);
    assert_eq!(mine[2].task_id, 100);
    assert_eq!(mine[2].status, TaskStatus::Finished);
    assert_eq!(mine[0].role_name, "b");
}

#[test]
fn my_published_tasks_carry_rosters_open_first() {
    let mut s = Store::new();
    user(&mut s, 1, "alice");
    user(&mut s, 2, "bob");
    task_at(&mut s, 100, 1, &[(11, "leader"), (12, "writer")], 5);
    task_at(&mut s, 200, 1, &[], 6);
    task_at(&mut s, 300, 2, &[], 7);
    s.claim_role(&ClaimRoleInput { role_id: 11, user_id: 2 }).unwrap();
    s.finish_task(&FinishTaskInput { task_id: 100 });
    let mine = s.get_my_published_tasks(1);
    assert_eq!(mine.len(), 2);
    assert_eq!(mine[0].id, 200);
    assert_eq!(mine[0].status, TaskStatus::Open);
    assert_eq!(mine[1].id, 100);
    assert_eq!(mine[1].status, TaskStatus::Finished);
    let members = &mine[1].members;
    assert_eq!(members.len(), 2);
    assert_eq!(members[0].role_name, "leader");
    assert_eq!(members[0].username, "bob");
    assert_eq!(members[0].name, "");
    assert_eq!(members[1].role_name, "writer");
    assert_eq!(members[1].username, "");
    assert_eq!(members[1].phone, None);
}

#[test]
fn progress_needs_a_task_and_lists_newest_first() {
    let mut s = Store::new();
    user(&mut s, 1, "alice");
    task_at(&mut s, 100, 1, &[], 5);
    let p = |c: &str, pc| ProgressInput {
        task_id: 100,
        content: c.to_string(),
        percent: pc,
    };
    assert_eq!(
        s.add_progress(&ProgressInput { task_id: 9, content: "x".to_string(), percent: 1 }),
        Err(OpError::Store)
    );
    s.add_progress_at(41, 6, &p("first", 10)).unwrap();
    s.add_progress_at(42, 8, &p("second", 60)).unwrap();
    let list = s.list_progress(100);
    assert_eq!(list.len(), 2);
    assert_eq!(list[0].content, "second");
    assert_eq!(list[0].percent, 60);
    assert_eq!(list[1].content, "first");
}

#[test]
fn evaluations_list_newest_first() {
    let mut s = Store::new();
    user(&mut s, 1, "alice");
    task_at(&mut s, 100, 1, &[], 5);
    let e = |c: &str, rate| EvaluationInput {
        task_id: 100,
        username: "alice".to_string(),
        content: c.to_string(),
        rate,
    };
    s.add_evaluation_at(51, 6, &e("ok", 3)).unwrap();
    s.add_evaluation_at(52, 8, &e("great", 5)).unwrap();
    assert!(s
        .add_evaluation(&EvaluationInput {
            task_id: 9,
            username: "a".to_string(),
            content: "x".to_string(),
            rate: 1,
        })
        .is_err());
    let list = s.list_evaluations(100);
    assert_eq!(list.len(), 2);
    assert_eq!(list[0].content, "great");
    assert_eq!(list[0].rate, 5);
    assert_eq!(list[1].content, "ok");
}

#[test]
fn messages_list_oldest_first() {
    let mut s = Store::new();
    let m = |u: &str, c: &str| MessageInput { username: u.to_string(), content: c.to_string() };
    s.add_message_at(61, 9, &m("alice", "later")).unwrap();
    s.add_message_at(62, 3, &m("bob", "earlier")).unwrap();
    let id = s.add_message(&m("carol", "hi")).unwrap();
    assert!(s.messages.iter().any(|x| x.id == id));
    let list = s.list_messages();
    assert_eq!(list.len(), 3);
    assert_eq!(list[0].content, "earlier");
    assert_eq!(list[1].content, "later");
}
