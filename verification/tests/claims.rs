use taskboard::model::{ClaimRoleInput, OpError, SubTaskInput, SubTaskUpdateInput, TaskInput};
use taskboard::store::Store;

fn user(store: &mut Store, id: u128, name: &str) {
    store
        .register_at(id, 0, name.to_string(), "hash".to_string())
        .unwrap();
}

fn task(store: &mut Store, id: u128, creator: u128, slots: &[(u128, &str)], now: i64) {
    let input = TaskInput {
        title: format!("task {}", id),
        description: "desc".to_string(),
        creator_id: creator,
        team_size: slots.len() as i32,
        roles: slots.iter().map(|(_, n)| n.to_string()).collect(),
    };
    let ids: Vec<u128> = slots.iter().map(|(i, _)| *i).collect();
    store.create_task_at(id, &ids, now, &input).unwrap();
}

fn claim(store: &mut Store, role_id: u128, user_id: u128) -> Result<(), OpError> {
    store.claim_role(&ClaimRoleInput { role_id, user_id })
}

#[test]
fn claim_open_slot_succeeds() {
    let mut s = Store::new();
    user(&mut s, 1, "alice");
    task(&mut s, 100, 1, &[(11, "leader")], 5);
    assert_eq!(claim(&mut s, 11, 1), Ok(()));
    assert_eq!(s.roles[0].user_id, Some(1));
}

#[test]
fn claim_already_claimed_slot_conflicts() {
    let mut s = Store::new();
    user(&mut s, 1, "alice");
    user(&mut s, 2, "bob");
    task(&mut s, 100, 1, &[(11, "leader")], 5);
    assert_eq!(claim(&mut s, 11, 1), Ok(()));
    assert_eq!(claim(&mut s, 11, 2), Err(OpError::Conflict));
    // the loser changed nothing: the winner still holds the slot
    assert_eq!(s.roles[0].user_id, Some(1));
}

#[test]
fn claim_unknown_slot_conflicts() {
    let mut s = Store::new();
    user(&mut s, 1, "alice");
    task(&mut s, 100, 1, &[(11, "leader")], 5);
    assert_eq!(claim(&mut s, 99, 1), Err(OpError::Conflict));
}

#[test]
fn claim_by_unknown_user_conflicts() {
    let mut s = Store::new();
    user(&mut s, 1, "alice");
    task(&mut s, 100, 1, &[(11, "leader")], 5);
    assert_eq!(claim(&mut s, 11, 42), Err(OpError::Conflict));
    assert_eq!(s.roles[0].user_id, None);
}

#[test]
fn duplicate_role_names_are_independent_slots() {
    let mut s = Store::new();
    user(&mut s, 1, "alice");
    user(&mut s, 2, "bob");
    task(&mut s, 100, 1, &[(11, "writer"), (12, "writer")], 5);
    assert_eq!(claim(&mut s, 11, 1), Ok(()));
    assert_eq!(claim(&mut s, 12, 2), Ok(()));
    assert_eq!(s.roles[0].user_id, Some(1));
    assert_eq!(s.roles[1].user_id, Some(2));
}

#[test]
fn release_without_claimant_is_silent_success() {
    let mut s = Store::new();
    user(&mut s, 1, "alice");
    task(&mut s, 100, 1, &[(11, "leader")], 5);
    s.remove_member_from_task_role(11);
    s.remove_member_from_task_role(999);
    assert_eq!(s.roles[0].user_id, None);
    assert_eq!(s.roles.len(), 1);
}

#[test]
fn release_clears_member_across_whole_task() {
    let mut s = Store::new();
    user(&mut s, 1, "alice");
    user(&mut s, 2, "bob");
    task(&mut s, 100, 1, &[(11, "leader"), (12, "writer"), (13, "writer")], 5);
    task(&mut s, 200, 1, &[(21, "leader")], 6);
    assert_eq!(claim(&mut s, 11, 1), Ok(()));
    assert_eq!(claim(&mut s, 12, 1), Ok(()));
    assert_eq!(claim(&mut s, 13, 2), Ok(()));
    assert_eq!(claim(&mut s, 21, 1), Ok(()));
    // two sub-tasks of task 100: one assigned to alice, one to bob
    let st = SubTaskInput { title: "st".to_string(), description: None, due_date: None };
    s.create_sub_task_at(100, 31, 7, &st).unwrap();
    s.create_sub_task_at(100, 32, 8, &st).unwrap();
    let up = |a| SubTaskUpdateInput {
        title: "st".to_string(),
        description: None,
        due_date: None,
        assignee_id: Some(a),
    };
    s.update_sub_task(31, &up(1)).unwrap();
    s.update_sub_task(32, &up(2)).unwrap();
    // releasing through one of alice's slots clears her from all of task 100
    s.remove_member_from_task_role(12);
    assert_eq!(s.roles[0].user_id, None);
    assert_eq!(s.roles[1].user_id, None);
    assert_eq!(s.roles[2].user_id, Some(2));
    assert_eq!(s.sub_tasks[0].assignee_id, None);
    assert_eq!(s.sub_tasks[1].assignee_id, Some(2));
    // her slot on the other task is untouched
    assert_eq!(s.roles[3].user_id, Some(1));
}

#[test]
fn released_slot_is_claimable_again() {
    let mut s = Store::new();
    user(&mut s, 1, "alice");
    user(&mut s, 2, "bob");
    task(&mut s, 100, 1, &[(11, "leader"), (12, "writer")], 5);
    assert_eq!(claim(&mut s, 11, 1), Ok(()));
    assert_eq!(claim(&mut s, 11, 2), Err(OpError::Conflict));
    s.remove_member_from_task_role(11);
    assert_eq!(s.roles[0].user_id, None);
    assert_eq!(s.roles[1].user_id, None);
    assert_eq!(claim(&mut s, 11, 2), Ok(()));
    assert_eq!(s.roles[0].user_id, Some(2));
}

#[test]
fn task_roles_join_claimant_profile() {
    let mut s = Store::new();
    user(&mut s, 1, "alice");
    task(&mut s, 100, 1, &[(11, "leader"), (12, "writer")], 5);
    assert_eq!(claim(&mut s, 11, 1), Ok(()));
    let roles = s.get_task_roles(100);
    assert_eq!(roles.len(), 2);
    assert_eq!(roles[0].role_id, 11);
    assert_eq!(roles[0].role_name, "leader");
    assert_eq!(roles[0].user_id, Some(1));
    assert_eq!(roles[0].username.as_deref(), Some("alice"));
    assert_eq!(roles[0].name, None);
    assert_eq!(roles[1].role_id, 12);
    assert_eq!(roles[1].user_id, None);
    assert_eq!(roles[1].username, None);
}
