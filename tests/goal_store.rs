use goal_store::add_requirement;
use goal_store::delete_goal;
use goal_store::make_goal;
use goal_store::remove_requirement;
use goal_store::AppError;
use goal_store::Model;

#[test]
fn create_goal_assigns_fresh_ids() {
    let mut m = Model::new();
    let g = make_goal(&mut m, "write report");
    assert_eq!(g.id, 0);
    assert_eq!(g.title, "write report");
    assert!(!g.completed);
    let h = make_goal(&mut m, "");
    assert_eq!(h.id, 1);
    assert_eq!(h.title, "");
    assert!(!h.completed);
}

#[test]
fn ids_are_not_reused_after_delete() {
    let mut m = Model::new();
    make_goal(&mut m, "a");
    make_goal(&mut m, "b");
    assert_eq!(delete_goal(&mut m, &1).unwrap().id, 1);
    let c = make_goal(&mut m, "c");
    assert_eq!(c.id, 2);
    assert_eq!(c.title, "c");
}

#[test]
fn add_requirement_twice_is_idempotent() {
    let mut m = Model::new();
    make_goal(&mut m, "p");
    make_goal(&mut m, "c");
    assert_eq!(add_requirement(&mut m, 0, 1), Ok(()));
    assert_eq!(add_requirement(&mut m, 0, 1), Ok(()));
    assert!(remove_requirement(&mut m, 0, 1));
    assert!(!remove_requirement(&mut m, 0, 1));
    assert_eq!(delete_goal(&mut m, &0).unwrap().id, 0);
}

#[test]
fn add_requirement_reports_missing_parent_first() {
    let mut m = Model::new();
    make_goal(&mut m, "only");
    assert_eq!(add_requirement(&mut m, 5, 7), Err(AppError::GoalIdNotFound(5)));
    assert_eq!(add_requirement(&mut m, 5, 0), Err(AppError::GoalIdNotFound(5)));
    assert_eq!(add_requirement(&mut m, 0, 7), Err(AppError::GoalIdNotFound(7)));
    // a failed add leaves nothing behind
    assert!(!remove_requirement(&mut m, 0, 7));
    assert_eq!(delete_goal(&mut m, &0).unwrap().title, "only");
}

#[test]
fn add_requirement_on_empty_store_fails() {
    let mut m = Model::new();
    assert_eq!(add_requirement(&mut m, 0, 0), Err(AppError::GoalIdNotFound(0)));
}

#[test]
fn self_requirement_is_accepted() {
    let mut m = Model::new();
    make_goal(&mut m, "loop");
    assert_eq!(add_requirement(&mut m, 0, 0), Ok(()));
    assert_eq!(delete_goal(&mut m, &0).err(), Some(AppError::ChildrenGoalsExist));
    assert!(remove_requirement(&mut m, 0, 0));
    assert_eq!(delete_goal(&mut m, &0).unwrap().id, 0);
}

#[test]
fn remove_requirement_reports_what_was_there() {
    let mut m = Model::new();
    make_goal(&mut m, "a");
    make_goal(&mut m, "b");
    make_goal(&mut m, "c");
    // no requirement set at all
    assert!(!remove_requirement(&mut m, 0, 1));
    // ids that name no goal
    assert!(!remove_requirement(&mut m, 40, 41));
    assert_eq!(add_requirement(&mut m, 0, 2), Ok(()));
    // a set that does not hold the child
    assert!(!remove_requirement(&mut m, 0, 1));
    assert!(remove_requirement(&mut m, 0, 2));
    assert!(!remove_requirement(&mut m, 0, 2));
}

#[test]
fn remove_requirement_takes_out_the_child_not_a_position() {
    let mut m = Model::new();
    for t in ["a", "b", "c", "d"] {
        make_goal(&mut m, t);
    }
    assert_eq!(add_requirement(&mut m, 0, 3), Ok(()));
    assert_eq!(add_requirement(&mut m, 0, 0), Ok(()));
    assert!(remove_requirement(&mut m, 0, 3));
    // goal 0 still requires itself
    assert!(remove_requirement(&mut m, 0, 0));
    assert!(!remove_requirement(&mut m, 0, 3));
}

#[test]
fn delete_blocked_while_children_exist() {
    let mut m = Model::new();
    make_goal(&mut m, "parent");
    make_goal(&mut m, "x");
    make_goal(&mut m, "y");
    assert_eq!(add_requirement(&mut m, 0, 1), Ok(()));
    assert_eq!(add_requirement(&mut m, 0, 2), Ok(()));
    assert_eq!(delete_goal(&mut m, &0).err(), Some(AppError::ChildrenGoalsExist));
    assert!(remove_requirement(&mut m, 0, 1));
    assert_eq!(delete_goal(&mut m, &0).err(), Some(AppError::ChildrenGoalsExist));
    assert!(remove_requirement(&mut m, 0, 2));
    let g = delete_goal(&mut m, &0).unwrap();
    assert_eq!(g.id, 0);
    assert_eq!(g.title, "parent");
    assert!(!g.completed);
}

#[test]
fn delete_child_leaves_parent_requirement() {
    let mut m = Model::new();
    make_goal(&mut m, "parent");
    make_goal(&mut m, "child");
    assert_eq!(add_requirement(&mut m, 0, 1), Ok(()));
    assert_eq!(delete_goal(&mut m, &1).unwrap().title, "child");
    // the parent still lists the deleted child
    assert_eq!(delete_goal(&mut m, &0).err(), Some(AppError::ChildrenGoalsExist));
    assert!(remove_requirement(&mut m, 0, 1));
    assert_eq!(delete_goal(&mut m, &0).unwrap().id, 0);
}

#[test]
fn delete_unknown_goal_not_found() {
    let mut m = Model::new();
    assert_eq!(delete_goal(&mut m, &0).err(), Some(AppError::GoalIdNotFound(0)));
    make_goal(&mut m, "a");
    assert_eq!(delete_goal(&mut m, &usize::MAX).err(), Some(AppError::GoalIdNotFound(usize::MAX)));
    assert_eq!(delete_goal(&mut m, &0).unwrap().id, 0);
    assert_eq!(delete_goal(&mut m, &0).err(), Some(AppError::GoalIdNotFound(0)));
}

#[test]
fn scenario_require_block_remove_delete() {
    let mut m = Model::new();
    assert_eq!(make_goal(&mut m, "A").id, 0);
    assert_eq!(make_goal(&mut m, "B").id, 1);
    assert_eq!(add_requirement(&mut m, 0, 1), Ok(()));
    assert_eq!(delete_goal(&mut m, &0).err(), Some(AppError::ChildrenGoalsExist));
    assert!(remove_requirement(&mut m, 0, 1));
    let a = delete_goal(&mut m, &0).unwrap();
    assert_eq!(a.id, 0);
    assert_eq!(a.title, "A");
    assert!(!a.completed);
    assert_eq!(delete_goal(&mut m, &0).err(), Some(AppError::GoalIdNotFound(0)));
}

#[test]
fn scenario_missing_child() {
    let mut m = Model::new();
    assert_eq!(make_goal(&mut m, "C").id, 0);
    assert_eq!(add_requirement(&mut m, 0, 99), Err(AppError::GoalIdNotFound(99)));
}
