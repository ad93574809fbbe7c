use sentinel_core::error::{GoalError, SentinelError};
use sentinel_core::dag::GoalDag;
use sentinel_core::goal::{Goal, GoalStatus};
use sentinel_core::predicate::Predicate;

fn create_test_goal(desc: &str) -> Goal {
    let mut g = Goal::new(desc.to_string());
    g.success_criteria.push(Predicate::AlwaysTrue);
    g
}

#[test]
fn test_dag_creation() {
    let dag = GoalDag::new();
    assert!(dag.is_empty());
    assert_eq!(dag.len(), 0);
}

#[test]
fn test_add_goal() {
    let mut dag = GoalDag::new();
    let goal = create_test_goal("Test goal");
    let id = goal.id;

    dag.add_goal(goal).unwrap();

    assert_eq!(dag.len(), 1);
    assert!(dag.get_goal(id).is_some());
}

#[test]
fn test_add_dependency() {
    let mut dag = GoalDag::new();
    let goal1 = create_test_goal("Goal 1");
    let goal2 = create_test_goal("Goal 2");
    let id1 = goal1.id;
    let id2 = goal2.id;
    dag.add_goal(goal1).unwrap();
    dag.add_goal(goal2).unwrap();

    dag.add_dependency(id1, id2).unwrap();

    let deps = dag.get_dependencies(id1).unwrap();
    assert_eq!(deps.len(), 1);
    assert_eq!(deps[0], id2);
}

#[test]
fn test_cycle_detection() {
    let mut dag = GoalDag::new();
    let goal1 = create_test_goal("Goal 1");
    let goal2 = create_test_goal("Goal 2");
    let id1 = goal1.id;
    let id2 = goal2.id;
    dag.add_goal(goal1).unwrap();
    dag.add_goal(goal2).unwrap();

    dag.add_dependency(id1, id2).unwrap();

    let result = dag.add_dependency(id2, id1);
    assert!(result.is_err());
}

#[test]
fn test_topological_sort() {
    let mut dag = GoalDag::new();
    let goal1 = create_test_goal("Goal 1");
    let goal2 = create_test_goal("Goal 2");
    let goal3 = create_test_goal("Goal 3");
    let id1 = goal1.id;
    let id2 = goal2.id;
    let id3 = goal3.id;
    dag.add_goal(goal1).unwrap();
    dag.add_goal(goal2).unwrap();
    dag.add_goal(goal3).unwrap();

    dag.add_dependency(id1, id2).unwrap();
    dag.add_dependency(id2, id3).unwrap();

    let sorted = dag.topological_sort().unwrap();
    assert_eq!(sorted.len(), 3);

    let pos1 = sorted.iter().position(|g| *g == id1).unwrap();
    let pos2 = sorted.iter().position(|g| *g == id2).unwrap();
    let pos3 = sorted.iter().position(|g| *g == id3).unwrap();

    assert!(pos3 < pos2);
    assert!(pos2 < pos1);
}

#[test]
fn test_dependencies_satisfied() {
    let mut dag = GoalDag::new();
    let goal1 = create_test_goal("Goal 1");
    let goal2 = create_test_goal("Goal 2");
    let id1 = goal1.id;
    let id2 = goal2.id;
    dag.add_goal(goal1).unwrap();
    dag.add_goal(goal2).unwrap();

    dag.add_dependency(id1, id2).unwrap();

    assert!(!dag.dependencies_satisfied(id1));

    // Complete goal 2 (its status is set where the original steps through
    // ready, in progress and validating).
    let goal2_mut = dag.get_goal_mut(id2).unwrap();
    goal2_mut.status = GoalStatus::Completed;

    assert!(dag.dependencies_satisfied(id1));
}

#[test]
fn test_remove_goal() {
    let mut dag = GoalDag::new();
    let goal = create_test_goal("Test goal");
    let id = goal.id;

    dag.add_goal(goal).unwrap();
    assert_eq!(dag.len(), 1);

    let removed = dag.remove_goal(id).unwrap();
    assert_eq!(removed.id, id);
    assert_eq!(dag.len(), 0);
}

#[test]
fn test_get_dependents() {
    let mut dag = GoalDag::new();
    let goal1 = create_test_goal("Goal 1");
    let goal2 = create_test_goal("Goal 2");
    let goal3 = create_test_goal("Goal 3");
    let id1 = goal1.id;
    let id2 = goal2.id;
    let id3 = goal3.id;
    dag.add_goal(goal1).unwrap();
    dag.add_goal(goal2).unwrap();
    dag.add_goal(goal3).unwrap();

    dag.add_dependency(id1, id3).unwrap();
    dag.add_dependency(id2, id3).unwrap();

    let dependents = dag.get_dependents(id3).unwrap();
    assert_eq!(dependents.len(), 2);
    assert!(dependents.contains(&id1));
    assert!(dependents.contains(&id2));
}

#[test]
fn test_goal_creation() {
    let goal = Goal::new("Test goal".to_string());
    assert_eq!(goal.description, "Test goal");
    assert_eq!(goal.status, GoalStatus::Pending);
}

#[test]
fn test_goal_validation_empty_criteria() {
    let goal = Goal::new("Test".to_string());
    assert!(goal.validate().is_err());
}

#[test]
fn test_goal_validation_invalid_value() {
    let mut goal = Goal::new("Test".to_string());
    goal.success_criteria.push(Predicate::AlwaysTrue);
    goal.value_to_root = 1.5f64.to_bits();

    assert!(goal.validate().is_err());
}

#[test]
fn test_goal_notes_and_tags() {
    let mut goal = create_test_goal("Test");

    goal.add_note("First attempt".to_string());
    goal.add_tag("critical".to_string());
    goal.add_tag("frontend".to_string());

    assert_eq!(goal.metadata.notes.len(), 1);
    assert_eq!(goal.metadata.tags.len(), 2);
}

#[test]
fn goal_complexity_must_lie_between_zero_and_ten() {
    let mut goal = Goal::new("Test".to_string());
    goal.success_criteria.push(Predicate::AlwaysTrue);
    assert_eq!(f64::from_bits(goal.complexity_mean), 5.0);
    assert!(goal.validate().is_ok());
    goal.complexity_mean = 10.0f64.to_bits();
    assert!(goal.validate().is_ok());
    goal.complexity_mean = 10.5f64.to_bits();
    match goal.validate() {
        Err(SentinelError::Goal(GoalError::ComplexityOutOfRange(b))) => assert_eq!(f64::from_bits(b), 10.5),
        other => panic!("unexpected {:?}", other),
    }
    goal.complexity_mean = (-1.0f64).to_bits();
    assert!(goal.validate().is_err());
    goal.complexity_mean = f64::NAN.to_bits();
    assert!(goal.validate().is_err());
}

#[test]
fn test_test_results() {
    let results = sentinel_core::alignment::TestResults {
        suite: "unit".to_string(),
        total: 100,
        passed: 95,
        failed: 5,
        skipped: 0,
        coverage: 0.85f64.to_bits(),
        duration: 10.5f64.to_bits(),
    };

    assert!(!results.all_passed());
    let all = sentinel_core::alignment::TestResults { passed: 98, failed: 0, skipped: 2, ..results };
    assert!(all.all_passed());
}

#[test]
fn test_goal_state_progress() {
    let goal_state = sentinel_core::alignment::GoalState {
        id: 7,
        status: GoalStatus::InProgress,
        completion: 0.0f64.to_bits(),
        criteria_satisfied: 3,
        criteria_total: 5,
    };

    assert!(!goal_state.is_complete());
    let goal = create_test_goal("Ship");
    let taken = sentinel_core::alignment::GoalState::from_goal(&goal);
    assert_eq!(taken.criteria_total, 1);
    assert_eq!(taken.criteria_satisfied, 0);
    assert!(!taken.is_complete());
    let done = sentinel_core::alignment::GoalState { status: GoalStatus::Completed, ..taken };
    assert!(done.is_complete());
}

#[test]
fn builder_requires_a_description_and_a_valid_goal() {
    match Goal::builder().add_success_criterion(Predicate::AlwaysTrue).build() {
        Err(SentinelError::Goal(GoalError::InvalidComplexity(m))) => assert_eq!(m, "Description required"),
        other => panic!("unexpected {:?}", other.map(|g| g.id)),
    }
    match Goal::builder().description("No criteria".to_string()).build() {
        Err(SentinelError::Goal(GoalError::EmptySuccessCriteria)) => {}
        other => panic!("unexpected {:?}", other.map(|g| g.id)),
    }
    let g = Goal::builder()
        .description("Goal 1".to_string())
        .add_success_criterion(Predicate::AlwaysTrue)
        .add_dependency(7)
        .add_tag("core".to_string())
        .value_to_root(0.5f64.to_bits())
        .build()
        .unwrap();
    assert_eq!(g.description, "Goal 1");
    assert_eq!(g.dependencies, vec![7]);
    assert_eq!(g.metadata.tags, vec!["core".to_string()]);
    assert_eq!(g.status, GoalStatus::Pending);
    assert!(Goal::builder()
        .description("Too complex".to_string())
        .add_success_criterion(Predicate::AlwaysTrue)
        .complexity(11.0f64.to_bits())
        .build()
        .is_err());
}
