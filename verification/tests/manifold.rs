use sentinel_core::goal::Goal;
use sentinel_core::governance::{GovernanceChangeProposal, GovernanceProposalStatus, Intent};
use sentinel_core::manifold::{GoalManifold, Invariant, InvariantSeverity};
use sentinel_core::predicate::{Predicate, PredicateLanguage};
use sentinel_core::string_map::StringMap;

fn s(x: &str) -> String {
    x.to_string()
}

fn strs(v: &[&str]) -> Vec<String> {
    v.iter().map(|x| x.to_string()).collect()
}

/// A goal with one criterion, as the builder of the original makes it.
fn goal_with(desc: &str, criterion: Predicate, criterion_json: &str, value: f64) -> Goal {
    let mut g = Goal::new(s(desc));
    g.success_criteria.push(criterion);
    g.criteria_json = format!("[{}]", criterion_json);
    g.value_to_root = value.to_bits();
    g
}

fn simple_goal(desc: &str) -> Goal {
    goal_with(desc, Predicate::AlwaysTrue, "\"always_true\"", 0.0)
}

fn empty_proposal() -> GovernanceChangeProposal {
    GovernanceChangeProposal {
        id: uuid::Uuid::new_v4().as_u128(),
        created_at: chrono::Utc::now().timestamp_millis(),
        rationale: String::new(),
        proposed_dependencies: vec![],
        proposed_dependency_removals: vec![],
        proposed_frameworks: vec![],
        proposed_framework_removals: vec![],
        proposed_endpoints: StringMap::new(),
        proposed_endpoint_removals: vec![],
        proposed_ports: vec![],
        proposed_port_removals: vec![],
        deterministic_confidence: 1.0f64.to_bits(),
        evidence: vec![],
        status: GovernanceProposalStatus::PendingUserApproval,
        user_note: None,
    }
}

#[test]
fn test_intent_creation() {
    let intent = Intent::new(s("Build REST API"), strs(&["TypeScript", "PostgreSQL"]))
        .with_outcome(s("Users can authenticate"))
        .with_platform(s("web"))
        .with_language(s("typescript"));

    assert_eq!(intent.description, "Build REST API");
    assert_eq!(intent.constraints.len(), 2);
    assert_eq!(intent.expected_outcomes.len(), 1);
    assert_eq!(intent.target_platform, Some("web".to_string()));
}

#[test]
fn test_manifold_creation() {
    let intent = Intent::new(s("Test project"), strs(&["Constraint 1"]));
    let manifold = GoalManifold::new(intent);

    assert_eq!(manifold.goal_count(), 0);
    assert_eq!(manifold.current_version(), 1);
}

#[test]
fn test_manifold_integrity() {
    let intent = Intent::new(s("Test project"), Vec::new());
    let manifold = GoalManifold::new(intent);

    assert!(manifold.verify_integrity());

    let hash1 = manifold.compute_hash();
    let hash2 = manifold.compute_hash();
    assert_eq!(hash1.bytes, hash2.bytes);
}

#[test]
fn test_add_goal_updates_hash() {
    let intent = Intent::new(s("Test project"), Vec::new());
    let mut manifold = GoalManifold::new(intent);

    let initial_hash = manifold.integrity_hash.bytes;

    manifold.add_goal(simple_goal("Test goal")).unwrap();

    assert_ne!(manifold.integrity_hash.bytes, initial_hash);
    assert!(manifold.verify_integrity());
    assert_eq!(manifold.current_version(), 2);
}

#[test]
fn test_add_invariant() {
    let intent = Intent::new(s("Test project"), Vec::new());
    let mut manifold = GoalManifold::new(intent);

    let invariant = Invariant::critical(s("No hardcoded secrets"), Predicate::AlwaysFalse);
    manifold.add_invariant(invariant).unwrap();

    assert_eq!(manifold.invariants.len(), 1);
    assert!(manifold.verify_integrity());
}

#[test]
fn test_apply_governance_seed_lock_required_to_allowed() {
    let intent = Intent::new(s("Test project"), Vec::new());
    let mut manifold = GoalManifold::new(intent);

    manifold.governance.required_dependencies = strs(&["cargo:legacy"]);
    manifold.governance.required_frameworks = strs(&["framework:legacy"]);
    let mut legacy = empty_proposal();
    legacy.rationale = s("legacy proposal");
    legacy.proposed_dependencies = strs(&["cargo:old"]);
    legacy.proposed_frameworks = strs(&["framework:old"]);
    legacy.proposed_ports = vec![1111];
    legacy.evidence = strs(&["seed reset"]);
    manifold.governance.pending_proposal = Some(legacy);

    manifold.apply_governance_seed(
        strs(&["cargo:tokio", "cargo:serde"]),
        strs(&["framework:axum"]),
        strs(&["/health"]),
        vec![3000, 3001],
        true,
    );

    assert_eq!(
        manifold.governance.allowed_dependencies,
        strs(&["cargo:serde", "cargo:tokio"])
    );
    assert_eq!(
        manifold.governance.required_dependencies,
        manifold.governance.allowed_dependencies
    );
    assert_eq!(
        manifold.governance.required_frameworks,
        manifold.governance.allowed_frameworks
    );
    assert_eq!(manifold.governance.allowed_endpoints.len(), 1);
    assert_eq!(
        manifold.governance.allowed_endpoints.get(&s("seeded_1")),
        Some(&"/health".to_string())
    );
    assert!(manifold.governance.pending_proposal.is_none());
}

#[test]
fn test_apply_governance_seed_intersects_required_when_not_locked() {
    let intent = Intent::new(s("Test project"), Vec::new());
    let mut manifold = GoalManifold::new(intent);
    manifold.governance.required_dependencies = strs(&["cargo:serde", "cargo:nonexistent"]);
    manifold.governance.required_frameworks = strs(&["framework:axum", "framework:legacy"]);

    manifold.apply_governance_seed(
        strs(&["cargo:serde", "cargo:tokio"]),
        strs(&["framework:axum"]),
        vec![],
        vec![],
        false,
    );

    assert_eq!(manifold.governance.required_dependencies, strs(&["cargo:serde"]));
    assert_eq!(manifold.governance.required_frameworks, strs(&["framework:axum"]));
}

#[test]
fn test_approve_governance_proposal_applies_additions_and_removals() {
    let intent = Intent::new(s("Test project"), Vec::new());
    let mut manifold = GoalManifold::new(intent);
    manifold.governance.allowed_dependencies = strs(&["cargo:tokio", "cargo:serde"]);
    manifold.governance.required_dependencies = strs(&["cargo:serde"]);
    manifold.governance.allowed_frameworks = strs(&["framework:axum", "framework:react"]);
    manifold.governance.required_frameworks = strs(&["framework:axum"]);
    manifold
        .governance
        .allowed_endpoints
        .insert(s("api"), s("http://localhost:8080"));
    manifold.governance.allowed_ports = vec![8080, 5173];

    let mut proposed_endpoints = StringMap::new();
    proposed_endpoints.insert(s("preview"), s("http://localhost:4173"));
    let mut proposal = empty_proposal();
    proposal.rationale = s("deterministic contract update");
    proposal.proposed_dependencies = strs(&["cargo:reqwest"]);
    proposal.proposed_dependency_removals = strs(&["cargo:serde"]);
    proposal.proposed_frameworks = strs(&["framework:nextjs"]);
    proposal.proposed_framework_removals = strs(&["framework:axum"]);
    proposal.proposed_endpoints = proposed_endpoints;
    proposal.proposed_endpoint_removals = strs(&["http://localhost:8080"]);
    proposal.proposed_ports = vec![4173];
    proposal.proposed_port_removals = vec![8080];
    proposal.evidence = strs(&["scan"]);
    manifold.record_governance_proposal(proposal);

    let _ = manifold
        .approve_pending_governance_proposal(Some(s("approved")))
        .expect("proposal should be approved");

    let g = &manifold.governance;
    assert!(g.allowed_dependencies.contains(&s("cargo:reqwest")));
    assert!(!g.allowed_dependencies.contains(&s("cargo:serde")));
    assert!(g.allowed_frameworks.contains(&s("framework:nextjs")));
    assert!(!g.allowed_frameworks.contains(&s("framework:axum")));
    assert_eq!(g.required_dependencies, Vec::<String>::new());
    assert_eq!(g.required_frameworks, Vec::<String>::new());
    assert!(g
        .allowed_endpoints
        .values()
        .iter()
        .any(|value| value == "http://localhost:4173"));
    assert!(!g
        .allowed_endpoints
        .values()
        .iter()
        .any(|value| value == "http://localhost:8080"));
    assert!(g.allowed_ports.contains(&4173));
    assert!(!g.allowed_ports.contains(&8080));
    assert!(g.pending_proposal.is_none());
}

#[test]
fn test_end_to_end_workflow() {
    let intent = Intent::new(
        s("Build a task management API"),
        strs(&["TypeScript", "PostgreSQL", "REST"]),
    );
    let mut manifold = GoalManifold::new(intent);

    let mut setup_goal = goal_with(
        "Setup project structure",
        Predicate::FileExists(s("package.json")),
        "{\"file_exists\":\"package.json\"}",
        0.05,
    );
    setup_goal.success_criteria.push(Predicate::FileExists(s("tsconfig.json")));
    setup_goal.criteria_json =
        s("[{\"file_exists\":\"package.json\"},{\"file_exists\":\"tsconfig.json\"}]");
    let mut db_goal = goal_with(
        "Setup database schema",
        Predicate::FileExists(s("migrations/001_init.sql")),
        "{\"file_exists\":\"migrations/001_init.sql\"}",
        0.15,
    );
    db_goal.dependencies.push(setup_goal.id);
    let mut api_goal = goal_with(
        "Implement REST endpoints",
        Predicate::TestsPassing { suite: s("api"), min_coverage: 0.8f64.to_bits() },
        "{\"tests_passing\":{\"suite\":\"api\",\"min_coverage\":0.8}}",
        0.50,
    );
    api_goal.dependencies.push(db_goal.id);

    let setup_id = setup_goal.id;
    let db_id = db_goal.id;

    manifold.add_goal(setup_goal).unwrap();
    manifold.add_goal(db_goal).unwrap();
    manifold.add_goal(api_goal).unwrap();

    assert_eq!(manifold.goal_count(), 3);
    assert!(manifold.verify_integrity());

    // Complete the setup goal (its status is set where the original steps
    // through ready, in progress and validating).
    let setup = manifold.goal_dag.get_goal_mut(setup_id).unwrap();
    setup.status = sentinel_core::goal::GoalStatus::Completed;

    let completed = manifold
        .all_goal_ids()
        .iter()
        .filter(|id| {
            manifold.get_goal(**id).unwrap().status == sentinel_core::goal::GoalStatus::Completed
        })
        .count();
    let completion = completed as f64 / manifold.goal_count() as f64;
    assert!((completion - 0.33).abs() < 0.02);

    assert!(manifold.goal_dag.dependencies_satisfied(db_id));
}

#[test]
fn test_invariant_system() {
    let intent = Intent::new(s("Test project"), Vec::new());
    let mut manifold = GoalManifold::new(intent);

    let invariant = Invariant::critical(
        s("No TODO comments in production"),
        Predicate::Not(Box::new(Predicate::Custom {
            code: s("grep -r TODO src/"),
            language: PredicateLanguage::Shell,
            description: s("Check for TODO comments"),
        })),
    );
    manifold.add_invariant(invariant).unwrap();

    assert_eq!(manifold.invariants.len(), 1);
    assert!(manifold.verify_integrity());
}

#[test]
fn test_version_history() {
    let intent = Intent::new(s("Test project"), Vec::new());
    let mut manifold = GoalManifold::new(intent);

    assert_eq!(manifold.current_version(), 1);

    manifold.add_goal(simple_goal("Goal 1")).unwrap();
    assert_eq!(manifold.current_version(), 2);

    manifold.add_goal(simple_goal("Goal 2")).unwrap();
    assert_eq!(manifold.current_version(), 3);

    let history = manifold.version_history();
    assert_eq!(history.len(), 3);
    assert_eq!(history[0].version, 1);
    assert_eq!(history[1].version, 2);
    assert_eq!(history[2].version, 3);
}

#[test]
fn collect_violations_reports_failed_and_erroring_invariants() {
    let intent = Intent::new(s("Test project"), Vec::new());
    let mut manifold = GoalManifold::new(intent);
    manifold
        .add_invariant(Invariant::critical(s("tests pass"), Predicate::AlwaysTrue))
        .unwrap();
    manifold
        .add_invariant(Invariant::new(s("no secrets"), Predicate::AlwaysFalse, InvariantSeverity::Warning))
        .unwrap();
    manifold
        .add_invariant(Invariant::new(s("api up"), Predicate::AlwaysTrue, InvariantSeverity::Error))
        .unwrap();

    let outcomes = vec![Ok(true), Ok(false), Err(s("timeout"))];
    let violations = manifold.collect_violations(&outcomes);

    assert_eq!(violations.len(), 2);
    assert_eq!(violations[0].invariant_id, manifold.invariants[1].id);
    assert_eq!(violations[0].description, "no secrets");
    assert_eq!(violations[0].severity, InvariantSeverity::Warning);
    assert_eq!(violations[1].invariant_id, manifold.invariants[2].id);
    assert_eq!(violations[1].description, "api up: timeout");
    assert_eq!(violations[1].severity, InvariantSeverity::Error);
}

#[test]
fn all_goals_lists_goals_in_insertion_order() {
    let intent = Intent::new(s("Test project"), Vec::new());
    let mut manifold = GoalManifold::new(intent);
    let a = simple_goal("first");
    let b = simple_goal("second");
    let (ida, idb) = (a.id, b.id);
    manifold.add_goal(a).unwrap();
    manifold.add_goal(b).unwrap();
    let ids: Vec<u128> = manifold.all_goals().iter().map(|g| g.id).collect();
    assert_eq!(ids, vec![ida, idb]);
    assert_eq!(manifold.all_goals()[1].description, "second");
}

#[test]
fn hash_ignores_the_order_of_recorded_sets() {
    let mut manifold = GoalManifold::new(Intent::new(s("Ordered"), strs(&["c1"])));
    manifold.governance.allowed_ports = vec![8080, 5173, 3000];
    manifold.governance.required_dependencies = strs(&["serde", "tokio"]);
    manifold.governance.allowed_dependencies = strs(&["serde", "tokio", "uuid"]);
    let mut endpoints = StringMap::new();
    endpoints.insert(s("api"), s("https://api.example.com"));
    endpoints.insert(s("auth"), s("https://auth.example.com"));
    manifold.governance.allowed_endpoints = endpoints;
    let before = manifold.compute_hash();

    manifold.governance.allowed_ports = vec![3000, 8080, 5173];
    manifold.governance.required_dependencies = strs(&["tokio", "serde", "tokio"]);
    manifold.governance.allowed_dependencies = strs(&["uuid", "serde", "tokio", "serde"]);
    let mut reordered = StringMap::new();
    reordered.insert(s("auth"), s("https://auth.example.com"));
    reordered.insert(s("api"), s("https://api.example.com"));
    manifold.governance.allowed_endpoints = reordered;
    assert_eq!(manifold.compute_hash().bytes, before.bytes);

    manifold.governance.allowed_ports = vec![3000, 8080, 5174];
    assert_ne!(manifold.compute_hash().bytes, before.bytes);
}
