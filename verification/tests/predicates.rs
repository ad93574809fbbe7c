use sentinel_core::predicate::Predicate;

fn file(p: &str) -> Predicate {
    Predicate::FileExists(p.to_string())
}

#[test]
fn test_predicate_simplify_and() {
    let pred = Predicate::And(vec![Predicate::AlwaysTrue, file("main.rs")]);
    let simplified = pred.simplify();
    assert!(matches!(simplified, Predicate::FileExists(_)));
}

#[test]
fn test_predicate_simplify_and_with_false() {
    let pred = Predicate::And(vec![Predicate::AlwaysFalse, file("main.rs")]);
    let simplified = pred.simplify();
    assert!(matches!(simplified, Predicate::AlwaysFalse));
}

#[test]
fn test_predicate_simplify_or() {
    let pred = Predicate::Or(vec![Predicate::AlwaysFalse, file("main.rs")]);
    let simplified = pred.simplify();
    assert!(matches!(simplified, Predicate::FileExists(_)));
}

#[test]
fn test_predicate_simplify_double_negation() {
    let pred = Predicate::Not(Box::new(Predicate::Not(Box::new(file("main.rs")))));
    let simplified = pred.simplify();
    assert!(matches!(simplified, Predicate::FileExists(_)));
}

#[test]
fn test_predicate_complexity() {
    assert_eq!(Predicate::AlwaysTrue.complexity(), 0);
    assert_eq!(file("main.rs").complexity(), 1);
    assert!(
        Predicate::TestsPassing { suite: "unit".to_string(), min_coverage: 0.8f64.to_bits() }
            .complexity()
            > 5
    );
}

#[test]
fn test_predicate_requires_external_resources() {
    assert!(!Predicate::AlwaysTrue.requires_external_resources());
    assert!(file("main.rs").requires_external_resources());
    assert!(Predicate::TestsPassing { suite: "unit".to_string(), min_coverage: 0.8f64.to_bits() }
        .requires_external_resources());
}

#[test]
fn simplify_or_with_true_is_true() {
    let pred = Predicate::Or(vec![file("a"), Predicate::AlwaysTrue]);
    assert!(matches!(pred.simplify(), Predicate::AlwaysTrue));
}

#[test]
fn simplify_empty_combinations() {
    assert!(matches!(Predicate::And(vec![]).simplify(), Predicate::AlwaysTrue));
    assert!(matches!(Predicate::Or(vec![]).simplify(), Predicate::AlwaysFalse));
    assert!(matches!(
        Predicate::And(vec![Predicate::AlwaysTrue, Predicate::AlwaysTrue]).simplify(),
        Predicate::AlwaysTrue
    ));
}

#[test]
fn simplify_keeps_several_parts_in_order() {
    let pred = Predicate::And(vec![
        file("a"),
        Predicate::AlwaysTrue,
        Predicate::Not(Box::new(Predicate::Not(Box::new(file("b"))))),
    ]);
    match pred.simplify() {
        Predicate::And(parts) => {
            assert_eq!(parts.len(), 2);
            assert!(matches!(&parts[0], Predicate::FileExists(p) if p == "a"));
            assert!(matches!(&parts[1], Predicate::FileExists(p) if p == "b"));
        }
        _ => panic!("expected a conjunction"),
    }
}

#[test]
fn simplify_negated_constants() {
    assert!(matches!(
        Predicate::Not(Box::new(Predicate::AlwaysTrue)).simplify(),
        Predicate::AlwaysFalse
    ));
    assert!(matches!(
        Predicate::Not(Box::new(Predicate::AlwaysFalse)).simplify(),
        Predicate::AlwaysTrue
    ));
    match Predicate::Not(Box::new(Predicate::And(vec![file("x")]))).simplify() {
        Predicate::Not(inner) => assert!(matches!(*inner, Predicate::FileExists(_))),
        _ => panic!("expected a negation"),
    }
}

#[test]
fn complexity_of_combinations() {
    let nested = Predicate::Or(vec![
        file("a"),
        Predicate::Not(Box::new(Predicate::Custom {
            code: "true".to_string(),
            language: sentinel_core::predicate::PredicateLanguage::Shell,
            description: "c".to_string(),
        })),
    ]);
    // max(1, 8 + 1) + 1
    assert_eq!(nested.complexity(), 10);
    assert_eq!(Predicate::And(vec![]).complexity(), 1);
}

#[test]
fn external_resources_of_combinations() {
    let local = Predicate::And(vec![
        Predicate::AlwaysTrue,
        Predicate::Performance {
            metric: "latency".to_string(),
            threshold: 100.0f64.to_bits(),
            comparison: sentinel_core::predicate::Comparison::LessThanOrEqual,
        },
    ]);
    assert!(!local.requires_external_resources());
    let remote = Predicate::Or(vec![Predicate::AlwaysFalse, Predicate::Not(Box::new(file("a")))]);
    assert!(remote.requires_external_resources());
}

#[test]
fn predicates_describe_themselves_on_one_line() {
    assert_eq!(Predicate::FileExists("src/a.rs".to_string()).to_text(), "FileExists(\"src/a.rs\")");
    assert_eq!(
        Predicate::DirectoryExists("say \"hi\"".to_string()).to_text(),
        "DirectoryExists(\"say \\\"hi\\\"\")"
    );
    assert_eq!(
        Predicate::TestsPassing { suite: "auth".to_string(), min_coverage: 0.8f64.to_bits() }.to_text(),
        "TestsPassing(auth)"
    );
    assert_eq!(
        Predicate::And(vec![Predicate::AlwaysTrue, Predicate::AlwaysFalse, Predicate::AlwaysTrue]).to_text(),
        "And(3 items)"
    );
    assert_eq!(Predicate::Or(vec![]).to_text(), "Or(0 items)");
    assert_eq!(
        Predicate::Not(Box::new(Predicate::Not(Box::new(Predicate::AlwaysTrue)))).to_text(),
        "Not(Not(AlwaysTrue))"
    );
    assert_eq!(
        Predicate::CommandSucceeds { command: "cargo".to_string(), args: vec![], expected_exit_code: 0 }.to_text(),
        "CommandSucceeds(cargo)"
    );
}
