use sentinel_core::error::{PredicateError, SentinelError};
use sentinel_core::predicate::{Comparison, Predicate, PredicateApiResponse, PredicateLanguage};
use sentinel_core::predicate_eval::{
    EvalStep, PredicateAnswer, PredicateQuery, PredicateState, PredicateTestResult,
};

/// Drive evaluation, answering each query with the next canned answer, and
/// record the queries asked.
fn run(pred: &Predicate, state: &PredicateState, canned: Vec<PredicateAnswer>) -> (Result<bool, SentinelError>, Vec<PredicateQuery>) {
    let mut answers = Vec::new();
    let mut asked = Vec::new();
    let mut canned = canned.into_iter();
    loop {
        match pred.evaluate_step(state, &answers) {
            EvalStep::Done(r) => return (r, asked),
            EvalStep::Ask(q) => {
                asked.push(q);
                answers.push(canned.next().expect("an answer for every query"));
            }
        }
    }
}

#[test]
fn test_predicate_evaluate_always_true() {
    let state = PredicateState::new(".".to_string());
    let (result, _) = run(&Predicate::AlwaysTrue, &state, vec![]);
    assert!(result.is_ok());
    assert!(result.unwrap());
}

#[test]
fn test_predicate_evaluate_and() {
    let state = PredicateState::new(".".to_string());
    let pred = Predicate::And(vec![Predicate::AlwaysTrue, Predicate::AlwaysTrue]);
    let (result, _) = run(&pred, &state, vec![]);
    assert!(result.is_ok());
    assert!(result.unwrap());
}

#[test]
fn test_predicate_evaluate_or() {
    let state = PredicateState::new(".".to_string());
    let pred = Predicate::Or(vec![Predicate::AlwaysFalse, Predicate::AlwaysTrue]);
    let (result, _) = run(&pred, &state, vec![]);
    assert!(result.is_ok());
    assert!(result.unwrap());
}

#[test]
fn test_predicate_evaluate_tests_passing() {
    let state = PredicateState::new(".".to_string()).with_test_result(
        "unit".to_string(),
        PredicateTestResult { passed: 20, failed: 0, coverage: 0.9f64.to_bits() },
    );
    let pred = Predicate::TestsPassing { suite: "unit".to_string(), min_coverage: 0.8f64.to_bits() };
    assert!(run(&pred, &state, vec![]).0.unwrap());
}

#[test]
fn test_predicate_evaluate_performance() {
    let state = PredicateState::new(".".to_string()).with_metric("latency_ms".to_string(), 80.0f64.to_bits());
    let pred = Predicate::Performance {
        metric: "latency_ms".to_string(),
        threshold: 100.0f64.to_bits(),
        comparison: Comparison::LessThanOrEqual,
    };
    assert!(run(&pred, &state, vec![]).0.unwrap());
}

#[test]
fn test_predicate_evaluate_api_from_state() {
    let state = PredicateState::new(".".to_string()).with_api_response(
        "https://example.internal/health".to_string(),
        PredicateApiResponse { status: 200, body: "ok".to_string() },
    );
    let pred = Predicate::ApiEndpoint {
        url: "https://example.internal/health".to_string(),
        expected_status: 200,
        expected_body_contains: Some("ok".to_string()),
    };
    assert!(run(&pred, &state, vec![]).0.unwrap());
}

#[test]
fn test_predicate_evaluate_custom_shell() {
    let state = PredicateState::new(".".to_string());
    let pred = Predicate::Custom {
        code: "exit 0".to_string(),
        language: PredicateLanguage::Shell,
        description: "should pass".to_string(),
    };
    let (result, asked) = run(&pred, &state, vec![PredicateAnswer::Exited(Some(0))]);
    assert!(result.unwrap());
    match &asked[0] {
        PredicateQuery::Run { program, args, dir } => {
            assert_eq!(program, "sh");
            assert_eq!(args, &vec!["-c".to_string(), "exit 0".to_string()]);
            assert_eq!(dir, ".");
        }
        other => panic!("unexpected query {:?}", other),
    }
}

#[test]
fn missing_records_fail_with_their_errors() {
    let state = PredicateState::new("/work".to_string());
    let suite = Predicate::TestsPassing { suite: "it".to_string(), min_coverage: 0 };
    match run(&suite, &state, vec![]).0 {
        Err(SentinelError::Predicate(PredicateError::TestSuiteNotFound(s))) => assert_eq!(s, "it"),
        other => panic!("unexpected {:?}", other),
    }
    let metric = Predicate::Performance { metric: "rps".to_string(), threshold: 0, comparison: Comparison::GreaterThan };
    match run(&metric, &state, vec![]).0 {
        Err(SentinelError::Predicate(PredicateError::TypeMismatch { expected, actual })) => {
            assert_eq!(expected, "metric 'rps' available");
            assert_eq!(actual, "missing");
        }
        other => panic!("unexpected {:?}", other),
    }
    let python = Predicate::Custom { code: String::new(), language: PredicateLanguage::Python, description: String::new() };
    match run(&python, &state, vec![]).0 {
        Err(SentinelError::Predicate(PredicateError::CustomPredicateFailed(m))) => {
            assert_eq!(m, "Custom predicate language Python is not enabled")
        }
        other => panic!("unexpected {:?}", other),
    }
}

#[test]
fn paths_resolve_against_the_working_directory() {
    let state = PredicateState::new("/work".to_string());
    assert_eq!(state.resolve_path(&"src/main.rs".to_string()), "/work/src/main.rs");
    assert_eq!(state.resolve_path(&"/etc/hosts".to_string()), "/etc/hosts");
    let slash = PredicateState::new("/work/".to_string());
    assert_eq!(slash.resolve_path(&"a".to_string()), "/work/a");
    let pred = Predicate::And(vec![
        Predicate::FileExists("Cargo.toml".to_string()),
        Predicate::DirectoryExists("src".to_string()),
    ]);
    let (result, asked) = run(&pred, &state, vec![PredicateAnswer::Flag(true), PredicateAnswer::Flag(false)]);
    assert!(!result.unwrap());
    assert_eq!(asked.len(), 2);
    match (&asked[0], &asked[1]) {
        (PredicateQuery::PathExists(a), PredicateQuery::IsDirectory(b)) => {
            assert_eq!(a, "/work/Cargo.toml");
            assert_eq!(b, "/work/src");
        }
        other => panic!("unexpected {:?}", other),
    }
}

#[test]
fn conjunction_stops_at_first_false_part() {
    let state = PredicateState::new(".".to_string());
    let pred = Predicate::And(vec![
        Predicate::CommandSucceeds { command: "make".to_string(), args: vec![], expected_exit_code: 0 },
        Predicate::CommandSucceeds { command: "deploy".to_string(), args: vec![], expected_exit_code: 0 },
    ]);
    let (result, asked) = run(&pred, &state, vec![PredicateAnswer::Exited(Some(2))]);
    assert!(!result.unwrap());
    assert_eq!(asked.len(), 1);
    let either = Predicate::Or(vec![Predicate::FileExists("a".to_string()), Predicate::FileExists("b".to_string())]);
    let (result, asked) = run(&either, &state, vec![PredicateAnswer::Flag(true)]);
    assert!(result.unwrap());
    assert_eq!(asked.len(), 1);
}

#[test]
fn endpoints_and_processes_report_failures() {
    let state = PredicateState::new(".".to_string());
    let api = Predicate::ApiEndpoint { url: "http://x/y".to_string(), expected_status: 200, expected_body_contains: Some("up".to_string()) };
    let (ok, asked) = run(&api, &state, vec![PredicateAnswer::Fetched { status: 200, body: "all up".to_string() }]);
    assert!(ok.unwrap());
    match &asked[0] {
        PredicateQuery::Fetch { url, with_body } => {
            assert_eq!(url, "http://x/y");
            assert!(*with_body);
        }
        other => panic!("unexpected {:?}", other),
    }
    match run(&api, &state, vec![PredicateAnswer::Unreachable]).0 {
        Err(SentinelError::Predicate(PredicateError::EndpointUnreachable(u))) => assert_eq!(u, "http://x/y"),
        other => panic!("unexpected {:?}", other),
    }
    let cmd = Predicate::CommandSucceeds { command: "nope".to_string(), args: vec!["-v".to_string()], expected_exit_code: 0 };
    match run(&cmd, &state, vec![PredicateAnswer::SpawnFailed("not found".to_string())]).0 {
        Err(SentinelError::Predicate(PredicateError::CustomPredicateFailed(m))) => assert_eq!(m, "not found"),
        other => panic!("unexpected {:?}", other),
    }
    let negated = Predicate::Not(Box::new(cmd));
    assert!(run(&negated, &state, vec![PredicateAnswer::Exited(None)]).0.unwrap());
}

#[test]
fn later_records_replace_earlier_ones() {
    let state = PredicateState::new(".".to_string())
        .with_metric("m".to_string(), 1.0f64.to_bits())
        .with_metric("m".to_string(), 5.0f64.to_bits());
    let pred = Predicate::Performance { metric: "m".to_string(), threshold: 3.0f64.to_bits(), comparison: Comparison::GreaterThan };
    assert!(run(&pred, &state, vec![]).0.unwrap());
    let nan = Predicate::Performance { metric: "m".to_string(), threshold: f64::NAN.to_bits(), comparison: Comparison::LessThan };
    assert!(!run(&nan, &state, vec![]).0.unwrap());
}

/// Drive evaluation in a fixed world: each query gets the same answer every
/// time it is asked.
fn run_in_world(pred: &Predicate, state: &PredicateState) -> Result<bool, SentinelError> {
    let mut answers = Vec::new();
    loop {
        match pred.evaluate_step(state, &answers) {
            EvalStep::Done(r) => return r,
            EvalStep::Ask(q) => answers.push(match q {
                PredicateQuery::PathExists(p) => PredicateAnswer::Flag(p.ends_with("present")),
                PredicateQuery::IsDirectory(_) => PredicateAnswer::Flag(false),
                PredicateQuery::Fetch { .. } => PredicateAnswer::Unreachable,
                PredicateQuery::Run { program, .. } => {
                    PredicateAnswer::Exited(Some(if program == "ok" { 0 } else { 1 }))
                }
            }),
        }
    }
}

fn command(program: &str) -> Predicate {
    Predicate::CommandSucceeds { command: program.to_string(), args: vec![], expected_exit_code: 0 }
}

fn mixed(first: &str, second: &str, program: &str) -> Predicate {
    Predicate::Or(vec![
        Predicate::And(vec![Predicate::FileExists(first.to_string()), Predicate::AlwaysFalse]),
        Predicate::FileExists(second.to_string()),
        Predicate::Not(Box::new(Predicate::Not(Box::new(command(program))))),
        Predicate::AlwaysFalse,
    ])
}

#[test]
fn simplified_predicates_evaluate_alike_in_a_fixed_world() {
    let state = PredicateState::new("/work".to_string());
    for (first, second, program, expected) in [
        ("present", "absent", "ok", true),
        ("present", "absent", "bad", false),
        ("absent", "present", "bad", true),
        ("absent", "absent", "bad", false),
    ] {
        let original = run_in_world(&mixed(first, second, program), &state);
        let simplified = run_in_world(&mixed(first, second, program).simplify(), &state);
        assert_eq!(original.unwrap(), expected);
        assert_eq!(simplified.unwrap(), expected);
    }
}
