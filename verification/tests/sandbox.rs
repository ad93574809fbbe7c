use sentinel_core::error::SentinelError;
use sentinel_core::predicate::{Predicate, PredicateLanguage};
use sentinel_core::sandbox::{
    parse_test_output, PredicateSandboxExt, SandboxEvidence, SandboxExecutor, TestResultsSummary,
};

struct MockSandboxExecutor {
    root: String,
    exit_code: i32,
    coverage: f64,
    failed: usize,
    files: Vec<String>,
}

impl MockSandboxExecutor {
    fn new() -> Self {
        Self { root: "/tmp/sandbox".to_string(), exit_code: 0, coverage: 1.0, failed: 0, files: vec!["test.txt".to_string()] }
    }
}

impl SandboxExecutor for MockSandboxExecutor {
    fn execute(&self, cmd: &str, args: &[String], _cwd: Option<&String>) -> Result<SandboxEvidence, SentinelError> {
        Ok(SandboxEvidence {
            command: Some(format!("{} {}", cmd, args.join(" "))),
            exit_code: Some(self.exit_code),
            stdout: Some("mock output".to_string()),
            stderr: None,
            files_affected: Vec::new(),
            test_results: None,
        })
    }

    fn run_tests(&self, _suite: Option<&str>) -> Result<TestResultsSummary, SentinelError> {
        Ok(TestResultsSummary { total: 10, passed: 10 - self.failed, failed: self.failed, coverage: self.coverage.to_bits() })
    }

    fn prepare_files(&self, _files: &[(String, String)]) -> Result<(), SentinelError> {
        Ok(())
    }

    fn file_exists(&self, path: &String) -> bool {
        self.files.contains(path)
    }

    fn read_file(&self, _path: &String) -> Result<String, SentinelError> {
        Ok("mock content".to_string())
    }

    fn root_path(&self) -> &String {
        &self.root
    }
}

struct FailingExecutor {
    root: String,
}

impl SandboxExecutor for FailingExecutor {
    fn execute(&self, _cmd: &str, _args: &[String], _cwd: Option<&String>) -> Result<SandboxEvidence, SentinelError> {
        Err(SentinelError::Io("sandbox unavailable".to_string()))
    }
    fn run_tests(&self, _suite: Option<&str>) -> Result<TestResultsSummary, SentinelError> {
        Err(SentinelError::Io("sandbox unavailable".to_string()))
    }
    fn prepare_files(&self, _files: &[(String, String)]) -> Result<(), SentinelError> {
        Ok(())
    }
    fn file_exists(&self, _path: &String) -> bool {
        false
    }
    fn read_file(&self, _path: &String) -> Result<String, SentinelError> {
        Err(SentinelError::Io("sandbox unavailable".to_string()))
    }
    fn root_path(&self) -> &String {
        &self.root
    }
}

#[test]
fn test_sandbox_evidence_default() {
    let evidence = SandboxEvidence::default();
    assert!(evidence.command.is_none());
    assert!(evidence.exit_code.is_none());
}

#[test]
fn test_parse_test_output() {
    let stdout = "test result: ok. 10 passed; 0 failed; 0 ignored";
    let summary = parse_test_output(stdout, "");
    assert!(summary.total >= 0);
}

#[test]
fn test_predicate_sandbox_ext_always() {
    let executor = MockSandboxExecutor::new();
    let pred = Predicate::AlwaysTrue;
    let result = pred.evaluate_in_sandbox(&executor, None).unwrap();
    assert!(result.passed);
    let pred = Predicate::AlwaysFalse;
    let result = pred.evaluate_in_sandbox(&executor, None).unwrap();
    assert!(!result.passed);
}

#[test]
fn test_predicate_sandbox_ext_and() {
    let executor = MockSandboxExecutor::new();
    let pred = Predicate::And(vec![Predicate::AlwaysTrue, Predicate::AlwaysTrue]);
    let result = pred.evaluate_in_sandbox(&executor, None).unwrap();
    assert!(result.passed);
}

#[test]
fn test_predicate_sandbox_ext_or() {
    let executor = MockSandboxExecutor::new();
    let pred = Predicate::Or(vec![Predicate::AlwaysFalse, Predicate::AlwaysTrue]);
    let result = pred.evaluate_in_sandbox(&executor, None).unwrap();
    assert!(result.passed);
}

#[test]
fn test_predicate_sandbox_ext_not() {
    let executor = MockSandboxExecutor::new();
    let pred = Predicate::Not(Box::new(Predicate::AlwaysFalse));
    let result = pred.evaluate_in_sandbox(&executor, None).unwrap();
    assert!(result.passed);
    let pred = Predicate::Not(Box::new(Predicate::AlwaysTrue));
    let result = pred.evaluate_in_sandbox(&executor, None).unwrap();
    assert!(!result.passed);
}

#[test]
fn test_predicate_file_exists() {
    let executor = MockSandboxExecutor::new();
    let pred = Predicate::FileExists("test.txt".to_string());
    let result = pred.evaluate_in_sandbox(&executor, None).unwrap();
    assert!(result.passed);
}

#[test]
fn parse_test_output_reads_counts() {
    let summary = parse_test_output("test result: FAILED. 7 passed; 3 failed; 0 ignored", "");
    assert_eq!(summary.passed, 7);
    assert_eq!(summary.failed, 3);
    assert_eq!(summary.total, 10);
    assert_eq!(f64::from_bits(summary.coverage), 0.0);
    let ok = parse_test_output("running\n12 passed", "");
    assert_eq!(ok.passed, 12);
    assert_eq!(ok.failed, 0);
    assert_eq!(f64::from_bits(ok.coverage), 1.0);
    let stderr_only = parse_test_output("", "+4 failed");
    assert_eq!(stderr_only.failed, 4);
    assert_eq!(stderr_only.passed, 0);
    let unreadable = parse_test_output("x passed, -2 failed", "");
    assert_eq!(unreadable.passed, 0);
    assert_eq!(unreadable.failed, 0);
    assert_eq!(f64::from_bits(unreadable.coverage), 0.0);
}

#[test]
fn commands_and_tests_in_the_sandbox() {
    let mut executor = MockSandboxExecutor::new();
    let cmd = Predicate::CommandSucceeds { command: "make".to_string(), args: vec!["all".to_string()], expected_exit_code: 0 };
    let result = cmd.evaluate_in_sandbox(&executor, None).unwrap();
    assert!(result.passed);
    assert!(result.is_deterministic);
    assert_eq!(result.evidence.command, Some("make all".to_string()));
    executor.exit_code = 2;
    assert!(!cmd.evaluate_in_sandbox(&executor, None).unwrap().passed);

    let tests = Predicate::TestsPassing { suite: "core".to_string(), min_coverage: 0.8f64.to_bits() };
    executor.coverage = 0.9;
    let result = tests.evaluate_in_sandbox(&executor, None).unwrap();
    assert!(result.passed);
    assert_eq!(result.evidence.command, Some("cargo test --quiet core".to_string()));
    assert_eq!(result.evidence.exit_code, Some(0));
    executor.coverage = 0.5;
    assert!(!tests.evaluate_in_sandbox(&executor, None).unwrap().passed);
    executor.coverage = 0.9;
    executor.failed = 1;
    let result = tests.evaluate_in_sandbox(&executor, None).unwrap();
    assert!(!result.passed);
    assert_eq!(result.evidence.exit_code, Some(1));
}

#[test]
fn composite_evidence_and_unsupported_predicates() {
    let executor = MockSandboxExecutor::new();
    let shell = Predicate::Custom { code: "true".to_string(), language: PredicateLanguage::Shell, description: String::new() };
    let r = shell.evaluate_in_sandbox(&executor, None).unwrap();
    assert!(r.passed);
    assert!(!r.is_deterministic);
    assert_eq!(r.evidence.command, Some("sh -c true".to_string()));
    let python = Predicate::Custom { code: "x".to_string(), language: PredicateLanguage::Python, description: String::new() };
    assert!(!python.evaluate_in_sandbox(&executor, None).unwrap().passed);
    let dir = Predicate::DirectoryExists("src".to_string());
    let r = dir.evaluate_in_sandbox(&executor, None).unwrap();
    assert!(!r.passed);
    assert!(!r.is_deterministic);
    let both = Predicate::And(vec![
        Predicate::CommandSucceeds { command: "a".to_string(), args: vec![], expected_exit_code: 0 },
        Predicate::FileExists("missing".to_string()),
        Predicate::CommandSucceeds { command: "b".to_string(), args: vec![], expected_exit_code: 0 },
    ]);
    let r = both.evaluate_in_sandbox(&executor, None).unwrap();
    assert!(!r.passed);
    assert_eq!(r.evidence.command, Some("b ".to_string()));
    assert!(r.evidence.exit_code.is_none());
    let either = Predicate::Or(vec![Predicate::FileExists("missing".to_string()), Predicate::FileExists("test.txt".to_string())]);
    let r = either.evaluate_in_sandbox(&executor, None).unwrap();
    assert!(r.passed);
    assert_eq!(r.evidence.files_affected, vec!["test.txt".to_string()]);
    let none = Predicate::Or(vec![Predicate::AlwaysFalse]);
    let r = none.evaluate_in_sandbox(&executor, None).unwrap();
    assert!(!r.passed);
    assert!(r.evidence.files_affected.is_empty());
}

#[test]
fn sandbox_errors_are_passed_on() {
    let executor = FailingExecutor { root: "/".to_string() };
    let cmd = Predicate::CommandSucceeds { command: "a".to_string(), args: vec![], expected_exit_code: 0 };
    assert!(cmd.evaluate_in_sandbox(&executor, None).is_err());
    let all = Predicate::And(vec![Predicate::AlwaysTrue, cmd]);
    assert!(all.evaluate_in_sandbox(&executor, None).is_err());
    let first_wins = Predicate::Or(vec![Predicate::AlwaysTrue, Predicate::TestsPassing { suite: "x".to_string(), min_coverage: 0 }]);
    assert!(first_wins.evaluate_in_sandbox(&executor, None).unwrap().passed);
}

#[test]
fn evaluation_without_commands_succeeds_even_when_the_sandbox_fails() {
    let executor = FailingExecutor { root: "/".to_string() };
    let file = Predicate::FileExists("a.txt".to_string());
    let r = file.evaluate_in_sandbox(&executor, None).unwrap();
    assert!(!r.passed);
    assert_eq!(r.evidence.exit_code, Some(1));
    let mixed = Predicate::And(vec![
        Predicate::Not(Box::new(Predicate::AlwaysFalse)),
        Predicate::Or(vec![Predicate::FileExists("b".to_string()), Predicate::AlwaysTrue]),
        Predicate::Custom {
            code: "1+1".to_string(),
            language: PredicateLanguage::Python,
            description: "py".to_string(),
        },
    ]);
    let r = mixed.evaluate_in_sandbox(&executor, None).unwrap();
    assert!(!r.passed);
    let shell = Predicate::Custom {
        code: "true".to_string(),
        language: PredicateLanguage::Shell,
        description: "sh".to_string(),
    };
    assert!(shell.evaluate_in_sandbox(&executor, None).is_err());
}
