//! Evaluating predicates in a sandbox: the evidence a sandbox reports, the
//! executor that sandboxes provide, and reading test counts from test
//! output.

use vstd::prelude::*;
use crate::clip::trim_end;
use crate::compaction::digest::opt_view;
use crate::error::SentinelError;
use crate::predicate::{child, child_count, children_are, Predicate, PredicateLanguage};
use crate::text::concat_text;
use crate::endpoint::{all_digits, decimal_value, is_digit, unsigned_digits};
use crate::execution::{is_white_space, white_space};
use crate::strings::chars_of;
use crate::text::{find_chars, find_text};

verus! {

/// Summary of a test run; `coverage` holds the bits of a fraction.
#[derive(Debug, Clone, Copy, PartialEq, Eq, Structural)]
pub struct TestResultsSummary {
    pub total: usize,
    pub passed: usize,
    pub failed: usize,
    pub coverage: u64,
}

/// Where the last word of `t` starts: just after its last white space, or 0.
pub open spec fn word_start(t: Seq<char>) -> int
    decreases t.len(),
{
    if t.len() == 0 {
        0
    } else if is_white_space(t.last()) {
        t.len() as int
    } else {
        word_start(t.drop_last())
    }
}

/// The last white-space separated word of `s`
/// (`s.trim().split_whitespace().last()`), if any.
pub open spec fn last_word(s: Seq<char>) -> Option<Seq<char>> {
    let t = trim_end(s);
    if t.len() == 0 {
        None
    } else {
        Some(t.skip(word_start(t)))
    }
}

/// What parsing `t` as a `usize` gives (`str::parse::<usize>`): a non-empty
/// run of decimal digits, after an optional `+`, whose value fits.
pub open spec fn parse_usize_spec(t: Seq<char>) -> Option<usize> {
    let d = unsigned_digits(t);
    if d.len() > 0 && all_digits(d) && decimal_value(d) <= usize::MAX {
        Some(decimal_value(d) as usize)
    } else {
        None
    }
}

/// The count written just before the first occurrence of `label`: the last
/// word before it, read as a `usize`; 0 when the label is missing or the word
/// does not parse.
pub open spec fn count_before(output: Seq<char>, label: Seq<char>) -> nat {
    match find_text(output, label) {
        Some(pos) => match last_word(output.take(pos)) {
            Some(w) => match parse_usize_spec(w) {
                Some(v) => v as nat,
                None => 0,
            },
            None => 0,
        },
        None => 0,
    }
}

/// The text searched for test counts: standard output, a line break, and
/// standard error.
pub open spec fn test_output(stdout: Seq<char>, stderr: Seq<char>) -> Seq<char> {
    stdout + seq!['\n'] + stderr
}

/// A prefix of a digit string has a value no larger than the whole.
proof fn lemma_decimal_prefix(d: Seq<char>, k: int)
    requires
        0 <= k <= d.len(),
        all_digits(d),
    ensures
        decimal_value(d.take(k)) <= decimal_value(d),
    decreases d.len() - k,
{
    if k < d.len() {
        lemma_decimal_prefix(d, k + 1);
        assert(d.take(k + 1).drop_last() =~= d.take(k));
        assert(is_digit(d[k]));
    } else {
        assert(d.take(k) =~= d);
    }
}

/// Parse a `usize` as std's `str::parse` does.
pub fn parse_usize(t: &Vec<char>) -> (r: Option<usize>)
    ensures
        r == parse_usize_spec(t@),
{
    let start: usize = if t.len() > 1 && t[0] == '+' {
        1
    } else {
        0
    };
    let ghost d = unsigned_digits(t@);
    proof {
        assert(d =~= t@.skip(start as int));
    }
    if start >= t.len() {
        return None;
    }
    let mut value: usize = 0;
    let mut i: usize = start;
    proof {
        assert(t@.subrange(start as int, start as int) =~= Seq::<char>::empty());
    }
    while i < t.len()
        invariant
            start <= i <= t@.len(),
            start < t@.len(),
            d == unsigned_digits(t@),
            d == t@.skip(start as int),
            forall|k: int| start <= k < i ==> is_digit(#[trigger] t@[k]),
            value == decimal_value(t@.subrange(start as int, i as int)),
        decreases t.len() - i,
    {
        let c = t[i];
        if !('0' <= c && c <= '9') {
            proof {
                assert(d[i - start] == c);
                assert(!is_digit(d[i - start]));
            }
            return None;
        }
        let ghost sub = t@.subrange(start as int, i as int + 1);
        proof {
            assert(sub.drop_last() =~= t@.subrange(start as int, i as int));
            assert(sub.last() == c);
        }
        let digit = ((c as u32) - ('0' as u32)) as usize;
        if value > (usize::MAX - digit) / 10 {
            proof {
                assert(value * 10 + digit > usize::MAX) by (nonlinear_arith)
                    requires
                        value > (usize::MAX - digit) / 10,
                        digit <= 9,
                ;
                assert(decimal_value(sub) == value * 10 + digit);
                assert(d.take(i - start + 1) =~= sub);
                if all_digits(d) {
                    lemma_decimal_prefix(d, i - start + 1);
                }
            }
            return None;
        }
        proof {
            assert(value * 10 + digit <= usize::MAX) by (nonlinear_arith)
                requires
                    value <= (usize::MAX - digit) / 10,
                    digit <= 9,
            ;
        }
        value = value * 10 + digit;
        i = i + 1;
    }
    proof {
        assert(t@.subrange(start as int, t@.len() as int) =~= d);
        assert forall|k: int| 0 <= k < d.len() implies is_digit(#[trigger] d[k]) by {
            assert(d[k] == t@[start + k]);
        }
    }
    Some(value)
}

/// The last word of `s`.
pub fn last_word_of(s: &Vec<char>) -> (r: Option<Vec<char>>)
    ensures
        match r {
            Some(w) => last_word(s@) == Some(w@),
            None => last_word(s@) is None,
        },
{
    let mut end: usize = s.len();
    proof {
        assert(s@.take(s@.len() as int) =~= s@);
    }
    while end > 0 && white_space(s[end - 1])
        invariant
            end <= s@.len(),
            trim_end(s@) == trim_end(s@.take(end as int)),
        decreases end,
    {
        proof {
            assert(s@.take(end as int).drop_last() =~= s@.take(end - 1));
        }
        end = end - 1;
    }
    let ghost t = s@.take(end as int);
    proof {
        if end > 0 {
            assert(t.last() == s@[end - 1]);
        }
        assert(trim_end(t) == t);
    }
    if end == 0 {
        return None;
    }
    let mut start: usize = end;
    while start > 0 && !white_space(s[start - 1])
        invariant
            start <= end <= s@.len(),
            t == s@.take(end as int),
            word_start(t) == word_start(s@.take(start as int)),
        decreases start,
    {
        proof {
            assert(s@.take(start as int).drop_last() =~= s@.take(start - 1));
        }
        start = start - 1;
    }
    proof {
        if start > 0 {
            assert(s@.take(start as int).last() == s@[start - 1]);
        }
        assert(word_start(s@.take(start as int)) == start);
    }
    let mut w: Vec<char> = Vec::new();
    let mut k: usize = start;
    while k < end
        invariant
            start <= k <= end <= s@.len(),
            w@ == s@.subrange(start as int, k as int),
        decreases end - k,
    {
        w.push(s[k]);
        proof {
            assert(s@.subrange(start as int, k + 1) =~= s@.subrange(start as int, k as int).push(s@[k as int]));
        }
        k = k + 1;
    }
    proof {
        assert(t.skip(start as int) =~= s@.subrange(start as int, end as int));
    }
    Some(w)
}

/// The count written just before the first occurrence of `label` in
/// `output` (see `count_before`).
pub fn count_before_label(output: &Vec<char>, label: &str) -> (n: usize)
    ensures
        n == count_before(output@, label@),
{
    let needle = chars_of(label);
    match find_chars(output, &needle) {
        Some(pos) => {
            let mut before: Vec<char> = Vec::new();
            let mut k: usize = 0;
            while k < pos
                invariant
                    pos <= output@.len(),
                    k <= pos,
                    before@ == output@.take(k as int),
                decreases pos - k,
            {
                before.push(output[k]);
                proof {
                    assert(output@.take(k as int + 1) =~= output@.take(k as int).push(output@[k as int]));
                }
                k = k + 1;
            }
            match last_word_of(&before) {
                Some(w) => match parse_usize(&w) {
                    Some(v) => v,
                    None => 0,
                },
                None => 0,
            }
        },
        None => 0,
    }
}

/// The characters of standard output, a line break, and standard error.
fn output_chars(stdout: &str, stderr: &str) -> (r: Vec<char>)
    ensures
        r@ == test_output(stdout@, stderr@),
{
    let mut r = chars_of(stdout);
    r.push('\n');
    let mut e = chars_of(stderr);
    r.append(&mut e);
    r
}

/// The passed and failed counts in a test run's output.
pub fn test_counts(stdout: &str, stderr: &str) -> (r: (usize, usize))
    ensures
        r.0 == count_before(test_output(stdout@, stderr@), "passed"@),
        r.1 == count_before(test_output(stdout@, stderr@), "failed"@),
{
    let output = output_chars(stdout, stderr);
    (count_before_label(&output, "passed"), count_before_label(&output, "failed"))
}

/// Read the test counts from a test run's output: the number before the
/// first `passed` and the number before the first `failed` (0 when missing
/// or unreadable); full coverage when nothing failed and something passed,
/// none otherwise.
pub fn parse_test_output(stdout: &str, stderr: &str) -> (r: TestResultsSummary)
    requires
        count_before(test_output(stdout@, stderr@), "passed"@) + count_before(
            test_output(stdout@, stderr@),
            "failed"@,
        ) <= usize::MAX,
    ensures
        r.passed == count_before(test_output(stdout@, stderr@), "passed"@),
        r.failed == count_before(test_output(stdout@, stderr@), "failed"@),
        r.total == r.passed + r.failed,
        r.coverage == (if r.failed == 0 && r.passed > 0 {
            0x3ff0_0000_0000_0000u64
        } else {
            0u64
        }),
{
    let (passed, failed) = test_counts(stdout, stderr);
    TestResultsSummary {
        total: passed + failed,
        passed,
        failed,
        coverage: if failed == 0 && passed > 0 {
            0x3ff0_0000_0000_0000u64
        } else {
            0u64
        },
    }
}


/// Evidence collected while evaluating a predicate in a sandbox.
#[derive(Debug, Clone)]
pub struct SandboxEvidence {
    pub command: Option<String>,
    pub exit_code: Option<i32>,
    pub stdout: Option<String>,
    pub stderr: Option<String>,
    pub files_affected: Vec<String>,
    pub test_results: Option<TestResultsSummary>,
}

/// No evidence at all.
pub open spec fn empty_evidence(e: SandboxEvidence) -> bool {
    &&& e.command is None
    &&& e.exit_code is None
    &&& e.stdout is None
    &&& e.stderr is None
    &&& e.files_affected@.len() == 0
    &&& e.test_results is None
}

impl Default for SandboxEvidence {
    /// No evidence.
    fn default() -> (e: SandboxEvidence)
        ensures
            empty_evidence(e),
    {
        SandboxEvidence {
            command: None,
            exit_code: None,
            stdout: None,
            stderr: None,
            files_affected: Vec::new(),
            test_results: None,
        }
    }
}

/// Outcome of evaluating a predicate in a sandbox.
#[derive(Debug, Clone)]
pub struct SandboxEvaluation {
    pub passed: bool,
    pub evidence: SandboxEvidence,
    /// The same input gives the same outcome
    pub is_deterministic: bool,
}

/// What a sandbox offers: running commands and tests, preparing and reading
/// files. Sandboxes outside this library implement it; nothing is assumed of
/// what they report.
pub trait SandboxExecutor {
    /// Running `cmd` with `args` in `cwd` can report `r`. A sandbox says
    /// here what its runs report; one that does not leaves it open.
    open spec fn executed(
        &self,
        cmd: Seq<char>,
        args: Seq<Seq<char>>,
        cwd: Option<Seq<char>>,
        r: Result<SandboxEvidence, SentinelError>,
    ) -> bool {
        true
    }

    /// Running the test suite `suite` can report `r` (left open unless the
    /// sandbox says).
    open spec fn tested(&self, suite: Option<Seq<char>>, r: Result<TestResultsSummary, SentinelError>) -> bool {
        true
    }

    /// Asked whether a file exists at `path`, the sandbox can answer `b`
    /// (left open unless the sandbox says).
    open spec fn has_file(&self, path: Seq<char>, b: bool) -> bool {
        true
    }

    /// Run a command.
    fn execute(&self, cmd: &str, args: &[String], cwd: Option<&String>) -> (r: Result<SandboxEvidence, SentinelError>)
        ensures
            self.executed(cmd@, args@.map_values(|a: String| a@), text_of(cwd), r),
    ;

    /// Run a test suite.
    fn run_tests(&self, suite: Option<&str>) -> (r: Result<TestResultsSummary, SentinelError>)
        ensures
            self.tested(str_text_of(suite), r),
    ;

    /// Write files (path, content) into the sandbox.
    fn prepare_files(&self, files: &[(String, String)]) -> Result<(), SentinelError>;

    /// Whether a file exists.
    fn file_exists(&self, path: &String) -> (b: bool)
        ensures
            self.has_file(path@, b),
    ;

    /// The content of a file.
    fn read_file(&self, path: &String) -> Result<String, SentinelError>;

    /// The sandbox's root directory.
    fn root_path(&self) -> &String;
}

/// The text of an optional string reference.
pub open spec fn text_of(s: Option<&String>) -> Option<Seq<char>> {
    match s {
        Some(t) => Some(t@),
        None => None,
    }
}

/// The text of an optional string slice.
pub open spec fn str_text_of(s: Option<&str>) -> Option<Seq<char>> {
    match s {
        Some(t) => Some(t@),
        None => None,
    }
}

/// `a >= b` for the floating-point numbers with bits `a` and `b`: false
/// when either is NaN; otherwise negative numbers order by falling
/// magnitude below the non-negative ones, which order by rising bits, and
/// both zeros are equal.
pub open spec fn f64_ge(a: u64, b: u64) -> bool {
    let ma = a % 0x8000_0000_0000_0000;
    let mb = b % 0x8000_0000_0000_0000;
    let ka: int = if a >= 0x8000_0000_0000_0000 { -ma } else { ma as int };
    let kb: int = if b >= 0x8000_0000_0000_0000 { -mb } else { mb as int };
    ma <= 0x7ff0_0000_0000_0000 && mb <= 0x7ff0_0000_0000_0000 && ka >= kb
}

/// Whether `a >= b` as floating-point numbers (see `f64_ge`).
pub fn f64_at_least(a: u64, b: u64) -> (r: bool)
    ensures
        r == f64_ge(a, b),
{
    let ma = a % 0x8000_0000_0000_0000u64;
    let mb = b % 0x8000_0000_0000_0000u64;
    if ma > 0x7ff0_0000_0000_0000u64 || mb > 0x7ff0_0000_0000_0000u64 {
        return false;
    }
    let a_neg = a >= 0x8000_0000_0000_0000u64;
    let b_neg = b >= 0x8000_0000_0000_0000u64;
    if a_neg && b_neg {
        ma <= mb
    } else if a_neg {
        ma == 0 && mb == 0
    } else if b_neg {
        true
    } else {
        ma >= mb
    }
}

/// The evidence holds nothing but, possibly, a command.
pub open spec fn command_only(e: SandboxEvidence, cmd: Option<Seq<char>>) -> bool {
    &&& opt_view(e.command) == cmd
    &&& e.exit_code is None
    &&& e.stdout is None
    &&& e.stderr is None
    &&& e.files_affected@.len() == 0
    &&& e.test_results is None
}

/// The last command among the outcomes' evidence, if any.
pub open spec fn last_command(rs: Seq<SandboxEvaluation>) -> Option<Seq<char>>
    decreases rs.len(),
{
    if rs.len() == 0 {
        None
    } else {
        match rs.last().evidence.command {
            Some(c) => Some(c@),
            None => last_command(rs.drop_last()),
        }
    }
}

/// Every outcome passed.
pub open spec fn all_passed(rs: Seq<SandboxEvaluation>) -> bool {
    forall|i: int| 0 <= i < rs.len() ==> (#[trigger] rs[i]).passed
}

/// The outcome is one that evaluating `p` in the sandbox `ex` can give: a
/// command passes when it exits with the expected code, and its evidence is
/// what the sandbox reported for running it (in `root`); a test suite passes
/// when nothing failed and the coverage is high enough, and its results are
/// what the sandbox reported for the suite; a file check passes when the
/// sandbox says the file exists; shell code passes when `sh -c` of it exits
/// with 0; constants and unsupported predicates are decided without the
/// sandbox; a conjunction passes when every part did, keeping the last
/// command; a disjunction stops at the first part that passed and keeps its
/// evidence; a negation flips its operand.
pub open spec fn possible<E: SandboxExecutor + ?Sized>(ex: &E, root: Option<&String>, p: Predicate, r: SandboxEvaluation) -> bool
    decreases p, child_count(p) + 1,
{
    match p {
        Predicate::CommandSucceeds { command, args, expected_exit_code } => {
            &&& r.is_deterministic
            &&& r.passed == (r.evidence.exit_code == Some(expected_exit_code))
            &&& ex.executed(command@, args@.map_values(|a: String| a@), text_of(root), Ok(r.evidence))
        },
        Predicate::TestsPassing { suite, min_coverage } => {
            &&& r.is_deterministic
            &&& r.evidence.test_results is Some
            &&& ex.tested(Some(suite@), Ok(r.evidence.test_results->0))
            &&& opt_view(r.evidence.command) == Some("cargo test --quiet "@ + suite@)
            &&& r.evidence.exit_code == Some(
                if r.evidence.test_results->0.failed == 0 {
                    0i32
                } else {
                    1i32
                },
            )
            &&& r.evidence.stdout is None
            &&& r.evidence.stderr is None
            &&& r.evidence.files_affected@.len() == 0
            &&& r.passed == (r.evidence.test_results->0.failed == 0 && f64_ge(
                r.evidence.test_results->0.coverage,
                min_coverage,
            ))
        },
        Predicate::FileExists(path) => {
            &&& r.is_deterministic
            &&& ex.has_file(path@, r.passed)
            &&& r.evidence.command is None
            &&& r.evidence.stdout is None
            &&& r.evidence.stderr is None
            &&& r.evidence.test_results is None
            &&& if r.passed {
                &&& r.evidence.exit_code == Some(0i32)
                &&& r.evidence.files_affected@.len() == 1
                &&& r.evidence.files_affected@[0]@ == path@
            } else {
                &&& r.evidence.exit_code == Some(1i32)
                &&& r.evidence.files_affected@.len() == 0
            }
        },
        Predicate::Custom { code, language, .. } => {
            &&& !r.is_deterministic
            &&& if language == PredicateLanguage::Shell {
                &&& r.passed == (r.evidence.exit_code == Some(0i32))
                &&& ex.executed("sh"@, seq!["-c"@, code@], text_of(root), Ok(r.evidence))
            } else {
                !r.passed && empty_evidence(r.evidence)
            }
        },
        Predicate::And(_) => {
            &&& r.is_deterministic
            &&& exists|rs: Seq<SandboxEvaluation>|
                #![trigger rs.len()]
                rs.len() == child_count(p) && children_possible(ex, root, p, rs, child_count(p)) && r.passed
                    == all_passed(rs) && command_only(r.evidence, last_command(rs))
        },
        Predicate::Or(_) => {
            &&& r.is_deterministic
            &&& exists|rs: Seq<SandboxEvaluation>|
                #![trigger rs.len()]
                rs.len() <= child_count(p) && children_possible(ex, root, p, rs, rs.len() as nat) && (forall|
                    i: int,
                |
                    0 <= i < rs.len() - 1 ==> !(#[trigger] rs[i]).passed) && if r.passed {
                    rs.len() > 0 && rs.last().passed && r.evidence == rs.last().evidence
                } else {
                    rs.len() == child_count(p) && (rs.len() > 0 ==> !rs.last().passed)
                        && empty_evidence(r.evidence)
                }
        },
        Predicate::Not(q) => possible(ex, root, 
            *q,
            SandboxEvaluation {
                passed: !r.passed,
                evidence: r.evidence,
                is_deterministic: r.is_deterministic,
            },
        ),
        Predicate::AlwaysTrue => r.passed && r.is_deterministic && empty_evidence(r.evidence),
        Predicate::AlwaysFalse => !r.passed && r.is_deterministic && empty_evidence(r.evidence),
        _ => !r.passed && !r.is_deterministic && empty_evidence(r.evidence),
    }
}

/// Evaluating `p` makes no call on the sandbox that can fail: it runs no
/// command, no test suite and no shell code, and neither do its parts.
pub open spec fn infallible(p: Predicate) -> bool
    decreases p, child_count(p) + 1,
{
    match p {
        Predicate::CommandSucceeds { .. } => false,
        Predicate::TestsPassing { .. } => false,
        Predicate::Custom { language, .. } => language != PredicateLanguage::Shell,
        Predicate::And(_) => children_infallible(p, child_count(p)),
        Predicate::Or(_) => children_infallible(p, child_count(p)),
        Predicate::Not(q) => infallible(*q),
        _ => true,
    }
}

/// The first `n` children of `p` are infallible.
pub open spec fn children_infallible(p: Predicate, n: nat) -> bool
    decreases p, n,
{
    if n == 0 || n > child_count(p) {
        n == 0
    } else {
        children_infallible(p, (n - 1) as nat) && infallible(child(p, n - 1))
    }
}

/// Each child among the first `n` of infallible ones is infallible.
proof fn lemma_child_infallible(p: Predicate, n: nat, i: int)
    requires
        children_infallible(p, n),
        0 <= i < n,
    ensures
        infallible(child(p, i)),
    decreases n,
{
    if i < n - 1 {
        lemma_child_infallible(p, (n - 1) as nat, i);
    }
}

/// Each of the first `n` outcomes is possible for the matching child of `p`.
pub open spec fn children_possible<E: SandboxExecutor + ?Sized>(ex: &E, root: Option<&String>, p: Predicate, rs: Seq<SandboxEvaluation>, n: nat) -> bool
    decreases p, n,
{
    if n == 0 || n > child_count(p) || n > rs.len() {
        n == 0
    } else {
        children_possible(ex, root, p, rs, (n - 1) as nat) && possible(ex, root, child(p, n - 1), rs[n - 1])
    }
}


/// Outcomes for a prefix of the children stay possible when more follow.
proof fn lemma_children_possible_push<E: SandboxExecutor + ?Sized>(ex: &E, root: Option<&String>, p: Predicate, rs: Seq<SandboxEvaluation>, x: SandboxEvaluation, n: nat)
    requires
        rs.len() == n,
        n < child_count(p),
    ensures
        children_possible(ex, root, p, rs.push(x), n + 1) == (children_possible(ex, root, p, rs, n) && possible(ex, root, 
            child(p, n as int),
            x,
        )),
{
    lemma_children_possible_prefix(ex, root, p, rs, x, n);
}

proof fn lemma_children_possible_prefix<E: SandboxExecutor + ?Sized>(ex: &E, root: Option<&String>, p: Predicate, rs: Seq<SandboxEvaluation>, x: SandboxEvaluation, n: nat)
    requires
        n <= rs.len(),
        n <= child_count(p),
    ensures
        children_possible(ex, root, p, rs.push(x), n) == children_possible(ex, root, p, rs, n),
    decreases n,
{
    if n > 0 {
        lemma_children_possible_prefix(ex, root, p, rs, x, (n - 1) as nat);
        assert(rs.push(x)[n - 1] == rs[n - 1]);
    }
}

/// The last command after one more outcome.
proof fn lemma_last_command_push(rs: Seq<SandboxEvaluation>, x: SandboxEvaluation)
    ensures
        last_command(rs.push(x)) == (match x.evidence.command {
            Some(c) => Some(c@),
            None => last_command(rs),
        }),
{
    assert(rs.push(x).drop_last() =~= rs);
}

/// `e` is an error that evaluating `p` can meet: one that the sandbox
/// reported for a command, test suite or shell code that `p`, or a part of
/// it, runs.
pub open spec fn fails_with<E: SandboxExecutor + ?Sized>(
    ex: &E,
    root: Option<&String>,
    p: Predicate,
    e: SentinelError,
) -> bool
    decreases p, child_count(p) + 1,
{
    match p {
        Predicate::CommandSucceeds { command, args, .. } => ex.executed(
            command@,
            args@.map_values(|a: String| a@),
            text_of(root),
            Err(e),
        ),
        Predicate::TestsPassing { suite, .. } => ex.tested(Some(suite@), Err(e)),
        Predicate::Custom { code, language, .. } => language == PredicateLanguage::Shell && ex.executed(
            "sh"@,
            seq!["-c"@, code@],
            text_of(root),
            Err(e),
        ),
        Predicate::And(_) => child_fails(ex, root, p, e, child_count(p)),
        Predicate::Or(_) => child_fails(ex, root, p, e, child_count(p)),
        Predicate::Not(q) => fails_with(ex, root, *q, e),
        _ => false,
    }
}

/// The first `k` children of `p` can have run without error, each with an
/// outcome it can give; for a disjunction, none of them passed.
pub open spec fn earlier_ran<E: SandboxExecutor + ?Sized>(ex: &E, root: Option<&String>, p: Predicate, k: nat) -> bool {
    exists|rs: Seq<SandboxEvaluation>|
        #![trigger rs.len()]
        rs.len() == k && children_possible(ex, root, p, rs, k) && (p is Or ==> forall|j: int|
            0 <= j < k ==> !(#[trigger] rs[j]).passed)
}

/// One of the first `n` children of `p` can meet `e` after the children
/// before it ran without error (and, in a disjunction, without passing).
pub open spec fn child_fails<E: SandboxExecutor + ?Sized>(
    ex: &E,
    root: Option<&String>,
    p: Predicate,
    e: SentinelError,
    n: nat,
) -> bool
    decreases p, n,
{
    if n == 0 || n > child_count(p) {
        false
    } else {
        child_fails(ex, root, p, e, (n - 1) as nat) || (earlier_ran(ex, root, p, (n - 1) as nat) && fails_with(
            ex,
            root,
            child(p, n - 1),
            e,
        ))
    }
}

/// A child's error is one its parent can meet.
proof fn lemma_child_fails<E: SandboxExecutor + ?Sized>(
    ex: &E,
    root: Option<&String>,
    p: Predicate,
    e: SentinelError,
    n: nat,
    i: int,
)
    requires
        0 <= i < n <= child_count(p),
        earlier_ran(ex, root, p, i as nat),
        fails_with(ex, root, child(p, i), e),
    ensures
        child_fails(ex, root, p, e, n),
    decreases n,
{
    if i < n - 1 {
        lemma_child_fails(ex, root, p, e, (n - 1) as nat, i);
    }
}

/// Evaluate `p` in the sandbox.
fn evaluate<E: SandboxExecutor + ?Sized>(p: &Predicate, executor: &E, root: Option<&String>) -> (r: Result<
    SandboxEvaluation,
    SentinelError,
>)
    ensures
        r matches Ok(v) ==> possible(executor, root, *p, v),
        r matches Err(e) ==> fails_with(executor, root, *p, e),
        infallible(*p) ==> r is Ok,
    decreases p,
{
    match p {
        Predicate::CommandSucceeds { command, args, expected_exit_code } => {
            let evidence = executor.execute(command.as_str(), args.as_slice(), root)?;
            let passed = match evidence.exit_code {
                Some(code) => code == *expected_exit_code,
                None => false,
            };
            Ok(SandboxEvaluation { passed, evidence, is_deterministic: true })
        },
        Predicate::TestsPassing { suite, min_coverage } => {
            let results = executor.run_tests(Some(suite.as_str()))?;
            let none_failed = results.failed == 0;
            let passed = none_failed && f64_at_least(results.coverage, *min_coverage);
            let evidence = SandboxEvidence {
                command: Some(concat_text("cargo test --quiet ", suite)),
                exit_code: Some(
                    if none_failed {
                        0
                    } else {
                        1
                    },
                ),
                stdout: None,
                stderr: None,
                files_affected: Vec::new(),
                test_results: Some(results),
            };
            Ok(SandboxEvaluation { passed, evidence, is_deterministic: true })
        },
        Predicate::FileExists(path) => {
            let exists = executor.file_exists(path);
            let mut files: Vec<String> = Vec::new();
            if exists {
                files.push(path.clone());
            }
            Ok(
                SandboxEvaluation {
                    passed: exists,
                    evidence: SandboxEvidence {
                        command: None,
                        exit_code: Some(
                            if exists {
                                0
                            } else {
                                1
                            },
                        ),
                        stdout: None,
                        stderr: None,
                        files_affected: files,
                        test_results: None,
                    },
                    is_deterministic: true,
                },
            )
        },
        Predicate::Custom { code, language, .. } => {
            match language {
                PredicateLanguage::Shell => {
                    let mut args: Vec<String> = Vec::new();
                    args.push("-c".to_owned());
                    args.push(code.clone());
                    proof {
                        assert(args@.map_values(|a: String| a@) =~= seq!["-c"@, code@]);
                    }
                    let evidence = executor.execute("sh", args.as_slice(), root)?;
                    let passed = match evidence.exit_code {
                        Some(c) => c == 0,
                        None => false,
                    };
                    Ok(SandboxEvaluation { passed, evidence, is_deterministic: false })
                },
                _ => Ok(
                    SandboxEvaluation {
                        passed: false,
                        evidence: SandboxEvidence::default(),
                        is_deterministic: false,
                    },
                ),
            }
        },
        Predicate::And(preds) => evaluate_all(p, preds, executor, root),
        Predicate::Or(preds) => evaluate_any(p, preds, executor, root),
        Predicate::Not(q) => {
            let inner = evaluate(q, executor, root)?;
            let ghost witness = inner;
            let r = SandboxEvaluation {
                passed: !inner.passed,
                evidence: inner.evidence,
                is_deterministic: inner.is_deterministic,
            };
            proof {
                assert(witness == (SandboxEvaluation {
                    passed: !r.passed,
                    evidence: r.evidence,
                    is_deterministic: r.is_deterministic,
                }));
            }
            Ok(r)
        },
        Predicate::AlwaysTrue => Ok(
            SandboxEvaluation {
                passed: true,
                evidence: SandboxEvidence::default(),
                is_deterministic: true,
            },
        ),
        Predicate::AlwaysFalse => Ok(
            SandboxEvaluation {
                passed: false,
                evidence: SandboxEvidence::default(),
                is_deterministic: true,
            },
        ),
        _ => Ok(
            SandboxEvaluation {
                passed: false,
                evidence: SandboxEvidence::default(),
                is_deterministic: false,
            },
        ),
    }
}

/// Evaluate every child of a conjunction, stopping at the first error.
fn evaluate_all<E: SandboxExecutor + ?Sized>(
    whole: &Predicate,
    preds: &Vec<Predicate>,
    executor: &E,
    root: Option<&String>,
) -> (r: Result<SandboxEvaluation, SentinelError>)
    requires
        whole is And,
        children_are(*whole, *preds),
    ensures
        r matches Ok(v) ==> possible(executor, root, *whole, v),
        r matches Err(e) ==> fails_with(executor, root, *whole, e),
        infallible(*whole) ==> r is Ok,
    decreases whole, 0nat,
{
    let mut all = true;
    let mut combined = SandboxEvidence::default();
    let ghost mut rs: Seq<SandboxEvaluation> = Seq::empty();
    let mut i: usize = 0;
    while i < preds.len()
        invariant
            whole is And,
            children_are(*whole, *preds),
            child_count(*whole) == preds@.len(),
            i <= preds@.len(),
            rs.len() == i,
            children_possible(executor, root, *whole, rs, i as nat),
            infallible(*whole) ==> children_infallible(*whole, child_count(*whole)),
            all == all_passed(rs),
            command_only(combined, last_command(rs)),
        decreases preds.len() - i,
    {
        proof {
            assert(child(*whole, i as int) == preds@[i as int]);
            if infallible(*whole) {
                lemma_child_infallible(*whole, child_count(*whole), i as int);
            }
        }
        let result = match evaluate(&preds[i], executor, root) {
            Ok(v) => v,
            Err(e) => {
                proof {
                    assert(rs.len() == i);
                    lemma_child_fails(executor, root, *whole, e, child_count(*whole), i as int);
                }
                return Err(e);
            },
        };
        let ghost g = result;
        if !result.passed {
            all = false;
        }
        match result.evidence.command {
            Some(cmd) => {
                combined.command = Some(cmd);
            },
            None => {},
        }
        proof {
            lemma_children_possible_push(executor, root, *whole, rs, g, i as nat);
            lemma_last_command_push(rs, g);
            let next = rs.push(g);
            assert(all == all_passed(next)) by {
                if all {
                    assert forall|k: int| 0 <= k < next.len() implies (#[trigger] next[k]).passed by {
                        if k < rs.len() {
                            assert(next[k] == rs[k]);
                        }
                    }
                } else if !g.passed {
                    assert(!next[rs.len() as int].passed);
                } else {
                    let k = choose|k: int| 0 <= k < rs.len() && !(#[trigger] rs[k]).passed;
                    assert(next[k] == rs[k]);
                }
            }
            rs = next;
        }
        i = i + 1;
    }
    let r = SandboxEvaluation { passed: all, evidence: combined, is_deterministic: true };
    proof {
        assert(rs.len() == child_count(*whole) && children_possible(executor, root, *whole, rs, child_count(*whole)));
        assert(possible(executor, root, *whole, r));
    }
    Ok(r)
}

/// Evaluate the children of a disjunction up to the first that passes,
/// stopping at the first error.
fn evaluate_any<E: SandboxExecutor + ?Sized>(
    whole: &Predicate,
    preds: &Vec<Predicate>,
    executor: &E,
    root: Option<&String>,
) -> (r: Result<SandboxEvaluation, SentinelError>)
    requires
        whole is Or,
        children_are(*whole, *preds),
    ensures
        r matches Ok(v) ==> possible(executor, root, *whole, v),
        r matches Err(e) ==> fails_with(executor, root, *whole, e),
        infallible(*whole) ==> r is Ok,
    decreases whole, 0nat,
{
    let ghost mut rs: Seq<SandboxEvaluation> = Seq::empty();
    let mut i: usize = 0;
    while i < preds.len()
        invariant
            whole is Or,
            children_are(*whole, *preds),
            child_count(*whole) == preds@.len(),
            i <= preds@.len(),
            rs.len() == i,
            children_possible(executor, root, *whole, rs, i as nat),
            infallible(*whole) ==> children_infallible(*whole, child_count(*whole)),
            forall|k: int| 0 <= k < rs.len() ==> !(#[trigger] rs[k]).passed,
        decreases preds.len() - i,
    {
        proof {
            assert(child(*whole, i as int) == preds@[i as int]);
            if infallible(*whole) {
                lemma_child_infallible(*whole, child_count(*whole), i as int);
            }
        }
        let result = match evaluate(&preds[i], executor, root) {
            Ok(v) => v,
            Err(e) => {
                proof {
                    assert(rs.len() == i);
                    lemma_child_fails(executor, root, *whole, e, child_count(*whole), i as int);
                }
                return Err(e);
            },
        };
        let ghost g = result;
        proof {
            lemma_children_possible_push(executor, root, *whole, rs, g, i as nat);
        }
        if result.passed {
            let r = SandboxEvaluation { passed: true, evidence: result.evidence, is_deterministic: true };
            proof {
                let next = rs.push(g);
                assert(children_possible(executor, root, *whole, next, next.len() as nat));
                assert forall|k: int| 0 <= k < next.len() - 1 implies !(#[trigger] next[k]).passed by {
                    assert(next[k] == rs[k]);
                }
                assert(next.last() == g);
                assert(r.evidence == next.last().evidence);
                assert(next.len() <= child_count(*whole));
                assert(possible(executor, root, *whole, r));
            }
            return Ok(r);
        }
        proof {
            let next = rs.push(g);
            assert forall|k: int| 0 <= k < next.len() implies !(#[trigger] next[k]).passed by {
                if k < rs.len() {
                    assert(next[k] == rs[k]);
                }
            }
            rs = next;
        }
        i = i + 1;
    }
    let r = SandboxEvaluation { passed: false, evidence: SandboxEvidence::default(), is_deterministic: true };
    proof {
        assert(children_possible(executor, root, *whole, rs, rs.len() as nat));
        assert forall|k: int| 0 <= k < rs.len() - 1 implies !(#[trigger] rs[k]).passed by {}
        if rs.len() > 0 {
            assert(!rs[rs.len() - 1].passed);
        }
        assert(possible(executor, root, *whole, r));
    }
    Ok(r)
}

/// Evaluating predicates with a sandbox.
pub trait PredicateSandboxExt {
    /// Evaluate the predicate with the sandbox's help.
    fn evaluate_in_sandbox(&self, executor: &dyn SandboxExecutor, project_root: Option<&String>) -> Result<
        SandboxEvaluation,
        SentinelError,
    >;
}

impl PredicateSandboxExt for Predicate {
    /// Evaluate the predicate with the sandbox's help. A successful outcome
    /// is one the predicate can give with what the sandbox reported for the
    /// commands, test suites, shell code and files it asked about (see
    /// `possible`); an error is one the sandbox reported for a command, test
    /// suite or shell code of the predicate or of one of its parts (see
    /// `fails_with`); and evaluation succeeds whenever it runs none of these
    /// (see `infallible`).
    fn evaluate_in_sandbox(&self, executor: &dyn SandboxExecutor, project_root: Option<&String>) -> (r:
        Result<SandboxEvaluation, SentinelError>)
        ensures
            r matches Ok(v) ==> possible(executor, project_root, *self, v),
            r matches Err(e) ==> fails_with(executor, project_root, *self, e),
            infallible(*self) ==> r is Ok,
    {
        evaluate(self, executor, project_root)
    }
}

/// In a sandbox, a test-suite check passes only when the sandbox ran that
/// suite and reported no failed test and at least the required coverage;
/// any failed test it reports makes the check fail.
pub proof fn law_sandbox_tests_passing_needs_no_failures<E: SandboxExecutor + ?Sized>(
    ex: &E,
    root: Option<&String>,
    suite: String,
    min_coverage: u64,
    r: SandboxEvaluation,
)
    requires
        possible(ex, root, Predicate::TestsPassing { suite, min_coverage }, r),
    ensures
        r.evidence.test_results matches Some(t) && ex.tested(Some(suite@), Ok(t)) && (r.passed <==> (t.failed == 0
            && f64_ge(t.coverage, min_coverage))),
        r.evidence.test_results matches Some(t) && t.failed > 0 ==> !r.passed,
{
}

} // verus!
