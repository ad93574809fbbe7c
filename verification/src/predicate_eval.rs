//! Evaluating predicates against a project state. Checks that need the file
//! system, the network or a process are asked for as queries; the caller
//! answers them in order and evaluates again, until a truth value or an
//! error comes out.

use vstd::prelude::*;
use crate::error::{PredicateError, SentinelError};
use crate::predicate::{child, child_count, children_are, Comparison, Predicate, PredicateApiResponse, PredicateLanguage};
use crate::strings::{chars_of, clone_strings, views};
use crate::text::{contains_chars, string_from_chars, text_contains};

verus! {

/// Results of a test suite; `coverage` holds the bits of a fraction.
#[derive(Debug, Clone, Copy, PartialEq, Eq, Structural)]
pub struct PredicateTestResult {
    pub passed: usize,
    pub failed: usize,
    pub coverage: u64,
}

/// What is known of the project: its working directory, recorded test
/// results, metrics (bits of numbers) and endpoint answers, each keyed by
/// name.
pub struct PredicateState {
    pub working_directory: String,
    pub test_results: Vec<(String, PredicateTestResult)>,
    pub performance_metrics: Vec<(String, u64)>,
    pub api_responses: Vec<(String, PredicateApiResponse)>,
}

/// The value recorded under key `k`: that of its first entry.
pub open spec fn lookup<T>(v: Seq<(String, T)>, k: Seq<char>) -> Option<T>
    decreases v.len(),
{
    if v.len() == 0 {
        None
    } else if v[0].0@ == k {
        Some(v[0].1)
    } else {
        lookup(v.drop_first(), k)
    }
}

/// The first entry of `v` with key `k` is at `i`.
pub open spec fn first_key_at<T>(v: Seq<(String, T)>, k: Seq<char>, i: int) -> bool {
    0 <= i < v.len() && v[i].0@ == k && forall|j: int| 0 <= j < i ==> (#[trigger] v[j]).0@ != k
}

proof fn lemma_lookup_first<T>(v: Seq<(String, T)>, k: Seq<char>, i: int)
    requires
        first_key_at(v, k, i),
    ensures
        lookup(v, k) == Some(v[i].1),
    decreases i,
{
    if i > 0 {
        assert(v[0].0@ != k);
        assert forall|j: int| 0 <= j < i - 1 implies (#[trigger] v.drop_first()[j]).0@ != k by {
            assert(v.drop_first()[j] == v[j + 1]);
        }
        lemma_lookup_first(v.drop_first(), k, i - 1);
    }
}

proof fn lemma_lookup_none<T>(v: Seq<(String, T)>, k: Seq<char>)
    requires
        forall|j: int| 0 <= j < v.len() ==> (#[trigger] v[j]).0@ != k,
    ensures
        lookup(v, k) is None,
    decreases v.len(),
{
    if v.len() > 0 {
        assert(v[0].0@ != k);
        assert forall|j: int| 0 <= j < v.len() - 1 implies (#[trigger] v.drop_first()[j]).0@ != k by {
            assert(v.drop_first()[j] == v[j + 1]);
        }
        lemma_lookup_none(v.drop_first(), k);
    }
}

/// Position of the first entry with key `k`.
pub(crate) fn find_key<T>(v: &Vec<(String, T)>, k: &String) -> (r: Option<usize>)
    ensures
        match r {
            Some(i) => first_key_at(v@, k@, i as int) && lookup(v@, k@) == Some(v@[i as int].1),
            None => lookup(v@, k@) is None,
        },
{
    let mut i: usize = 0;
    while i < v.len()
        invariant
            i <= v@.len(),
            forall|j: int| 0 <= j < i ==> (#[trigger] v@[j]).0@ != k@,
        decreases v.len() - i,
    {
        if v[i].0 == *k {
            proof {
                lemma_lookup_first(v@, k@, i as int);
            }
            return Some(i);
        }
        i = i + 1;
    }
    proof {
        lemma_lookup_none(v@, k@);
    }
    None
}

/// Record `x` under `k`, replacing what was recorded under it.
pub(crate) fn upsert<T>(v: &mut Vec<(String, T)>, k: String, x: T)
    ensures
        forall|key: Seq<char>| #[trigger] lookup(final(v)@, key) == (if key == k@ {
            Some(x)
        } else {
            lookup(old(v)@, key)
        }),
{
    let ghost pre = v@;
    match find_key(v, &k) {
        Some(i) => {
            let ghost ks = k;
            v.set(i, (k, x));
            proof {
                assert(v@ == pre.update(i as int, (ks, x)));
                assert forall|key: Seq<char>| #[trigger] lookup(v@, key) == (if key == ks@ {
                    Some(x)
                } else {
                    lookup(pre, key)
                }) by {
                    lemma_lookup_update(pre, i as int, ks, x, key);
                }
            }
        },
        None => {
            let ghost ks = k;
            v.push((k, x));
            proof {
                assert forall|key: Seq<char>| #[trigger] lookup(v@, key) == (if key == ks@ {
                    Some(x)
                } else {
                    lookup(pre, key)
                }) by {
                    lemma_lookup_push(pre, ks, x, key);
                }
            }
        },
    }
}

/// Replacing the first entry of a key changes only that key's value.
proof fn lemma_lookup_update<T>(v: Seq<(String, T)>, i: int, s: String, x: T, key: Seq<char>)
    requires
        first_key_at(v, s@, i),
    ensures
        lookup(v.update(i, (s, x)), key) == (if key == s@ {
            Some(x)
        } else {
            lookup(v, key)
        }),
    decreases i,
{
    let w = v.update(i, (s, x));
    if i == 0 {
        assert(w[0] == (s, x));
        assert(w.drop_first() =~= v.drop_first());
    } else {
        assert(v[0].0@ != s@);
        assert(w[0] == v[0]);
        assert forall|j: int| 0 <= j < i - 1 implies (#[trigger] v.drop_first()[j]).0@ != s@ by {
            assert(v.drop_first()[j] == v[j + 1]);
        }
        lemma_lookup_update(v.drop_first(), i - 1, s, x, key);
        assert(w.drop_first() =~= v.drop_first().update(i - 1, (s, x)));
    }
}

/// Appending an entry for a new key adds only that key.
proof fn lemma_lookup_push<T>(v: Seq<(String, T)>, s: String, x: T, key: Seq<char>)
    requires
        lookup(v, s@) is None,
    ensures
        lookup(v.push((s, x)), key) == (if key == s@ {
            Some(x)
        } else {
            lookup(v, key)
        }),
    decreases v.len(),
{
    let w = v.push((s, x));
    if v.len() == 0 {
        assert(w[0] == (s, x));
        assert(w.drop_first() =~= Seq::<(String, T)>::empty());
    } else {
        assert(w[0] == v[0]);
        assert(w.drop_first() =~= v.drop_first().push((s, x)));
        if v[0].0@ != s@ {
            lemma_lookup_push(v.drop_first(), s, x, key);
        }
    }
}

/// The path `path` names, seen from directory `dir` (`Path::join` with `/`
/// separators): an absolute path stands for itself; a relative one follows
/// the directory, with a `/` between them unless the directory is empty or
/// ends in one.
pub open spec fn resolved(dir: Seq<char>, path: Seq<char>) -> Seq<char> {
    if path.len() > 0 && path[0] == '/' {
        path
    } else if dir.len() > 0 && dir.last() != '/' {
        dir + seq!['/'] + path
    } else {
        dir + path
    }
}

impl PredicateState {
    /// No recorded results, metrics or answers.
    pub fn new(working_directory: String) -> (s: PredicateState)
        ensures
            s.working_directory == working_directory,
            s.test_results@.len() == 0,
            s.performance_metrics@.len() == 0,
            s.api_responses@.len() == 0,
    {
        PredicateState {
            working_directory,
            test_results: Vec::new(),
            performance_metrics: Vec::new(),
            api_responses: Vec::new(),
        }
    }

    /// Record the results of a suite.
    pub fn with_test_result(self, suite: String, result: PredicateTestResult) -> (s: PredicateState)
        ensures
            forall|k: Seq<char>| #[trigger] lookup(s.test_results@, k) == (if k == suite@ {
                Some(result)
            } else {
                lookup(self.test_results@, k)
            }),
            s.working_directory == self.working_directory,
            s.performance_metrics == self.performance_metrics,
            s.api_responses == self.api_responses,
    {
        let mut s = self;
        upsert(&mut s.test_results, suite, result);
        s
    }

    /// Record a metric's value (bits of a number).
    pub fn with_metric(self, metric: String, value: u64) -> (s: PredicateState)
        ensures
            forall|k: Seq<char>| #[trigger] lookup(s.performance_metrics@, k) == (if k == metric@ {
                Some(value)
            } else {
                lookup(self.performance_metrics@, k)
            }),
            s.working_directory == self.working_directory,
            s.test_results == self.test_results,
            s.api_responses == self.api_responses,
    {
        let mut s = self;
        upsert(&mut s.performance_metrics, metric, value);
        s
    }

    /// Record an endpoint's answer.
    pub fn with_api_response(self, url: String, response: PredicateApiResponse) -> (s: PredicateState)
        ensures
            forall|k: Seq<char>| #[trigger] lookup(s.api_responses@, k) == (if k == url@ {
                Some(response)
            } else {
                lookup(self.api_responses@, k)
            }),
            s.working_directory == self.working_directory,
            s.test_results == self.test_results,
            s.performance_metrics == self.performance_metrics,
    {
        let mut s = self;
        upsert(&mut s.api_responses, url, response);
        s
    }

    /// The path `path` names from the working directory.
    pub fn resolve_path(&self, path: &String) -> (r: String)
        ensures
            r@ == resolved(self.working_directory@, path@),
    {
        let p = chars_of(path.as_str());
        if p.len() > 0 && p[0] == '/' {
            return string_from_chars(&p);
        }
        let mut d = chars_of(self.working_directory.as_str());
        if d.len() > 0 && d[d.len() - 1] != '/' {
            d.push('/');
        }
        let mut q = p;
        d.append(&mut q);
        string_from_chars(&d)
    }
}

/// Whether a floating-point number's bits are a NaN.
pub open spec fn f64_nan(b: u64) -> bool {
    b % 0x8000_0000_0000_0000 > 0x7ff0_0000_0000_0000
}

/// Where a non-NaN floating-point number stands in numeric order: negative
/// numbers by falling magnitude below zero, the others by rising bits; both
/// zeros at 0.
pub open spec fn f64_rank(b: u64) -> int {
    if b >= 0x8000_0000_0000_0000 {
        -((b % 0x8000_0000_0000_0000) as int)
    } else {
        b as int
    }
}

/// How `value` compares with `threshold` under `c`, as floating-point
/// numbers given by their bits (false when either is NaN).
pub open spec fn compares(c: Comparison, value: u64, threshold: u64) -> bool {
    !f64_nan(value) && !f64_nan(threshold) && match c {
        Comparison::LessThan => f64_rank(value) < f64_rank(threshold),
        Comparison::LessThanOrEqual => f64_rank(value) <= f64_rank(threshold),
        Comparison::Equal => f64_rank(value) == f64_rank(threshold),
        Comparison::GreaterThanOrEqual => f64_rank(value) >= f64_rank(threshold),
        Comparison::GreaterThan => f64_rank(value) > f64_rank(threshold),
    }
}

/// The rank of a non-NaN number's bits.
fn f64_rank_of(b: u64) -> (r: i128)
    ensures
        r == f64_rank(b),
{
    if b >= 0x8000_0000_0000_0000u64 {
        -((b % 0x8000_0000_0000_0000u64) as i128)
    } else {
        b as i128
    }
}

/// Whether `value` compares with `threshold` under `c`.
pub fn compare_bits(c: Comparison, value: u64, threshold: u64) -> (r: bool)
    ensures
        r == compares(c, value, threshold),
{
    if value % 0x8000_0000_0000_0000u64 > 0x7ff0_0000_0000_0000u64 || threshold % 0x8000_0000_0000_0000u64
        > 0x7ff0_0000_0000_0000u64 {
        return false;
    }
    let a = f64_rank_of(value);
    let b = f64_rank_of(threshold);
    match c {
        Comparison::LessThan => a < b,
        Comparison::LessThanOrEqual => a <= b,
        Comparison::Equal => a == b,
        Comparison::GreaterThanOrEqual => a >= b,
        Comparison::GreaterThan => a > b,
    }
}


/// An outside check that evaluation needs.
#[derive(Debug)]
pub enum PredicateQuery {
    /// Whether anything exists at the path
    PathExists(String),
    /// Whether a directory exists at the path
    IsDirectory(String),
    /// Fetch the URL (with a 3-second timeout), reading the body when asked
    Fetch { url: String, with_body: bool },
    /// Run the program with the arguments in the directory, waiting for it
    Run { program: String, args: Vec<String>, dir: String },
}

/// The answer to a query.
#[derive(Debug)]
pub enum PredicateAnswer {
    /// Yes or no, for a path query
    Flag(bool),
    /// The endpoint's status and body (empty when the body was not read)
    Fetched { status: u16, body: String },
    /// No HTTP client could be built; its error text
    ClientFailed(String),
    /// The request failed
    Unreachable,
    /// The process ended, with its exit code (none when killed by a signal)
    Exited(Option<i32>),
    /// The process could not run; the error text
    SpawnFailed(String),
}

/// A step of evaluation: the outcome, or the next query to answer.
#[derive(Debug)]
pub enum EvalStep {
    Done(Result<bool, SentinelError>),
    Ask(PredicateQuery),
}

/// A failure as plain values: 1 for a missing test suite, 2 for an
/// unreachable endpoint, 3 for a failed custom predicate, 4 for a type
/// mismatch, 0 for others; with its texts.
pub open spec fn failure_of(e: SentinelError) -> (nat, Seq<char>, Seq<char>) {
    match e {
        SentinelError::Predicate(pe) => match pe {
            PredicateError::TestSuiteNotFound(s) => (1, s@, Seq::empty()),
            PredicateError::EndpointUnreachable(s) => (2, s@, Seq::empty()),
            PredicateError::CustomPredicateFailed(s) => (3, s@, Seq::empty()),
            PredicateError::TypeMismatch { expected, actual } => (4, expected@, actual@),
            _ => (0, Seq::empty(), Seq::empty()),
        },
        _ => (0, Seq::empty(), Seq::empty()),
    }
}

/// A query as plain values: 1 for a path, 2 for a directory, 3 for a fetch,
/// 4 for a run; with its path, URL or program, arguments, directory, and
/// whether a body is wanted.
pub open spec fn query_of(q: PredicateQuery) -> (nat, Seq<char>, Seq<Seq<char>>, Seq<char>, bool) {
    match q {
        PredicateQuery::PathExists(p) => (1, p@, Seq::empty(), Seq::empty(), false),
        PredicateQuery::IsDirectory(p) => (2, p@, Seq::empty(), Seq::empty(), false),
        PredicateQuery::Fetch { url, with_body } => (3, url@, Seq::empty(), Seq::empty(), with_body),
        PredicateQuery::Run { program, args, dir } => (4, program@, views(args@), dir@, false),
    }
}

/// An evaluation outcome as plain values: a truth value or a failure, or a
/// query still to answer.
pub open spec fn step_of(s: EvalStep) -> Result<
    Result<bool, (nat, Seq<char>, Seq<char>)>,
    (nat, Seq<char>, Seq<Seq<char>>, Seq<char>, bool),
> {
    match s {
        EvalStep::Done(Ok(b)) => Ok(Ok(b)),
        EvalStep::Done(Err(e)) => Ok(Err(failure_of(e))),
        EvalStep::Ask(q) => Err(query_of(q)),
    }
}

/// The name of a language, as `Debug` writes it.
pub open spec fn language_name(l: PredicateLanguage) -> Seq<char> {
    match l {
        PredicateLanguage::JavaScript => "JavaScript"@,
        PredicateLanguage::Python => "Python"@,
        PredicateLanguage::Rust => "Rust"@,
        PredicateLanguage::Shell => "Shell"@,
    }
}

/// The body holds the expected text, when one is expected.
pub open spec fn body_ok(body: Seq<char>, needle: Option<String>) -> bool {
    match needle {
        Some(n) => text_contains(body, n@),
        None => true,
    }
}

/// What a path answer says (anything but a flag says no).
pub open spec fn flag_of(a: PredicateAnswer) -> bool {
    match a {
        PredicateAnswer::Flag(b) => b,
        _ => false,
    }
}

/// The outcome of an endpoint check from a fetch answer: the status and,
/// when text is expected, the body decide; a client that could not be built
/// fails with its error text, any other failure with the URL.
pub open spec fn fetch_outcome(a: PredicateAnswer, url: Seq<char>, status: u16, needle: Option<String>) -> Result<
    bool,
    (nat, Seq<char>, Seq<char>),
> {
    match a {
        PredicateAnswer::Fetched { status: s, body } => Ok(s == status && body_ok(body@, needle)),
        PredicateAnswer::ClientFailed(m) => Err((2, m@, Seq::empty())),
        _ => Err((2, url, Seq::empty())),
    }
}

/// The outcome of a command from a run answer: it passes when it exited with
/// the expected code; a process that could not run fails with its error
/// text (any other answer with no text).
pub open spec fn run_outcome(a: PredicateAnswer, expected: i32) -> Result<bool, (nat, Seq<char>, Seq<char>)> {
    match a {
        PredicateAnswer::Exited(code) => Ok(code == Some(expected)),
        PredicateAnswer::SpawnFailed(m) => Err((3, m@, Seq::empty())),
        _ => Err((3, Seq::empty(), Seq::empty())),
    }
}

/// Evaluating `p` from answer `pos` on: the outcome (or the query that has
/// no answer yet) and the position of the next unused answer. File and
/// directory checks, endpoints not recorded in the state, commands and shell
/// code each take one answer; test suites, metrics and recorded endpoints
/// are read from the state; a conjunction stops at the first part that is
/// false or fails, a disjunction at the first that is true or fails.
pub open spec fn eval_spec(p: Predicate, st: PredicateState, ans: Seq<PredicateAnswer>, pos: int) -> (
    Result<Result<bool, (nat, Seq<char>, Seq<char>)>, (nat, Seq<char>, Seq<Seq<char>>, Seq<char>, bool)>,
    int,
)
    decreases p, child_count(p) + 1,
{
    let dir = st.working_directory@;
    match p {
        Predicate::FileExists(path) => if pos < ans.len() {
            (Ok(Ok(flag_of(ans[pos]))), pos + 1)
        } else {
            (Err((1, resolved(dir, path@), Seq::empty(), Seq::empty(), false)), pos)
        },
        Predicate::DirectoryExists(path) => if pos < ans.len() {
            (Ok(Ok(flag_of(ans[pos]))), pos + 1)
        } else {
            (Err((2, resolved(dir, path@), Seq::empty(), Seq::empty(), false)), pos)
        },
        Predicate::TestsPassing { suite, min_coverage } => match lookup(st.test_results@, suite@) {
            Some(r) => (
                Ok(Ok(r.failed == 0 && compares(Comparison::GreaterThanOrEqual, r.coverage, min_coverage))),
                pos,
            ),
            None => (Ok(Err((1, suite@, Seq::empty()))), pos),
        },
        Predicate::ApiEndpoint { url, expected_status, expected_body_contains } => match lookup(
            st.api_responses@,
            url@,
        ) {
            Some(resp) => (
                Ok(Ok(resp.status == expected_status && body_ok(resp.body@, expected_body_contains))),
                pos,
            ),
            None => if pos < ans.len() {
                (Ok(fetch_outcome(ans[pos], url@, expected_status, expected_body_contains)), pos + 1)
            } else {
                (Err((3, url@, Seq::empty(), Seq::empty(), expected_body_contains is Some)), pos)
            },
        },
        Predicate::Performance { metric, threshold, comparison } => match lookup(
            st.performance_metrics@,
            metric@,
        ) {
            Some(v) => (Ok(Ok(compares(comparison, v, threshold))), pos),
            None => (Ok(Err((4, "metric '"@ + metric@ + "' available"@, "missing"@))), pos),
        },
        Predicate::CommandSucceeds { command, args, expected_exit_code } => if pos < ans.len() {
            (Ok(run_outcome(ans[pos], expected_exit_code)), pos + 1)
        } else {
            (Err((4, command@, views(args@), dir, false)), pos)
        },
        Predicate::Custom { code, language, .. } => if language == PredicateLanguage::Shell {
            if pos < ans.len() {
                (Ok(run_outcome(ans[pos], 0)), pos + 1)
            } else {
                (Err((4, "sh"@, seq!["-c"@, code@], dir, false)), pos)
            }
        } else {
            (
                Ok(Err((3, "Custom predicate language "@ + language_name(language) + " is not enabled"@, Seq::empty()))),
                pos,
            )
        },
        Predicate::And(_) => all_from(p, st, ans, pos, 0),
        Predicate::Or(_) => any_from(p, st, ans, pos, 0),
        Predicate::Not(q) => {
            let (o, next) = eval_spec(*q, st, ans, pos);
            (
                match o {
                    Ok(Ok(b)) => Ok(Ok(!b)),
                    other => other,
                },
                next,
            )
        },
        Predicate::AlwaysTrue => (Ok(Ok(true)), pos),
        Predicate::AlwaysFalse => (Ok(Ok(false)), pos),
    }
}

/// Evaluating the children of a conjunction from child `i` on: true when
/// none is left; a child that is false, fails or asks ends it.
pub open spec fn all_from(p: Predicate, st: PredicateState, ans: Seq<PredicateAnswer>, pos: int, i: int) -> (
    Result<Result<bool, (nat, Seq<char>, Seq<char>)>, (nat, Seq<char>, Seq<Seq<char>>, Seq<char>, bool)>,
    int,
)
    decreases p, child_count(p) - i,
{
    if i < 0 || i >= child_count(p) {
        (Ok(Ok(true)), pos)
    } else {
        let (o, next) = eval_spec(child(p, i), st, ans, pos);
        match o {
            Ok(Ok(true)) => all_from(p, st, ans, next, i + 1),
            _ => (o, next),
        }
    }
}

/// Evaluating the children of a disjunction from child `i` on: false when
/// none is left; a child that is true, fails or asks ends it.
pub open spec fn any_from(p: Predicate, st: PredicateState, ans: Seq<PredicateAnswer>, pos: int, i: int) -> (
    Result<Result<bool, (nat, Seq<char>, Seq<char>)>, (nat, Seq<char>, Seq<Seq<char>>, Seq<char>, bool)>,
    int,
)
    decreases p, child_count(p) - i,
{
    if i < 0 || i >= child_count(p) {
        (Ok(Ok(false)), pos)
    } else {
        let (o, next) = eval_spec(child(p, i), st, ans, pos);
        match o {
            Ok(Ok(false)) => any_from(p, st, ans, next, i + 1),
            _ => (o, next),
        }
    }
}


/// `a`, `b` and `c`, one after another.
fn text3(a: &str, b: &String, c: &str) -> (r: String)
    ensures
        r@ == a@ + b@ + c@,
{
    let mut v = chars_of(a);
    let mut w = chars_of(b.as_str());
    let mut x = chars_of(c);
    v.append(&mut w);
    v.append(&mut x);
    string_from_chars(&v)
}

/// The name of a language.
fn language_text(l: PredicateLanguage) -> (r: &'static str)
    ensures
        r@ == language_name(l),
{
    match l {
        PredicateLanguage::JavaScript => "JavaScript",
        PredicateLanguage::Python => "Python",
        PredicateLanguage::Rust => "Rust",
        PredicateLanguage::Shell => "Shell",
    }
}

/// Whether the body holds the expected text, when one is expected.
fn body_holds(body: &String, needle: &Option<String>) -> (b: bool)
    ensures
        b == body_ok(body@, *needle),
{
    match needle {
        Some(n) => contains_chars(&chars_of(body.as_str()), &chars_of(n.as_str())),
        None => true,
    }
}

/// An outcome matches its plain form.
pub open spec fn outcome_is(r: Result<bool, SentinelError>, o: Result<bool, (nat, Seq<char>, Seq<char>)>) -> bool {
    match r {
        Ok(b) => o == Ok::<bool, (nat, Seq<char>, Seq<char>)>(b),
        Err(e) => o == Err::<bool, (nat, Seq<char>, Seq<char>)>(failure_of(e)),
    }
}

/// A predicate error as the engine's error.
fn predicate_failure(e: PredicateError) -> (r: SentinelError)
    ensures
        r == SentinelError::Predicate(e),
{
    SentinelError::Predicate(e)
}

/// The outcome of a command from its run answer.
fn run_result(a: &PredicateAnswer, expected: i32) -> (r: Result<bool, SentinelError>)
    ensures
        outcome_is(r, run_outcome(*a, expected)),
{
    match a {
        PredicateAnswer::Exited(code) => Ok(
            match code {
                Some(c) => *c == expected,
                None => false,
            },
        ),
        PredicateAnswer::SpawnFailed(m) => Err(predicate_failure(PredicateError::CustomPredicateFailed(m.clone()))),
        _ => Err(predicate_failure(PredicateError::CustomPredicateFailed(String::new()))),
    }
}

/// The outcome of an endpoint check from its fetch answer.
fn fetch_result(a: &PredicateAnswer, url: &String, status: u16, needle: &Option<String>) -> (r: Result<
    bool,
    SentinelError,
>)
    ensures
        outcome_is(r, fetch_outcome(*a, url@, status, *needle)),
{
    match a {
        PredicateAnswer::Fetched { status: s, body } => Ok(*s == status && body_holds(body, needle)),
        PredicateAnswer::ClientFailed(m) => Err(predicate_failure(PredicateError::EndpointUnreachable(m.clone()))),
        _ => Err(predicate_failure(PredicateError::EndpointUnreachable(url.clone()))),
    }
}

/// Evaluate `p` from answer `pos` on (see `eval_spec`).
fn eval_at(p: &Predicate, st: &PredicateState, ans: &Vec<PredicateAnswer>, pos: usize) -> (r: (EvalStep, usize))
    requires
        pos <= ans@.len(),
    ensures
        step_of(r.0) == eval_spec(*p, *st, ans@, pos as int).0,
        r.1 == eval_spec(*p, *st, ans@, pos as int).1,
        r.1 <= ans@.len(),
    decreases p,
{
    match p {
        Predicate::FileExists(path) => {
            if pos < ans.len() {
                let b = match &ans[pos] {
                    PredicateAnswer::Flag(b) => *b,
                    _ => false,
                };
                (EvalStep::Done(Ok(b)), pos + 1)
            } else {
                (EvalStep::Ask(PredicateQuery::PathExists(st.resolve_path(path))), pos)
            }
        },
        Predicate::DirectoryExists(path) => {
            if pos < ans.len() {
                let b = match &ans[pos] {
                    PredicateAnswer::Flag(b) => *b,
                    _ => false,
                };
                (EvalStep::Done(Ok(b)), pos + 1)
            } else {
                (EvalStep::Ask(PredicateQuery::IsDirectory(st.resolve_path(path))), pos)
            }
        },
        Predicate::TestsPassing { suite, min_coverage } => {
            match find_key(&st.test_results, suite) {
                Some(i) => {
                    let r = st.test_results[i].1;
                    let ok = r.failed == 0 && compare_bits(Comparison::GreaterThanOrEqual, r.coverage, *min_coverage);
                    (EvalStep::Done(Ok(ok)), pos)
                },
                None => (
                    EvalStep::Done(Err(predicate_failure(PredicateError::TestSuiteNotFound(suite.clone())))),
                    pos,
                ),
            }
        },
        Predicate::ApiEndpoint { url, expected_status, expected_body_contains } => {
            match find_key(&st.api_responses, url) {
                Some(i) => {
                    let resp = &st.api_responses[i].1;
                    let ok = resp.status == *expected_status && body_holds(&resp.body, expected_body_contains);
                    (EvalStep::Done(Ok(ok)), pos)
                },
                None => {
                    if pos < ans.len() {
                        let o = fetch_result(&ans[pos], url, *expected_status, expected_body_contains);
                        (EvalStep::Done(o), pos + 1)
                    } else {
                        let with_body = match expected_body_contains {
                            Some(_) => true,
                            None => false,
                        };
                        (EvalStep::Ask(PredicateQuery::Fetch { url: url.clone(), with_body }), pos)
                    }
                },
            }
        },
        Predicate::Performance { metric, threshold, comparison } => {
            match find_key(&st.performance_metrics, metric) {
                Some(i) => {
                    let v = st.performance_metrics[i].1;
                    (EvalStep::Done(Ok(compare_bits(*comparison, v, *threshold))), pos)
                },
                None => {
                    let expected = text3("metric '", metric, "' available");
                    let actual = "missing".to_string();
                    (
                        EvalStep::Done(Err(predicate_failure(PredicateError::TypeMismatch { expected, actual }))),
                        pos,
                    )
                },
            }
        },
        Predicate::CommandSucceeds { command, args, expected_exit_code } => {
            if pos < ans.len() {
                (EvalStep::Done(run_result(&ans[pos], *expected_exit_code)), pos + 1)
            } else {
                let q = PredicateQuery::Run {
                    program: command.clone(),
                    args: clone_strings(args),
                    dir: st.working_directory.clone(),
                };
                (EvalStep::Ask(q), pos)
            }
        },
        Predicate::Custom { code, language, .. } => {
            if *language == PredicateLanguage::Shell {
                if pos < ans.len() {
                    (EvalStep::Done(run_result(&ans[pos], 0)), pos + 1)
                } else {
                    let mut args: Vec<String> = Vec::new();
                    args.push("-c".to_string());
                    args.push(code.clone());
                    proof {
                        assert(views(args@) =~= seq!["-c"@, code@]);
                    }
                    let q = PredicateQuery::Run {
                        program: "sh".to_string(),
                        args,
                        dir: st.working_directory.clone(),
                    };
                    (EvalStep::Ask(q), pos)
                }
            } else {
                let m = text3("Custom predicate language ", &language_text(*language).to_string(), " is not enabled");
                (EvalStep::Done(Err(predicate_failure(PredicateError::CustomPredicateFailed(m)))), pos)
            }
        },
        Predicate::And(preds) => eval_all_from(p, preds, st, ans, pos),
        Predicate::Or(preds) => eval_any_from(p, preds, st, ans, pos),
        Predicate::Not(q) => {
            let (s, next) = eval_at(q, st, ans, pos);
            match s {
                EvalStep::Done(Ok(b)) => (EvalStep::Done(Ok(!b)), next),
                other => (other, next),
            }
        },
        Predicate::AlwaysTrue => (EvalStep::Done(Ok(true)), pos),
        Predicate::AlwaysFalse => (EvalStep::Done(Ok(false)), pos),
    }
}

/// Evaluate the children of a conjunction in order (see `all_from`).
fn eval_all_from(
    whole: &Predicate,
    preds: &Vec<Predicate>,
    st: &PredicateState,
    ans: &Vec<PredicateAnswer>,
    pos: usize,
) -> (r: (EvalStep, usize))
    requires
        whole is And,
        children_are(*whole, *preds),
        pos <= ans@.len(),
    ensures
        step_of(r.0) == all_from(*whole, *st, ans@, pos as int, 0).0,
        r.1 == all_from(*whole, *st, ans@, pos as int, 0).1,
        r.1 <= ans@.len(),
    decreases whole, 0nat,
{
    let mut cur: usize = pos;
    let mut i: usize = 0;
    while i < preds.len()
        invariant
            whole is And,
            children_are(*whole, *preds),
            child_count(*whole) == preds@.len(),
            i <= preds@.len(),
            cur <= ans@.len(),
            all_from(*whole, *st, ans@, pos as int, 0) == all_from(*whole, *st, ans@, cur as int, i as int),
        decreases preds.len() - i,
    {
        proof {
            assert(child(*whole, i as int) == preds@[i as int]);
        }
        let (s, next) = eval_at(&preds[i], st, ans, cur);
        let go_on = match &s {
            EvalStep::Done(Ok(b)) => *b,
            _ => false,
        };
        if !go_on {
            return (s, next);
        }
        cur = next;
        i = i + 1;
    }
    (EvalStep::Done(Ok(true)), cur)
}

/// Evaluate the children of a disjunction in order (see `any_from`).
fn eval_any_from(
    whole: &Predicate,
    preds: &Vec<Predicate>,
    st: &PredicateState,
    ans: &Vec<PredicateAnswer>,
    pos: usize,
) -> (r: (EvalStep, usize))
    requires
        whole is Or,
        children_are(*whole, *preds),
        pos <= ans@.len(),
    ensures
        step_of(r.0) == any_from(*whole, *st, ans@, pos as int, 0).0,
        r.1 == any_from(*whole, *st, ans@, pos as int, 0).1,
        r.1 <= ans@.len(),
    decreases whole, 0nat,
{
    let mut cur: usize = pos;
    let mut i: usize = 0;
    while i < preds.len()
        invariant
            whole is Or,
            children_are(*whole, *preds),
            child_count(*whole) == preds@.len(),
            i <= preds@.len(),
            cur <= ans@.len(),
            any_from(*whole, *st, ans@, pos as int, 0) == any_from(*whole, *st, ans@, cur as int, i as int),
        decreases preds.len() - i,
    {
        proof {
            assert(child(*whole, i as int) == preds@[i as int]);
        }
        let (s, next) = eval_at(&preds[i], st, ans, cur);
        let go_on = match &s {
            EvalStep::Done(Ok(b)) => !*b,
            _ => false,
        };
        if !go_on {
            return (s, next);
        }
        cur = next;
        i = i + 1;
    }
    (EvalStep::Done(Ok(false)), cur)
}

impl Predicate {
    /// Evaluate the predicate against the state, with the answers given so
    /// far to its queries: the outcome, or the next query to answer (see
    /// `eval_spec`).
    pub fn evaluate_step(&self, state: &PredicateState, answers: &Vec<PredicateAnswer>) -> (s: EvalStep)
        ensures
            step_of(s) == eval_spec(*self, *state, answers@, 0).0,
    {
        eval_at(self, state, answers, 0).0
    }
}


proof fn lemma_eval_bounds(p: Predicate, st: PredicateState, ans: Seq<PredicateAnswer>, pos: int)
    requires
        0 <= pos <= ans.len(),
    ensures
        pos <= eval_spec(p, st, ans, pos).1 <= ans.len(),
        eval_spec(p, st, ans, pos).0 is Err ==> eval_spec(p, st, ans, pos).1 == ans.len(),
    decreases p, child_count(p) + 1,
{
    match p {
        Predicate::And(_) => lemma_all_bounds(p, st, ans, pos, 0),
        Predicate::Or(_) => lemma_any_bounds(p, st, ans, pos, 0),
        Predicate::Not(q) => lemma_eval_bounds(*q, st, ans, pos),
        _ => {},
    }
}

proof fn lemma_all_bounds(p: Predicate, st: PredicateState, ans: Seq<PredicateAnswer>, pos: int, i: int)
    requires
        0 <= pos <= ans.len(),
    ensures
        pos <= all_from(p, st, ans, pos, i).1 <= ans.len(),
        all_from(p, st, ans, pos, i).0 is Err ==> all_from(p, st, ans, pos, i).1 == ans.len(),
    decreases p, child_count(p) - i,
{
    if 0 <= i < child_count(p) {
        lemma_eval_bounds(child(p, i), st, ans, pos);
        let (o, next) = eval_spec(child(p, i), st, ans, pos);
        if o == Ok::<Result<bool, (nat, Seq<char>, Seq<char>)>, (nat, Seq<char>, Seq<Seq<char>>, Seq<char>, bool)>(Ok(true)) {
            lemma_all_bounds(p, st, ans, next, i + 1);
        }
    }
}

proof fn lemma_any_bounds(p: Predicate, st: PredicateState, ans: Seq<PredicateAnswer>, pos: int, i: int)
    requires
        0 <= pos <= ans.len(),
    ensures
        pos <= any_from(p, st, ans, pos, i).1 <= ans.len(),
        any_from(p, st, ans, pos, i).0 is Err ==> any_from(p, st, ans, pos, i).1 == ans.len(),
    decreases p, child_count(p) - i,
{
    if 0 <= i < child_count(p) {
        lemma_eval_bounds(child(p, i), st, ans, pos);
        let (o, next) = eval_spec(child(p, i), st, ans, pos);
        if o == Ok::<Result<bool, (nat, Seq<char>, Seq<char>)>, (nat, Seq<char>, Seq<Seq<char>>, Seq<char>, bool)>(Ok(false)) {
            lemma_any_bounds(p, st, ans, next, i + 1);
        }
    }
}

/// Evaluation asks only once every answer given has been used: the answer
/// to a query is always the next one after those given, so answering the
/// queries in the order they come performs the checks in the order of
/// evaluation, each once.
pub proof fn law_asks_after_all_answers(p: Predicate, st: PredicateState, ans: Seq<PredicateAnswer>)
    ensures
        eval_spec(p, st, ans, 0).0 is Err ==> eval_spec(p, st, ans, 0).1 == ans.len(),
        eval_spec(p, st, ans, 0).1 <= ans.len(),
{
    lemma_eval_bounds(p, st, ans, 0);
}

proof fn lemma_eval_extend(p: Predicate, st: PredicateState, ans: Seq<PredicateAnswer>, more: Seq<PredicateAnswer>, pos: int)
    requires
        0 <= pos <= ans.len(),
        eval_spec(p, st, ans, pos).0 is Ok,
    ensures
        eval_spec(p, st, ans + more, pos) == eval_spec(p, st, ans, pos),
    decreases p, child_count(p) + 1,
{
    if pos < ans.len() {
        assert((ans + more)[pos] == ans[pos]);
    }
    match p {
        Predicate::And(_) => lemma_all_extend(p, st, ans, more, pos, 0),
        Predicate::Or(_) => lemma_any_extend(p, st, ans, more, pos, 0),
        Predicate::Not(q) => lemma_eval_extend(*q, st, ans, more, pos),
        _ => {},
    }
}

proof fn lemma_all_extend(
    p: Predicate,
    st: PredicateState,
    ans: Seq<PredicateAnswer>,
    more: Seq<PredicateAnswer>,
    pos: int,
    i: int,
)
    requires
        0 <= pos <= ans.len(),
        all_from(p, st, ans, pos, i).0 is Ok,
    ensures
        all_from(p, st, ans + more, pos, i) == all_from(p, st, ans, pos, i),
    decreases p, child_count(p) - i,
{
    if 0 <= i < child_count(p) {
        let (o, next) = eval_spec(child(p, i), st, ans, pos);
        lemma_eval_bounds(child(p, i), st, ans, pos);
        if o is Ok {
            lemma_eval_extend(child(p, i), st, ans, more, pos);
            if o == Ok::<Result<bool, (nat, Seq<char>, Seq<char>)>, (nat, Seq<char>, Seq<Seq<char>>, Seq<char>, bool)>(Ok(true)) {
                lemma_all_extend(p, st, ans, more, next, i + 1);
            }
        }
    }
}

proof fn lemma_any_extend(
    p: Predicate,
    st: PredicateState,
    ans: Seq<PredicateAnswer>,
    more: Seq<PredicateAnswer>,
    pos: int,
    i: int,
)
    requires
        0 <= pos <= ans.len(),
        any_from(p, st, ans, pos, i).0 is Ok,
    ensures
        any_from(p, st, ans + more, pos, i) == any_from(p, st, ans, pos, i),
    decreases p, child_count(p) - i,
{
    if 0 <= i < child_count(p) {
        let (o, next) = eval_spec(child(p, i), st, ans, pos);
        lemma_eval_bounds(child(p, i), st, ans, pos);
        if o is Ok {
            lemma_eval_extend(child(p, i), st, ans, more, pos);
            if o == Ok::<Result<bool, (nat, Seq<char>, Seq<char>)>, (nat, Seq<char>, Seq<Seq<char>>, Seq<char>, bool)>(Ok(false)) {
                lemma_any_extend(p, st, ans, more, next, i + 1);
            }
        }
    }
}

/// Once evaluation has an outcome, further answers change nothing.
pub proof fn law_outcome_ignores_more_answers(
    p: Predicate,
    st: PredicateState,
    ans: Seq<PredicateAnswer>,
    more: Seq<PredicateAnswer>,
)
    requires
        eval_spec(p, st, ans, 0).0 is Ok,
    ensures
        eval_spec(p, st, ans + more, 0) == eval_spec(p, st, ans, 0),
{
    lemma_eval_extend(p, st, ans, more, 0);
}

/// A test-suite check passes only for a recorded suite with no failed test
/// and at least the required coverage: any failed test makes it false, a
/// coverage below the minimum makes it false, and a suite with no record
/// fails with `TestSuiteNotFound`. It takes no answer from outside.
pub proof fn law_tests_passing_needs_no_failures(
    suite: String,
    min_coverage: u64,
    st: PredicateState,
    ans: Seq<PredicateAnswer>,
    pos: int,
)
    ensures
        ({
            let p = Predicate::TestsPassing { suite, min_coverage };
            let (o, next) = eval_spec(p, st, ans, pos);
            &&& next == pos
            &&& (o matches Ok(Ok(b)) && b) ==> (lookup(st.test_results@, suite@) matches Some(r) && r.failed == 0
                && !f64_nan(r.coverage) && !f64_nan(min_coverage) && f64_rank(r.coverage) >= f64_rank(min_coverage))
            &&& (lookup(st.test_results@, suite@) matches Some(r) && r.failed > 0) ==> o == Ok::<
                Result<bool, (nat, Seq<char>, Seq<char>)>,
                (nat, Seq<char>, Seq<Seq<char>>, Seq<char>, bool),
            >(Ok(false))
            &&& lookup(st.test_results@, suite@) is None ==> o == Ok::<
                Result<bool, (nat, Seq<char>, Seq<char>)>,
                (nat, Seq<char>, Seq<Seq<char>>, Seq<char>, bool),
            >(Err((1, suite@, Seq::empty())))
        }),
{
}

} // verus!
