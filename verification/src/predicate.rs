//! Formal predicates: the success criteria of goals and the invariants of the
//! manifold. Floating-point fields hold the bits of the number.

use vstd::prelude::*;
use crate::text::{concat_text, decimal_chars, decimal_text, string_from_chars};

verus! {

/// How a measured value is compared with a threshold.
#[derive(Debug, Clone, Copy, PartialEq, Eq, Structural)]
pub enum Comparison {
    LessThan,
    LessThanOrEqual,
    Equal,
    GreaterThanOrEqual,
    GreaterThan,
}

/// Languages of custom predicates.
#[derive(Debug, Clone, Copy, PartialEq, Eq, Structural)]
pub enum PredicateLanguage {
    JavaScript,
    Python,
    Rust,
    Shell,
}

/// A recorded answer of an endpoint.
pub struct PredicateApiResponse {
    pub status: u16,
    pub body: String,
}

/// A formal predicate over the state of a project.
#[derive(Debug)]
pub enum Predicate {
    /// A file exists at the path
    FileExists(String),
    /// A directory exists at the path
    DirectoryExists(String),
    /// The suite passes with at least this coverage (bits of a fraction)
    TestsPassing { suite: String, min_coverage: u64 },
    /// The endpoint answers with this status (and body text)
    ApiEndpoint { url: String, expected_status: u16, expected_body_contains: Option<String> },
    /// A metric compares with a threshold (bits of a number)
    Performance { metric: String, threshold: u64, comparison: Comparison },
    /// A command exits with this code
    CommandSucceeds { command: String, args: Vec<String>, expected_exit_code: i32 },
    /// Code that decides the predicate
    Custom { code: String, language: PredicateLanguage, description: String },
    /// All hold
    And(Vec<Predicate>),
    /// At least one holds
    Or(Vec<Predicate>),
    /// The inner predicate does not hold
    Not(Box<Predicate>),
    /// Always true
    AlwaysTrue,
    /// Always false
    AlwaysFalse,
}

/// `p` is a conjunction or disjunction of `preds`.
pub open spec fn children_are(p: Predicate, preds: Vec<Predicate>) -> bool {
    match p {
        Predicate::And(ps) => ps == preds,
        Predicate::Or(ps) => ps == preds,
        _ => false,
    }
}

/// Number of children of a conjunction or disjunction (0 for others).
pub open spec fn child_count(p: Predicate) -> nat {
    match p {
        Predicate::And(ps) => ps@.len(),
        Predicate::Or(ps) => ps@.len(),
        _ => 0,
    }
}

/// Child `i` of a conjunction or disjunction.
pub open spec fn child(p: Predicate, i: int) -> Predicate
    recommends
        0 <= i < child_count(p),
{
    match p {
        Predicate::And(ps) => ps@[i],
        Predicate::Or(ps) => ps@[i],
        _ => p,
    }
}

/// Cost of evaluating a predicate on a scale from 0 (constants) upwards:
/// file checks 1, commands 4, endpoints 5, metrics 6, test suites 7, custom
/// code 8; a combination costs one more than its dearest part (an empty one
/// costs 1), a negation one more than its operand.
pub open spec fn spec_complexity(p: Predicate) -> nat
    decreases p, child_count(p) + 1,
{
    match p {
        Predicate::AlwaysTrue | Predicate::AlwaysFalse => 0,
        Predicate::FileExists(_) | Predicate::DirectoryExists(_) => 1,
        Predicate::TestsPassing { .. } => 7,
        Predicate::ApiEndpoint { .. } => 5,
        Predicate::Performance { .. } => 6,
        Predicate::CommandSucceeds { .. } => 4,
        Predicate::Custom { .. } => 8,
        Predicate::And(_) | Predicate::Or(_) => max_child_complexity(p, child_count(p)) + 1,
        Predicate::Not(q) => spec_complexity(*q) + 1,
    }
}

/// The largest cost among the first `n` children of `p` (0 for none).
pub open spec fn max_child_complexity(p: Predicate, n: nat) -> nat
    decreases p, n,
{
    if n == 0 || n > child_count(p) {
        0
    } else {
        let m = max_child_complexity(p, (n - 1) as nat);
        let c = spec_complexity(child(p, n - 1));
        if c > m {
            c
        } else {
            m
        }
    }
}

/// The predicate needs the file system, a network or a process to decide:
/// file, directory, test, endpoint, command and custom checks do; constants
/// and metric comparisons do not; a combination does when some part does.
pub open spec fn spec_external(p: Predicate) -> bool
    decreases p, child_count(p) + 1,
{
    match p {
        Predicate::FileExists(_) | Predicate::DirectoryExists(_) | Predicate::TestsPassing { .. }
        | Predicate::ApiEndpoint { .. } | Predicate::CommandSucceeds { .. } | Predicate::Custom { .. } => true,
        Predicate::And(_) | Predicate::Or(_) => some_child_external(p, child_count(p)),
        Predicate::Not(q) => spec_external(*q),
        Predicate::AlwaysTrue | Predicate::AlwaysFalse | Predicate::Performance { .. } => false,
    }
}

/// Some of the first `n` children of `p` needs outside resources.
pub open spec fn some_child_external(p: Predicate, n: nat) -> bool
    decreases p, n,
{
    if n == 0 || n > child_count(p) {
        false
    } else {
        some_child_external(p, (n - 1) as nat) || spec_external(child(p, n - 1))
    }
}

/// A combination costs at least as much as each of its first `n` children.
proof fn lemma_max_child_bounds(p: Predicate, n: nat, k: int)
    requires
        n <= child_count(p),
        0 <= k < n,
    ensures
        spec_complexity(child(p, k)) <= max_child_complexity(p, n),
    decreases n,
{
    if k < n - 1 {
        lemma_max_child_bounds(p, (n - 1) as nat, k);
    }
}

impl Predicate {
    /// The cost of evaluating the predicate (see `spec_complexity`).
    pub fn complexity(&self) -> (c: u8)
        requires
            spec_complexity(*self) <= u8::MAX,
        ensures
            c == spec_complexity(*self),
        decreases self,
    {
        match self {
            Predicate::AlwaysTrue | Predicate::AlwaysFalse => 0,
            Predicate::FileExists(_) | Predicate::DirectoryExists(_) => 1,
            Predicate::TestsPassing { .. } => 7,
            Predicate::ApiEndpoint { .. } => 5,
            Predicate::Performance { .. } => 6,
            Predicate::CommandSucceeds { .. } => 4,
            Predicate::Custom { .. } => 8,
            Predicate::And(preds) => {
                let m = Predicate::max_complexity(self, preds);
                m + 1
            },
            Predicate::Or(preds) => {
                let m = Predicate::max_complexity(self, preds);
                m + 1
            },
            Predicate::Not(q) => q.complexity() + 1,
        }
    }

    /// The largest cost among the children `preds` of `whole`.
    fn max_complexity(whole: &Predicate, preds: &Vec<Predicate>) -> (m: u8)
        requires
            children_are(*whole, *preds),
            spec_complexity(*whole) <= u8::MAX,
        ensures
            m == max_child_complexity(*whole, child_count(*whole)),
            m < u8::MAX,
        decreases whole, 0nat,
    {
        let mut m: u8 = 0;
        let mut i: usize = 0;
        while i < preds.len()
            invariant
                children_are(*whole, *preds),
                spec_complexity(*whole) <= u8::MAX,
                child_count(*whole) == preds@.len(),
                i <= preds@.len(),
                m == max_child_complexity(*whole, i as nat),
            decreases preds.len() - i,
        {
            proof {
                lemma_max_child_bounds(*whole, child_count(*whole), i as int);
                assert(child(*whole, i as int) == preds@[i as int]);
            }
            let c = preds[i].complexity();
            if c > m {
                m = c;
            }
            i = i + 1;
        }
        m
    }

    /// Whether deciding the predicate needs the file system, a network or a
    /// process (see `spec_external`).
    pub fn requires_external_resources(&self) -> (b: bool)
        ensures
            b == spec_external(*self),
        decreases self,
    {
        match self {
            Predicate::FileExists(_) | Predicate::DirectoryExists(_) | Predicate::TestsPassing { .. }
            | Predicate::ApiEndpoint { .. } | Predicate::CommandSucceeds { .. } | Predicate::Custom { .. } => true,
            Predicate::And(preds) => Predicate::any_external(self, preds),
            Predicate::Or(preds) => Predicate::any_external(self, preds),
            Predicate::Not(q) => q.requires_external_resources(),
            Predicate::AlwaysTrue | Predicate::AlwaysFalse | Predicate::Performance { .. } => false,
        }
    }

    /// Whether some child `preds` of `whole` needs outside resources.
    fn any_external(whole: &Predicate, preds: &Vec<Predicate>) -> (b: bool)
        requires
            children_are(*whole, *preds),
        ensures
            b == some_child_external(*whole, child_count(*whole)),
        decreases whole, 0nat,
    {
        let mut i: usize = 0;
        while i < preds.len()
            invariant
                children_are(*whole, *preds),
                child_count(*whole) == preds@.len(),
                i <= preds@.len(),
                !some_child_external(*whole, i as nat),
            decreases preds.len() - i,
        {
            proof {
                assert(child(*whole, i as int) == preds@[i as int]);
            }
            if preds[i].requires_external_resources() {
                proof {
                    lemma_some_child_external_grows(*whole, (i + 1) as nat, child_count(*whole));
                }
                return true;
            }
            i = i + 1;
        }
        false
    }
}

/// Once some child among the first `n` needs outside resources, so does one
/// among the first `m >= n`.
proof fn lemma_some_child_external_grows(p: Predicate, n: nat, m: nat)
    requires
        n <= m <= child_count(p),
        some_child_external(p, n),
    ensures
        some_child_external(p, m),
    decreases m - n,
{
    if n < m {
        lemma_some_child_external_grows(p, n, (m - 1) as nat);
    }
}

/// `c` is the constant that the combination `p` drops: `AlwaysTrue` in a
/// conjunction, `AlwaysFalse` in a disjunction.
pub open spec fn is_neutral(p: Predicate, c: Predicate) -> bool {
    match p {
        Predicate::And(_) => c is AlwaysTrue,
        Predicate::Or(_) => c is AlwaysFalse,
        _ => false,
    }
}

/// `c` is the constant that decides the combination `p`: `AlwaysFalse` in a
/// conjunction, `AlwaysTrue` in a disjunction.
pub open spec fn is_absorbing(p: Predicate, c: Predicate) -> bool {
    match p {
        Predicate::And(_) => c is AlwaysFalse,
        Predicate::Or(_) => c is AlwaysTrue,
        _ => false,
    }
}

/// The positions, among the first `n` children of `p`, of those that are not
/// dropped, in order.
pub open spec fn kept(p: Predicate, n: nat) -> Seq<int>
    decreases n,
{
    if n == 0 || n > child_count(p) {
        Seq::empty()
    } else {
        let k = kept(p, (n - 1) as nat);
        if is_neutral(p, child(p, n - 1)) {
            k
        } else {
            k.push(n - 1)
        }
    }
}

/// Kept positions are ascending positions among the first `n`.
pub proof fn lemma_kept_bounds(p: Predicate, n: nat)
    ensures
        kept(p, n).len() <= n,
        forall|m: int| 0 <= m < kept(p, n).len() ==> 0 <= #[trigger] kept(p, n)[m] < n,
        n <= child_count(p) ==> forall|m: int| 0 <= m < kept(p, n).len() ==> !is_neutral(p, child(p, #[trigger] kept(p, n)[m])),
    decreases n,
{
    if n > 0 && n <= child_count(p) {
        lemma_kept_bounds(p, (n - 1) as nat);
    }
}

/// Some of the first `n` children of `p` decides it.
pub open spec fn some_absorbing(p: Predicate, n: nat) -> bool {
    exists|j: int| 0 <= j < n && j < child_count(p) && is_absorbing(p, #[trigger] child(p, j))
}

/// `r` is what simplifying `p` gives:
/// - a conjunction with an `AlwaysFalse` child is `AlwaysFalse`; otherwise
///   its children other than `AlwaysTrue` are simplified, and none gives
///   `AlwaysTrue`, one gives itself, more give their conjunction;
/// - a disjunction likewise, with the roles of the constants swapped;
/// - the negation of a constant is the other constant, a double negation is
///   the simplified inner predicate, other negations negate the simplified
///   operand;
/// - everything else stays as it is.
pub open spec fn simplifies_to(p: Predicate, r: Predicate) -> bool
    decreases p, child_count(p) + 1,
{
    match p {
        Predicate::And(_) | Predicate::Or(_) => {
            let k = kept(p, child_count(p));
            proof {
                lemma_kept_bounds(p, child_count(p));
            }
            if some_absorbing(p, child_count(p)) {
                if p is And {
                    r is AlwaysFalse
                } else {
                    r is AlwaysTrue
                }
            } else if k.len() == 0 {
                if p is And {
                    r is AlwaysTrue
                } else {
                    r is AlwaysFalse
                }
            } else if k.len() == 1 {
                simplifies_to(child(p, k[0]), r)
            } else {
                &&& (p is And ==> r is And)
                &&& (p is Or ==> r is Or)
                &&& child_count(r) == k.len()
                &&& all_simplify(p, r, k.len())
            }
        },
        Predicate::Not(q) => match *q {
            Predicate::AlwaysTrue => r is AlwaysFalse,
            Predicate::AlwaysFalse => r is AlwaysTrue,
            Predicate::Not(inner) => simplifies_to(*inner, r),
            _ => r matches Predicate::Not(rq) && simplifies_to(*q, *rq),
        },
        _ => r == p,
    }
}

/// The first `m` children of `r` are the simplified kept children of `p`.
pub open spec fn all_simplify(p: Predicate, r: Predicate, m: nat) -> bool
    decreases p, m,
{
    let k = kept(p, child_count(p));
    proof {
        lemma_kept_bounds(p, child_count(p));
    }
    if m == 0 {
        true
    } else if m > k.len() {
        false
    } else {
        all_simplify(p, r, (m - 1) as nat) && simplifies_to(child(p, k[m - 1]), child(r, m - 1))
    }
}

/// The kept positions among the first `n` children start those among the
/// first `m >= n`.
proof fn lemma_kept_prefix(p: Predicate, n: nat, m: nat)
    requires
        n <= m <= child_count(p),
    ensures
        kept(p, n).len() <= kept(p, m).len(),
        forall|j: int| 0 <= j < kept(p, n).len() ==> #[trigger] kept(p, m)[j] == kept(p, n)[j],
    decreases m - n,
{
    if n < m {
        lemma_kept_prefix(p, n, (m - 1) as nat);
    }
}

/// Pointwise simplification of the kept children gives `all_simplify`.
proof fn lemma_all_simplify(p: Predicate, r: Predicate, m: nat)
    requires
        m <= kept(p, child_count(p)).len(),
        forall|j: int| 0 <= j < m ==> simplifies_to(
            child(p, kept(p, child_count(p))[j]),
            #[trigger] child(r, j),
        ),
    ensures
        all_simplify(p, r, m),
    decreases m,
{
    if m > 0 {
        lemma_all_simplify(p, r, (m - 1) as nat);
    }
}

impl Predicate {
    /// Simplify the predicate by the rules of logic (see `simplifies_to`):
    /// constants are absorbed or dropped from combinations, combinations of
    /// one part are that part, double negations cancel.
    pub fn simplify(self) -> (r: Predicate)
        ensures
            simplifies_to(self, r),
        decreases self, 1nat,
    {
        let ghost whole = self;
        match self {
            Predicate::And(preds) => Predicate::simplify_parts(Ghost(whole), preds, true),
            Predicate::Or(preds) => Predicate::simplify_parts(Ghost(whole), preds, false),
            Predicate::Not(q) => {
                let inner = *q;
                match inner {
                    Predicate::AlwaysTrue => Predicate::AlwaysFalse,
                    Predicate::AlwaysFalse => Predicate::AlwaysTrue,
                    Predicate::Not(x) => {
                        let y = *x;
                        y.simplify()
                    },
                    other => Predicate::Not(Box::new(other.simplify())),
                }
            },
            other => other,
        }
    }

    /// Simplify a conjunction (`is_and`) or disjunction `whole` of `preds`.
    fn simplify_parts(whole: Ghost<Predicate>, preds: Vec<Predicate>, is_and: bool) -> (r: Predicate)
        requires
            children_are(whole@, preds),
            is_and <==> whole@ is And,
        ensures
            simplifies_to(whole@, r),
        decreases whole@, 0nat,
    {
        let ghost cc = child_count(whole@);
        let ghost orig = preds@;
        proof {
            lemma_kept_bounds(whole@, cc);
        }
        let mut i: usize = 0;
        while i < preds.len()
            invariant
                children_are(whole@, preds),
                is_and <==> whole@ is And,
                cc == preds@.len(),
                i <= preds@.len(),
                !some_absorbing(whole@, i as nat),
            decreases preds.len() - i,
        {
            let absorbing = match &preds[i] {
                Predicate::AlwaysFalse => is_and,
                Predicate::AlwaysTrue => !is_and,
                _ => false,
            };
            assert(child(whole@, i as int) == preds@[i as int]);
            if absorbing {
                assert(is_absorbing(whole@, child(whole@, i as int)));
                assert(some_absorbing(whole@, cc));
                if is_and {
                    return Predicate::AlwaysFalse;
                } else {
                    return Predicate::AlwaysTrue;
                }
            }
            proof {
                assert forall|j: int| 0 <= j < i + 1 && j < child_count(whole@) implies !is_absorbing(whole@, #[trigger] child(whole@, j)) by {
                    if j < i {
                        assert(!some_absorbing(whole@, i as nat));
                    }
                }
            }
            i = i + 1;
        }
        let total = preds.len();
        let mut src = preds;
        let mut out: Vec<Predicate> = Vec::new();
        let mut n: usize = 0;
        while src.len() > 0
            invariant
                total == cc,
                is_and <==> whole@ is And,
                cc == orig.len(),
                cc == child_count(whole@),
                forall|j: int| 0 <= j < cc ==> #[trigger] child(whole@, j) == orig[j],
                n <= cc,
                src@ == orig.skip(n as int),
                out@.len() == kept(whole@, n as nat).len(),
                forall|m: int| 0 <= m < out@.len() ==> simplifies_to(
                    child(whole@, #[trigger] kept(whole@, n as nat)[m]),
                    out@[m],
                ),
            decreases src.len(),
        {
            let ghost before = out@;
            assert(orig.skip(n as int).len() == cc - n);
            let x = src.remove(0);
            assert(x == orig[n as int]);
            assert(child(whole@, n as int) == x);
            let neutral = match &x {
                Predicate::AlwaysTrue => is_and,
                Predicate::AlwaysFalse => !is_and,
                _ => false,
            };
            proof {
                lemma_kept_prefix(whole@, n as nat, (n + 1) as nat);
                assert(neutral == is_neutral(whole@, child(whole@, n as int)));
            }
            if !neutral {
                let y = x.simplify();
                out.push(y);
                proof {
                    assert(kept(whole@, (n + 1) as nat) == kept(whole@, n as nat).push(n as int));
                }
            }
            proof {
                assert(src@ =~= orig.skip(n as int + 1));
            }
            n = n + 1;
        }
        proof {
            assert(n == cc) by {
                if n < cc {
                    assert(orig.skip(n as int).len() > 0);
                }
            }
            lemma_kept_bounds(whole@, cc);
            assert(!some_absorbing(whole@, cc));
        }
        if out.len() == 0 {
            if is_and {
                Predicate::AlwaysTrue
            } else {
                Predicate::AlwaysFalse
            }
        } else if out.len() == 1 {
            let r = out.pop().unwrap();
            r
        } else {
            let ghost k = kept(whole@, cc);
            let r = if is_and {
                Predicate::And(out)
            } else {
                Predicate::Or(out)
            };
            proof {
                assert forall|j: int| 0 <= j < k.len() implies simplifies_to(
                    child(whole@, k[j]),
                    #[trigger] child(r, j),
                ) by {
                    assert(child(r, j) == out@[j]);
                }
                lemma_all_simplify(whole@, r, k.len());
            }
            r
        }
    }
}

/// Whether `p` holds when each basic check `q` comes out as `env(q)`.
pub open spec fn holds(p: Predicate, env: spec_fn(Predicate) -> bool) -> bool
    decreases p, child_count(p) + 1,
{
    match p {
        Predicate::And(_) => all_children_hold(p, env, child_count(p)),
        Predicate::Or(_) => some_child_holds(p, env, child_count(p)),
        Predicate::Not(q) => !holds(*q, env),
        Predicate::AlwaysTrue => true,
        Predicate::AlwaysFalse => false,
        _ => env(p),
    }
}

/// Each of the first `n` children of `p` holds.
pub open spec fn all_children_hold(p: Predicate, env: spec_fn(Predicate) -> bool, n: nat) -> bool
    decreases p, n,
{
    if n == 0 || n > child_count(p) {
        true
    } else {
        all_children_hold(p, env, (n - 1) as nat) && holds(child(p, n - 1), env)
    }
}

/// Some of the first `n` children of `p` holds.
pub open spec fn some_child_holds(p: Predicate, env: spec_fn(Predicate) -> bool, n: nat) -> bool
    decreases p, n,
{
    if n == 0 || n > child_count(p) {
        false
    } else {
        some_child_holds(p, env, (n - 1) as nat) || holds(child(p, n - 1), env)
    }
}

/// `all_children_hold` means every child among the first `n` holds.
pub(crate) proof fn lemma_all_children_hold(p: Predicate, env: spec_fn(Predicate) -> bool, n: nat)
    requires
        n <= child_count(p),
    ensures
        all_children_hold(p, env, n) <==> forall|j: int| 0 <= j < n ==> holds(#[trigger] child(p, j), env),
    decreases n,
{
    if n > 0 {
        lemma_all_children_hold(p, env, (n - 1) as nat);
    }
}

/// `some_child_holds` means some child among the first `n` holds.
pub(crate) proof fn lemma_some_child_holds(p: Predicate, env: spec_fn(Predicate) -> bool, n: nat)
    requires
        n <= child_count(p),
    ensures
        some_child_holds(p, env, n) <==> exists|j: int| 0 <= j < n && holds(#[trigger] child(p, j), env),
    decreases n,
{
    if n > 0 {
        lemma_some_child_holds(p, env, (n - 1) as nat);
        if holds(child(p, n - 1), env) {
            assert(0 <= n - 1 < n && holds(child(p, n - 1), env));
        }
    }
}

/// Every position among the first `n` children that is not dropped is kept.
proof fn lemma_kept_covers(p: Predicate, n: nat, j: int)
    requires
        n <= child_count(p),
        0 <= j < n,
        !is_neutral(p, child(p, j)),
    ensures
        exists|m: int| 0 <= m < kept(p, n).len() && #[trigger] kept(p, n)[m] == j,
    decreases n,
{
    if j < n - 1 {
        lemma_kept_covers(p, (n - 1) as nat, j);
        let m = choose|m: int| 0 <= m < kept(p, (n - 1) as nat).len() && #[trigger] kept(p, (n - 1) as nat)[m] == j;
        lemma_kept_prefix(p, (n - 1) as nat, n);
        assert(kept(p, n)[m] == j);
    } else {
        let k = kept(p, (n - 1) as nat);
        assert(kept(p, n) == k.push(n - 1));
        assert(kept(p, n)[k.len() as int] == j);
    }
}

/// Simplification keeps the meaning: a predicate and its simplification
/// hold in exactly the same situations.
pub proof fn law_simplify_preserves_meaning(p: Predicate, r: Predicate, env: spec_fn(Predicate) -> bool)
    requires
        simplifies_to(p, r),
    ensures
        holds(p, env) == holds(r, env),
    decreases p, child_count(p) + 1,
{
    if p is And || p is Or {
        {
            let cc = child_count(p);
            let k = kept(p, cc);
            lemma_kept_bounds(p, cc);
            lemma_all_children_hold(p, env, cc);
            lemma_some_child_holds(p, env, cc);
            if some_absorbing(p, cc) {
                let j = choose|j: int| 0 <= j < cc && j < child_count(p) && is_absorbing(p, #[trigger] child(p, j));
                assert(holds(child(p, j), env) == (p is Or));
                assert(holds(p, env) == holds(r, env));
            } else {
                assert forall|j: int| 0 <= j < cc && is_neutral(p, #[trigger] child(p, j)) implies holds(child(p, j), env) == (p is And) by {}
                assert forall|m: int| 0 <= m < k.len() implies holds(#[trigger] child(p, k[m]), env) == holds(
                    child(r, m),
                    env,
                ) || k.len() < 2 by {
                    if k.len() >= 2 {
                        lemma_all_simplify_at(p, r, k.len(), m);
                        law_simplify_preserves_meaning(child(p, k[m]), child(r, m), env);
                    }
                }
                if k.len() == 0 {
                    assert forall|j: int| 0 <= j < cc implies is_neutral(p, #[trigger] child(p, j)) by {
                        if !is_neutral(p, child(p, j)) {
                            lemma_kept_covers(p, cc, j);
                        }
                    }
                    assert(holds(p, env) == holds(r, env));
                } else if k.len() == 1 {
                    law_simplify_preserves_meaning(child(p, k[0]), r, env);
                    assert forall|j: int| 0 <= j < cc && j != k[0] implies is_neutral(p, #[trigger] child(p, j)) by {
                        if !is_neutral(p, child(p, j)) {
                            lemma_kept_covers(p, cc, j);
                        }
                    }
                    if p is And {
                        if holds(child(p, k[0]), env) {
                            assert forall|j: int| 0 <= j < cc implies holds(#[trigger] child(p, j), env) by {
                                if j != k[0] {
                                    assert(is_neutral(p, child(p, j)));
                                }
                            }
                        }
                    } else {
                        if !holds(child(p, k[0]), env) {
                            assert forall|j: int| 0 <= j < cc implies !holds(#[trigger] child(p, j), env) by {
                                if j != k[0] {
                                    assert(is_neutral(p, child(p, j)));
                                }
                            }
                        }
                    }
                    assert(holds(p, env) == holds(r, env));
                } else {
                    let rc = child_count(r);
                    assert(rc == k.len());
                    assert(p is And ==> r is And);
                    assert(p is Or ==> r is Or);
                    lemma_all_children_hold(r, env, rc);
                    lemma_some_child_holds(r, env, rc);
                    if p is And {
                        if holds(p, env) {
                            assert forall|m: int| 0 <= m < rc implies holds(#[trigger] child(r, m), env) by {
                                assert(holds(child(p, k[m]), env));
                            }
                        }
                        if holds(r, env) {
                            assert forall|j: int| 0 <= j < cc implies holds(#[trigger] child(p, j), env) by {
                                if !is_neutral(p, child(p, j)) {
                                    lemma_kept_covers(p, cc, j);
                                    let m = choose|m: int| 0 <= m < k.len() && #[trigger] k[m] == j;
                                    assert(holds(child(r, m), env));
                                }
                            }
                        }
                        assert(holds(p, env) == holds(r, env));
                    } else {
                        if holds(p, env) {
                            let j = choose|j: int| 0 <= j < cc && holds(#[trigger] child(p, j), env);
                            assert(!is_neutral(p, child(p, j)));
                            lemma_kept_covers(p, cc, j);
                            let m = choose|m: int| 0 <= m < k.len() && #[trigger] k[m] == j;
                            assert(holds(child(r, m), env));
                        }
                        if holds(r, env) {
                            let m = choose|m: int| 0 <= m < rc && holds(#[trigger] child(r, m), env);
                            assert(holds(child(p, k[m]), env));
                        }
                        assert(holds(p, env) == holds(r, env));
                    }
                }
            }
        }
    } else {
    match p {
        Predicate::Not(q) => {
            match *q {
                Predicate::AlwaysTrue => {
                    assert(holds(*q, env));
                    assert(r is AlwaysFalse);
                    assert(!holds(r, env));
                },
                Predicate::AlwaysFalse => {
                    assert(!holds(*q, env));
                    assert(r is AlwaysTrue);
                    assert(holds(r, env));
                },
                Predicate::Not(inner) => {
                    law_simplify_preserves_meaning(*inner, r, env);
                    assert(holds(*q, env) == !holds(*inner, env));
                    assert(holds(p, env) == holds(r, env));
                },
                _ => {
                    let rq = r->Not_0;
                    law_simplify_preserves_meaning(*q, *rq, env);
                    assert(holds(p, env) == holds(r, env));
                },
            }
        },
        _ => {
            assert(holds(p, env) == holds(r, env));
        },
    }
    }
}

/// `all_simplify` pins down each simplified kept child.
pub(crate) proof fn lemma_all_simplify_at(p: Predicate, r: Predicate, m: nat, j: int)
    requires
        all_simplify(p, r, m),
        0 <= j < m,
    ensures
        simplifies_to(child(p, kept(p, child_count(p))[j]), child(r, j)),
    decreases m,
{
    if j < m - 1 {
        lemma_all_simplify_at(p, r, (m - 1) as nat, j);
    }
}

/// Double negation: simplifying `Not(Not(p))` gives what simplifying `p` gives.
pub proof fn law_double_negation(p: Predicate, r: Predicate)
    ensures
        simplifies_to(Predicate::Not(Box::new(Predicate::Not(Box::new(p)))), r) <==> simplifies_to(p, r),
{
}

/// A combination costs more than each of its parts, and a negation more
/// than its operand.
pub proof fn law_combination_costs_more(p: Predicate, j: int)
    requires
        0 <= j < child_count(p),
    ensures
        spec_complexity(child(p, j)) < spec_complexity(p),
{
    lemma_max_child_bounds(p, child_count(p), j);
}

/// What `{:?}` writes for a text: the text in double quotes, with quotes,
/// backslashes and unprintable characters escaped.
pub uninterp spec fn debug_quoted(s: Seq<char>) -> Seq<char>;

/// The text as `{:?}` writes it (`<str as Debug>::fmt`); the result is a
/// function of the text alone.
#[verifier::external_body]
pub(crate) fn debug_string(s: &String) -> (r: String)
    ensures
        r@ == debug_quoted(s@),
{
    format!("{:?}", s)
}

/// The one-line description of a predicate: its kind and what it is about;
/// a path is quoted as `{:?}` quotes it, a conjunction or disjunction gives
/// its number of items.
pub open spec fn predicate_text(p: Predicate) -> Seq<char>
    decreases p,
{
    match p {
        Predicate::FileExists(path) => "FileExists("@ + debug_quoted(path@) + ")"@,
        Predicate::DirectoryExists(path) => "DirectoryExists("@ + debug_quoted(path@) + ")"@,
        Predicate::TestsPassing { suite, .. } => "TestsPassing("@ + suite@ + ")"@,
        Predicate::ApiEndpoint { url, .. } => "ApiEndpoint("@ + url@ + ")"@,
        Predicate::Performance { metric, .. } => "Performance("@ + metric@ + ")"@,
        Predicate::CommandSucceeds { command, .. } => "CommandSucceeds("@ + command@ + ")"@,
        Predicate::Custom { description, .. } => "Custom("@ + description@ + ")"@,
        Predicate::And(ps) => "And("@ + decimal_text(ps@.len()) + " items)"@,
        Predicate::Or(ps) => "Or("@ + decimal_text(ps@.len()) + " items)"@,
        Predicate::Not(q) => "Not("@ + predicate_text(*q) + ")"@,
        Predicate::AlwaysTrue => "AlwaysTrue"@,
        Predicate::AlwaysFalse => "AlwaysFalse"@,
    }
}

/// `prefix`, then `inner`, then `suffix`.
fn enclosed(prefix: &str, inner: &String, suffix: &str) -> (r: String)
    ensures
        r@ == prefix@ + inner@ + suffix@,
{
    let a = concat_text(prefix, inner);
    concat_text(a.as_str(), &suffix.to_owned())
}

impl Predicate {
    /// The one-line description of the predicate (see `predicate_text`).
    pub fn to_text(&self) -> (r: String)
        ensures
            r@ == predicate_text(*self),
        decreases self,
    {
        match self {
            Predicate::FileExists(path) => enclosed("FileExists(", &debug_string(path), ")"),
            Predicate::DirectoryExists(path) => enclosed("DirectoryExists(", &debug_string(path), ")"),
            Predicate::TestsPassing { suite, .. } => enclosed("TestsPassing(", suite, ")"),
            Predicate::ApiEndpoint { url, .. } => enclosed("ApiEndpoint(", url, ")"),
            Predicate::Performance { metric, .. } => enclosed("Performance(", metric, ")"),
            Predicate::CommandSucceeds { command, .. } => enclosed("CommandSucceeds(", command, ")"),
            Predicate::Custom { description, .. } => enclosed("Custom(", description, ")"),
            Predicate::And(ps) => enclosed("And(", &string_from_chars(&decimal_chars(ps.len() as u64)), " items)"),
            Predicate::Or(ps) => enclosed("Or(", &string_from_chars(&decimal_chars(ps.len() as u64)), " items)"),
            Predicate::Not(q) => enclosed("Not(", &q.to_text(), ")"),
            Predicate::AlwaysTrue => "AlwaysTrue".to_owned(),
            Predicate::AlwaysFalse => "AlwaysFalse".to_owned(),
        }
    }
}

} // verus!
