//! Evaluation in a world whose checks come out the same every time they are
//! made, and what simplification keeps of it.

use vstd::prelude::*;
use crate::predicate::{
    child, child_count, holds, kept, lemma_all_children_hold, lemma_all_simplify_at,
    law_simplify_preserves_meaning, lemma_kept_bounds, lemma_some_child_holds, simplifies_to, some_absorbing, Predicate, PredicateLanguage,
};
use crate::predicate_eval::{eval_spec, all_from, any_from, lookup, PredicateAnswer, PredicateState};

verus! {

/// Whether evaluating the basic check `q` against `st` takes an answer from
/// outside: file and directory checks, commands, shell code and endpoints
/// not recorded in the state do.
pub open spec fn needs_answer(q: Predicate, st: PredicateState) -> bool {
    match q {
        Predicate::FileExists(_) | Predicate::DirectoryExists(_) | Predicate::CommandSucceeds { .. } => true,
        Predicate::ApiEndpoint { url, .. } => lookup(st.api_responses@, url@) is None,
        Predicate::Custom { language, .. } => language == PredicateLanguage::Shell,
        _ => false,
    }
}

/// The outcome of the basic check `q` when the world answers it with `w(q)`.
pub open spec fn check_outcome(q: Predicate, st: PredicateState, w: spec_fn(Predicate) -> PredicateAnswer) -> Result<
    Result<bool, (nat, Seq<char>, Seq<char>)>,
    (nat, Seq<char>, Seq<Seq<char>>, Seq<char>, bool),
> {
    eval_spec(q, st, seq![w(q)], 0).0
}

/// Which basic checks come out true in the world `w`.
pub open spec fn world_env(st: PredicateState, w: spec_fn(Predicate) -> PredicateAnswer) -> spec_fn(Predicate) -> bool {
    |q: Predicate| check_outcome(q, st, w) matches Ok(Ok(b)) && b
}

/// Every basic check in `p` comes out true or false in the world `w`, with
/// no failure.
pub open spec fn checks_decide(p: Predicate, st: PredicateState, w: spec_fn(Predicate) -> PredicateAnswer) -> bool
    decreases p, child_count(p) + 1,
{
    match p {
        Predicate::And(_) | Predicate::Or(_) => all_checks_decide(p, st, w, child_count(p)),
        Predicate::Not(q) => checks_decide(*q, st, w),
        Predicate::AlwaysTrue | Predicate::AlwaysFalse => true,
        _ => check_outcome(p, st, w) matches Ok(Ok(_)),
    }
}

/// `checks_decide` holds of each of the first `n` children of `p`.
pub open spec fn all_checks_decide(p: Predicate, st: PredicateState, w: spec_fn(Predicate) -> PredicateAnswer, n: nat) -> bool
    decreases p, n,
{
    if n == 0 || n > child_count(p) {
        true
    } else {
        all_checks_decide(p, st, w, (n - 1) as nat) && checks_decide(child(p, n - 1), st, w)
    }
}

/// The answers that the world `w` gives, in order, while `p` is evaluated:
/// one for each check that asks, a conjunction stopping after its first
/// false part, a disjunction after its first true part.
pub open spec fn world_answers(p: Predicate, st: PredicateState, w: spec_fn(Predicate) -> PredicateAnswer) -> Seq<PredicateAnswer>
    decreases p, child_count(p) + 1,
{
    match p {
        Predicate::And(_) => answers_all(p, st, w, 0),
        Predicate::Or(_) => answers_any(p, st, w, 0),
        Predicate::Not(q) => world_answers(*q, st, w),
        _ => if needs_answer(p, st) {
            seq![w(p)]
        } else {
            Seq::empty()
        },
    }
}

/// The answers given to the children of a conjunction from child `i` on.
pub open spec fn answers_all(p: Predicate, st: PredicateState, w: spec_fn(Predicate) -> PredicateAnswer, i: int) -> Seq<PredicateAnswer>
    decreases p, child_count(p) - i,
{
    if i < 0 || i >= child_count(p) {
        Seq::empty()
    } else if holds(child(p, i), world_env(st, w)) {
        world_answers(child(p, i), st, w) + answers_all(p, st, w, i + 1)
    } else {
        world_answers(child(p, i), st, w)
    }
}

/// The answers given to the children of a disjunction from child `i` on.
pub open spec fn answers_any(p: Predicate, st: PredicateState, w: spec_fn(Predicate) -> PredicateAnswer, i: int) -> Seq<PredicateAnswer>
    decreases p, child_count(p) - i,
{
    if i < 0 || i >= child_count(p) {
        Seq::empty()
    } else if holds(child(p, i), world_env(st, w)) {
        world_answers(child(p, i), st, w)
    } else {
        world_answers(child(p, i), st, w) + answers_any(p, st, w, i + 1)
    }
}

/// `all_checks_decide` means `checks_decide` of each of the first `n` children.
proof fn lemma_all_checks_decide(p: Predicate, st: PredicateState, w: spec_fn(Predicate) -> PredicateAnswer, n: nat)
    requires
        n <= child_count(p),
    ensures
        all_checks_decide(p, st, w, n) <==> forall|j: int| 0 <= j < n ==> checks_decide(#[trigger] child(p, j), st, w),
    decreases n,
{
    if n > 0 {
        lemma_all_checks_decide(p, st, w, (n - 1) as nat);
    }
}

/// Given the world's answers from position `pos` on, evaluation of `p`
/// comes out as `holds` says and uses exactly those answers.
proof fn lemma_eval_in_world(
    p: Predicate,
    st: PredicateState,
    w: spec_fn(Predicate) -> PredicateAnswer,
    ans: Seq<PredicateAnswer>,
    pos: int,
)
    requires
        0 <= pos,
        pos + world_answers(p, st, w).len() <= ans.len(),
        ans.subrange(pos, pos + world_answers(p, st, w).len()) == world_answers(p, st, w),
        checks_decide(p, st, w),
    ensures
        eval_spec(p, st, ans, pos).0 matches Ok(Ok(b)) && b == holds(p, world_env(st, w)),
        eval_spec(p, st, ans, pos).1 == pos + world_answers(p, st, w).len(),
    decreases p, child_count(p) + 1,
{
    let env = world_env(st, w);
    match p {
        Predicate::And(_) => {
            let n = child_count(p);
            lemma_all_checks_decide(p, st, w, n);
            lemma_all_in_world(p, st, w, ans, pos, 0);
            lemma_all_children_hold(p, env, n);
        },
        Predicate::Or(_) => {
            let n = child_count(p);
            lemma_all_checks_decide(p, st, w, n);
            lemma_any_in_world(p, st, w, ans, pos, 0);
            lemma_some_child_holds(p, env, n);
        },
        Predicate::Not(q) => {
            lemma_eval_in_world(*q, st, w, ans, pos);
        },
        _ => {
            if needs_answer(p, st) {
                assert(ans[pos] == world_answers(p, st, w)[0]);
            }
        },
    }
}

/// The children of a conjunction from child `i` on, given the world's
/// answers: true exactly when each of them holds.
proof fn lemma_all_in_world(
    p: Predicate,
    st: PredicateState,
    w: spec_fn(Predicate) -> PredicateAnswer,
    ans: Seq<PredicateAnswer>,
    pos: int,
    i: int,
)
    requires
        0 <= i <= child_count(p),
        0 <= pos,
        pos + answers_all(p, st, w, i).len() <= ans.len(),
        ans.subrange(pos, pos + answers_all(p, st, w, i).len()) == answers_all(p, st, w, i),
        forall|j: int| 0 <= j < child_count(p) ==> checks_decide(#[trigger] child(p, j), st, w),
    ensures
        all_from(p, st, ans, pos, i).0 matches Ok(Ok(b)) && b == (forall|j: int|
            i <= j < child_count(p) ==> holds(#[trigger] child(p, j), world_env(st, w))),
        all_from(p, st, ans, pos, i).1 == pos + answers_all(p, st, w, i).len(),
    decreases p, child_count(p) - i,
{
    let env = world_env(st, w);
    if i < child_count(p) {
        let c = child(p, i);
        let f = world_answers(c, st, w);
        let all = answers_all(p, st, w, i);
        assert(ans.subrange(pos, pos + f.len()) =~= f) by {
            assert forall|k: int| 0 <= k < f.len() implies ans[pos + k] == f[k] by {
                assert(ans.subrange(pos, pos + all.len())[k] == all[k]);
            }
        }
        lemma_eval_in_world(c, st, w, ans, pos);
        if holds(c, env) {
            let rest = answers_all(p, st, w, i + 1);
            assert(ans.subrange(pos + f.len(), pos + f.len() + rest.len()) =~= rest) by {
                assert forall|k: int| 0 <= k < rest.len() implies ans[pos + f.len() + k] == rest[k] by {
                    assert(ans.subrange(pos, pos + all.len())[f.len() + k] == all[f.len() + k]);
                }
            }
            lemma_all_in_world(p, st, w, ans, pos + f.len(), i + 1);
        } else {
            assert(!holds(child(p, i), env));
        }
    }
}

/// The children of a disjunction from child `i` on, given the world's
/// answers: true exactly when one of them holds.
proof fn lemma_any_in_world(
    p: Predicate,
    st: PredicateState,
    w: spec_fn(Predicate) -> PredicateAnswer,
    ans: Seq<PredicateAnswer>,
    pos: int,
    i: int,
)
    requires
        0 <= i <= child_count(p),
        0 <= pos,
        pos + answers_any(p, st, w, i).len() <= ans.len(),
        ans.subrange(pos, pos + answers_any(p, st, w, i).len()) == answers_any(p, st, w, i),
        forall|j: int| 0 <= j < child_count(p) ==> checks_decide(#[trigger] child(p, j), st, w),
    ensures
        any_from(p, st, ans, pos, i).0 matches Ok(Ok(b)) && b == (exists|j: int|
            i <= j < child_count(p) && holds(#[trigger] child(p, j), world_env(st, w))),
        any_from(p, st, ans, pos, i).1 == pos + answers_any(p, st, w, i).len(),
    decreases p, child_count(p) - i,
{
    let env = world_env(st, w);
    if i < child_count(p) {
        let c = child(p, i);
        let f = world_answers(c, st, w);
        let all = answers_any(p, st, w, i);
        assert(ans.subrange(pos, pos + f.len()) =~= f) by {
            assert forall|k: int| 0 <= k < f.len() implies ans[pos + k] == f[k] by {
                assert(ans.subrange(pos, pos + all.len())[k] == all[k]);
            }
        }
        lemma_eval_in_world(c, st, w, ans, pos);
        if !holds(c, env) {
            let rest = answers_any(p, st, w, i + 1);
            assert(ans.subrange(pos + f.len(), pos + f.len() + rest.len()) =~= rest) by {
                assert forall|k: int| 0 <= k < rest.len() implies ans[pos + f.len() + k] == rest[k] by {
                    assert(ans.subrange(pos, pos + all.len())[f.len() + k] == all[f.len() + k]);
                }
            }
            lemma_any_in_world(p, st, w, ans, pos + f.len(), i + 1);
        } else {
            assert(holds(child(p, i), env));
        }
    }
}

/// Simplifying keeps every check deciding: the checks of the simplified
/// predicate are among those of the original.
proof fn lemma_simplify_checks_decide(p: Predicate, r: Predicate, st: PredicateState, w: spec_fn(Predicate) -> PredicateAnswer)
    requires
        simplifies_to(p, r),
        checks_decide(p, st, w),
    ensures
        checks_decide(r, st, w),
    decreases p, child_count(p) + 1,
{
    if p is And || p is Or {
        let cc = child_count(p);
        let k = kept(p, cc);
        lemma_kept_bounds(p, cc);
        lemma_all_checks_decide(p, st, w, cc);
        if !some_absorbing(p, cc) {
            if k.len() == 1 {
                lemma_simplify_checks_decide(child(p, k[0]), r, st, w);
            } else if k.len() >= 2 {
                let rc = child_count(r);
                assert forall|m: int| 0 <= m < rc implies checks_decide(#[trigger] child(r, m), st, w) by {
                    lemma_all_simplify_at(p, r, k.len(), m);
                    lemma_simplify_checks_decide(child(p, k[m]), child(r, m), st, w);
                }
                lemma_all_checks_decide(r, st, w, rc);
            }
        }
    } else {
        match p {
            Predicate::Not(q) => match *q {
                Predicate::Not(inner) => {
                    assert(checks_decide(*q, st, w));
                    lemma_simplify_checks_decide(*inner, r, st, w);
                },
                Predicate::AlwaysTrue | Predicate::AlwaysFalse => {},
                _ => lemma_simplify_checks_decide(*q, *r->Not_0, st, w),
            },
            _ => {},
        }
    }
}

/// Simplification keeps the outcome of evaluation. In a world whose checks
/// give the same answer every time they are made, and where each check in
/// the predicate comes out true or false rather than failing, a predicate
/// and its simplification, each given the answers that the world gives to
/// the checks it makes, evaluate to the same truth value, which is the one
/// `holds` gives from the checks' results.
pub proof fn law_simplify_keeps_outcome(
    p: Predicate,
    r: Predicate,
    st: PredicateState,
    w: spec_fn(Predicate) -> PredicateAnswer,
)
    requires
        simplifies_to(p, r),
        checks_decide(p, st, w),
    ensures
        eval_spec(p, st, world_answers(p, st, w), 0).0 matches Ok(Ok(b)) && b == holds(p, world_env(st, w)),
        eval_spec(r, st, world_answers(r, st, w), 0).0 == eval_spec(p, st, world_answers(p, st, w), 0).0,
{
    lemma_simplify_checks_decide(p, r, st, w);
    let fp = world_answers(p, st, w);
    let fr = world_answers(r, st, w);
    assert(fp.subrange(0, fp.len() as int) =~= fp);
    assert(fr.subrange(0, fr.len() as int) =~= fr);
    lemma_eval_in_world(p, st, w, fp, 0);
    lemma_eval_in_world(r, st, w, fr, 0);
    law_simplify_preserves_meaning(p, r, world_env(st, w));
}

} // verus!
