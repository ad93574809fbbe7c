//! Text and list helpers: string order, sorting, de-duplication, copying.

use vstd::prelude::*;

verus! {

/// Strict lexicographic order of character sequences, by code point.
pub open spec fn seq_lt(a: Seq<char>, b: Seq<char>) -> bool
    decreases a.len(),
{
    if a.len() == 0 {
        b.len() > 0
    } else if b.len() == 0 {
        false
    } else if a[0] != b[0] {
        (a[0] as int) < (b[0] as int)
    } else {
        seq_lt(a.drop_first(), b.drop_first())
    }
}

/// Lexicographic order of character sequences, by code point.
pub open spec fn seq_le(a: Seq<char>, b: Seq<char>) -> bool {
    a == b || seq_lt(a, b)
}

/// The character contents of each string.
pub open spec fn views(v: Seq<String>) -> Seq<Seq<char>> {
    v.map_values(|s: String| s@)
}

/// Ascending string order (repeats allowed).
pub open spec fn strings_sorted(v: Seq<String>) -> bool {
    forall|i: int, j: int| 0 <= i < j < v.len() ==> seq_le(#[trigger] v[i]@, #[trigger] v[j]@)
}

/// Strictly ascending string order: sorted, with no repeat.
pub open spec fn strings_strictly_sorted(v: Seq<String>) -> bool {
    forall|i: int, j: int| 0 <= i < j < v.len() ==> seq_lt(#[trigger] v[i]@, #[trigger] v[j]@)
}

/// Some string of `v` has the characters `s`.
pub open spec fn has_string(v: Seq<String>, s: Seq<char>) -> bool {
    exists|i: int| 0 <= i < v.len() && #[trigger] v[i]@ == s
}

/// Strictly ascending numbers.
pub open spec fn u16s_strictly_sorted(v: Seq<u16>) -> bool {
    forall|i: int, j: int| 0 <= i < j < v.len() ==> #[trigger] v[i] < #[trigger] v[j]
}

/// Strictly ascending ids.
pub open spec fn u128s_strictly_sorted(v: Seq<u128>) -> bool {
    forall|i: int, j: int| 0 <= i < j < v.len() ==> #[trigger] v[i] < #[trigger] v[j]
}

pub proof fn lemma_seq_lt_irreflexive(a: Seq<char>)
    ensures
        !seq_lt(a, a),
    decreases a.len(),
{
    if a.len() > 0 {
        lemma_seq_lt_irreflexive(a.drop_first());
    }
}

pub proof fn lemma_seq_lt_transitive(a: Seq<char>, b: Seq<char>, c: Seq<char>)
    requires
        seq_lt(a, b),
        seq_lt(b, c),
    ensures
        seq_lt(a, c),
    decreases a.len(),
{
    if a.len() > 0 && b.len() > 0 && c.len() > 0 {
        if a[0] == b[0] && b[0] == c[0] {
            lemma_seq_lt_transitive(a.drop_first(), b.drop_first(), c.drop_first());
        }
    }
}

pub proof fn lemma_seq_lt_asymmetric(a: Seq<char>, b: Seq<char>)
    requires
        seq_lt(a, b),
    ensures
        !seq_lt(b, a),
    decreases a.len(),
{
    if a.len() > 0 && b.len() > 0 && a[0] == b[0] {
        lemma_seq_lt_asymmetric(a.drop_first(), b.drop_first());
    }
}

pub proof fn lemma_seq_lt_total(a: Seq<char>, b: Seq<char>)
    requires
        a != b,
    ensures
        seq_lt(a, b) || seq_lt(b, a),
    decreases a.len(),
{
    if a.len() > 0 && b.len() > 0 && a[0] == b[0] {
        if a.drop_first() == b.drop_first() {
            assert(a =~= seq![a[0]] + a.drop_first());
            assert(b =~= seq![b[0]] + b.drop_first());
        }
        lemma_seq_lt_total(a.drop_first(), b.drop_first());
    }
    if a.len() == 0 && b.len() == 0 {
        assert(a =~= b);
    }
}

/// Sorts strings in ascending order (`slice::sort`). std orders strings
/// lexicographically by their UTF-8 bytes, which is the lexicographic order of
/// their code points; the strings are only moved.
#[verifier::external_body]
pub(crate) fn sort_strings(v: &mut Vec<String>)
    ensures
        final(v)@.to_multiset() == old(v)@.to_multiset(),
        strings_sorted(final(v)@),
{
    v.sort();
}

/// Sorts numbers in ascending order (`slice::sort`); the numbers are only moved.
#[verifier::external_body]
pub(crate) fn sort_u16s(v: &mut Vec<u16>)
    ensures
        final(v)@.to_multiset() == old(v)@.to_multiset(),
        forall|i: int, j: int|
            0 <= i < j < final(v)@.len() ==> #[trigger] final(v)@[i] <= #[trigger] final(v)@[j],
{
    v.sort();
}

/// Sorts ids in ascending order (`slice::sort`); the ids are only moved.
#[verifier::external_body]
pub(crate) fn sort_u128s(v: &mut Vec<u128>)
    ensures
        final(v)@.to_multiset() == old(v)@.to_multiset(),
        forall|i: int, j: int|
            0 <= i < j < final(v)@.len() ==> #[trigger] final(v)@[i] <= #[trigger] final(v)@[j],
{
    v.sort();
}

/// A copy of a list of strings.
pub fn clone_strings(v: &Vec<String>) -> (r: Vec<String>)
    ensures
        r@ == v@,
{
    let mut r: Vec<String> = Vec::new();
    let mut i: usize = 0;
    while i < v.len()
        invariant
            i <= v@.len(),
            r@ == v@.take(i as int),
        decreases v.len() - i,
    {
        r.push(v[i].clone());
        proof {
            assert(v@.take(i as int + 1) == v@.take(i as int).push(v@[i as int]));
        }
        i = i + 1;
    }
    proof {
        assert(v@.take(v@.len() as int) == v@);
    }
    r
}

/// A copy of a list of numbers.
pub fn clone_u16s(v: &Vec<u16>) -> (r: Vec<u16>)
    ensures
        r@ == v@,
{
    let mut r: Vec<u16> = Vec::new();
    let mut i: usize = 0;
    while i < v.len()
        invariant
            i <= v@.len(),
            r@ == v@.take(i as int),
        decreases v.len() - i,
    {
        r.push(v[i]);
        proof {
            assert(v@.take(i as int + 1) == v@.take(i as int).push(v@[i as int]));
        }
        i = i + 1;
    }
    proof {
        assert(v@.take(v@.len() as int) == v@);
    }
    r
}

/// A copy of a string option.
pub fn clone_opt_string(s: &Option<String>) -> (r: Option<String>)
    ensures
        r == *s,
{
    match s {
        Some(x) => Some(x.clone()),
        None => None,
    }
}

/// Whether some string of `v` equals `s`.
pub fn contains_string(v: &Vec<String>, s: &String) -> (r: bool)
    ensures
        r == has_string(v@, s@),
{
    let mut i: usize = 0;
    while i < v.len()
        invariant
            i <= v@.len(),
            forall|j: int| 0 <= j < i ==> v@[j]@ != s@,
        decreases v.len() - i,
    {
        if v[i] == *s {
            return true;
        }
        i = i + 1;
    }
    false
}

/// Whether `v` holds `x`.
pub fn contains_u16(v: &Vec<u16>, x: u16) -> (r: bool)
    ensures
        r == v@.contains(x),
{
    let mut i: usize = 0;
    while i < v.len()
        invariant
            i <= v@.len(),
            forall|j: int| 0 <= j < i ==> v@[j] != x,
        decreases v.len() - i,
    {
        if v[i] == x {
            return true;
        }
        i = i + 1;
    }
    false
}

proof fn lemma_multiset_has_string(a: Seq<String>, b: Seq<String>, s: Seq<char>)
    requires
        a.to_multiset() == b.to_multiset(),
    ensures
        has_string(a, s) <==> has_string(b, s),
{
    if has_string(a, s) {
        let i = choose|i: int| 0 <= i < a.len() && #[trigger] a[i]@ == s;
        vstd::seq_lib::to_multiset_contains(a, a[i]);
        vstd::seq_lib::to_multiset_contains(b, a[i]);
        let j = choose|j: int| 0 <= j < b.len() && b[j] == a[i];
        assert(b[j]@ == s);
    }
    if has_string(b, s) {
        let i = choose|i: int| 0 <= i < b.len() && #[trigger] b[i]@ == s;
        vstd::seq_lib::to_multiset_contains(b, b[i]);
        vstd::seq_lib::to_multiset_contains(a, b[i]);
        let j = choose|j: int| 0 <= j < a.len() && a[j] == b[i];
        assert(a[j]@ == s);
    }
}

/// Sort and remove repeats: the strictly ascending list of the distinct
/// strings of `values`.
pub fn dedup_sorted(values: Vec<String>) -> (r: Vec<String>)
    ensures
        strings_strictly_sorted(r@),
        forall|s: Seq<char>| #[trigger] has_string(r@, s) <==> has_string(values@, s),
{
    let mut v = values;
    sort_strings(&mut v);
    proof {
        assert forall|s: Seq<char>| #[trigger] has_string(v@, s) <==> has_string(values@, s) by {
            lemma_multiset_has_string(v@, values@, s);
        }
    }
    let mut r: Vec<String> = Vec::new();
    let mut i: usize = 0;
    while i < v.len()
        invariant
            i <= v@.len(),
            strings_sorted(v@),
            strings_strictly_sorted(r@),
            r@.len() > 0 ==> i > 0 && r@[r@.len() - 1]@ == v@[i - 1]@,
            i > 0 ==> r@.len() > 0,
            forall|s: Seq<char>| #[trigger] has_string(r@, s) <==> has_string(v@.take(i as int), s),
        decreases v.len() - i,
    {
        let ghost vt = v@.take(i as int);
        let keep = r.len() == 0 || r[r.len() - 1] != v[i];
        let ghost r0 = r@;
        if keep {
            r.push(v[i].clone());
        }
        proof {
            assert(v@.take(i as int + 1) == vt.push(v@[i as int]));
            if keep {
                assert forall|a: int, b: int| 0 <= a < b < r@.len() implies seq_lt(
                    #[trigger] r@[a]@,
                    #[trigger] r@[b]@,
                ) by {
                    if b == r@.len() - 1 {
                        let last = r0[r0.len() - 1]@;
                        assert(seq_le(v@[i - 1]@, v@[i as int]@));
                        assert(last != v@[i as int]@);
                        if a < r0.len() - 1 {
                            assert(seq_lt(r0[a]@, last));
                            lemma_seq_lt_transitive(r0[a]@, last, v@[i as int]@);
                        }
                    } else {
                        assert(r@[a] == r0[a] && r@[b] == r0[b]);
                    }
                }
                assert forall|s: Seq<char>| #[trigger] has_string(r@, s) <==> has_string(
                    v@.take(i as int + 1),
                    s,
                ) by {
                    if has_string(r@, s) {
                        let k = choose|k: int| 0 <= k < r@.len() && #[trigger] r@[k]@ == s;
                        if k < r0.len() {
                            assert(r0[k]@ == s);
                            assert(has_string(r0, s));
                            let m = choose|m: int| 0 <= m < vt.len() && #[trigger] vt[m]@ == s;
                            assert(v@.take(i as int + 1)[m]@ == s);
                        } else {
                            assert(v@.take(i as int + 1)[i as int]@ == s);
                        }
                    }
                    if has_string(v@.take(i as int + 1), s) {
                        let m = choose|m: int|
                            0 <= m < i + 1 && #[trigger] v@.take(i as int + 1)[m]@ == s;
                        if m < i {
                            assert(vt[m]@ == s);
                            assert(has_string(vt, s));
                            assert(has_string(r0, s));
                            let k = choose|k: int| 0 <= k < r0.len() && #[trigger] r0[k]@ == s;
                            assert(r@[k]@ == s);
                        } else {
                            assert(r@[r@.len() - 1]@ == s);
                        }
                    }
                }
            } else {
                assert forall|s: Seq<char>| #[trigger] has_string(r@, s) <==> has_string(
                    v@.take(i as int + 1),
                    s,
                ) by {
                    if has_string(v@.take(i as int + 1), s) {
                        let m = choose|m: int|
                            0 <= m < i + 1 && #[trigger] v@.take(i as int + 1)[m]@ == s;
                        if m < i {
                            assert(vt[m]@ == s);
                            assert(has_string(vt, s));
                        } else {
                            assert(r@[r@.len() - 1]@ == s);
                        }
                    }
                    if has_string(r@, s) {
                        let k = choose|k: int| 0 <= k < r@.len() && #[trigger] r@[k]@ == s;
                        assert(has_string(vt, s));
                        let m = choose|m: int| 0 <= m < vt.len() && #[trigger] vt[m]@ == s;
                        assert(v@.take(i as int + 1)[m]@ == s);
                    }
                }
            }
        }
        i = i + 1;
    }
    proof {
        assert(v@.take(v@.len() as int) == v@);
    }
    r
}

/// Sort and remove repeats: the strictly ascending list of the distinct
/// numbers of `values`.
pub fn dedup_sorted_u16(values: Vec<u16>) -> (r: Vec<u16>)
    ensures
        u16s_strictly_sorted(r@),
        forall|x: u16| #[trigger] r@.contains(x) <==> values@.contains(x),
{
    let mut v = values;
    sort_u16s(&mut v);
    proof {
        assert forall|x: u16| #[trigger] v@.contains(x) <==> values@.contains(x) by {
            vstd::seq_lib::to_multiset_contains(v@, x);
            vstd::seq_lib::to_multiset_contains(values@, x);
        }
    }
    let mut r: Vec<u16> = Vec::new();
    let mut i: usize = 0;
    while i < v.len()
        invariant
            i <= v@.len(),
            forall|a: int, b: int| 0 <= a < b < v@.len() ==> #[trigger] v@[a] <= #[trigger] v@[b],
            u16s_strictly_sorted(r@),
            r@.len() > 0 ==> i > 0 && r@[r@.len() - 1] == v@[i - 1],
            i > 0 ==> r@.len() > 0,
            forall|x: u16| #[trigger] r@.contains(x) <==> v@.take(i as int).contains(x),
        decreases v.len() - i,
    {
        let ghost vt = v@.take(i as int);
        let ghost r0 = r@;
        let keep = r.len() == 0 || r[r.len() - 1] != v[i];
        if keep {
            r.push(v[i]);
        }
        proof {
            assert(v@.take(i as int + 1) == vt.push(v@[i as int]));
            if keep {
                assert forall|a: int, b: int| 0 <= a < b < r@.len() implies #[trigger] r@[a]
                    < #[trigger] r@[b] by {
                    if b == r@.len() - 1 {
                        assert(v@[i - 1] <= v@[i as int]);
                        if a < r0.len() - 1 {
                            assert(r0[a] < r0[r0.len() - 1]);
                        }
                    } else {
                        assert(r@[a] == r0[a] && r@[b] == r0[b]);
                    }
                }
                assert forall|x: u16| #[trigger] r@.contains(x) <==> v@.take(i as int + 1).contains(
                    x,
                ) by {
                    if r@.contains(x) {
                        let k = choose|k: int| 0 <= k < r@.len() && r@[k] == x;
                        if k < r0.len() {
                            assert(r0.contains(x));
                            let m = choose|m: int| 0 <= m < vt.len() && vt[m] == x;
                            assert(v@.take(i as int + 1)[m] == x);
                        } else {
                            assert(v@.take(i as int + 1)[i as int] == x);
                        }
                    }
                    if v@.take(i as int + 1).contains(x) {
                        let m = choose|m: int| 0 <= m < i + 1 && #[trigger] v@.take(i as int + 1)[m] == x;
                        if m < i {
                            assert(vt[m] == x);
                            assert(vt.contains(x));
                            assert(r0.contains(x));
                            let k = choose|k: int| 0 <= k < r0.len() && r0[k] == x;
                            assert(r@[k] == x);
                        } else {
                            assert(r@[r@.len() - 1] == x);
                        }
                    }
                }
            } else {
                assert forall|x: u16| #[trigger] r@.contains(x) <==> v@.take(i as int + 1).contains(
                    x,
                ) by {
                    if v@.take(i as int + 1).contains(x) {
                        let m = choose|m: int| 0 <= m < i + 1 && #[trigger] v@.take(i as int + 1)[m] == x;
                        if m < i {
                            assert(vt[m] == x);
                            assert(vt.contains(x));
                        } else {
                            assert(r@[r@.len() - 1] == x);
                        }
                    }
                    if r@.contains(x) {
                        assert(vt.contains(x));
                        let m = choose|m: int| 0 <= m < vt.len() && vt[m] == x;
                        assert(v@.take(i as int + 1)[m] == x);
                    }
                }
            }
        }
        i = i + 1;
    }
    proof {
        assert(v@.take(v@.len() as int) == v@);
    }
    r
}

/// The strictly ascending list of the distinct strings of `values`.
pub fn sorted_strings(values: &Vec<String>) -> (r: Vec<String>)
    ensures
        strings_strictly_sorted(r@),
        forall|s: Seq<char>| #[trigger] has_string(r@, s) <==> has_string(values@, s),
{
    dedup_sorted(clone_strings(values))
}

/// A string occurs in a filtered list when it occurs at a kept position.
pub proof fn lemma_has_string_filter(v: Seq<String>, p: spec_fn(String) -> bool, s: Seq<char>)
    ensures
        has_string(v.filter(p), s) <==> exists|i: int| 0 <= i < v.len() && #[trigger] v[i]@ == s && p(v[i]),
{
    let f = v.filter(p);
    if has_string(f, s) {
        let k = choose|k: int| 0 <= k < f.len() && #[trigger] f[k]@ == s;
        v.lemma_filter_pred(p, k);
        assert(f.contains(f[k]));
        v.lemma_filter_contains_rev(p, f[k]);
        let i = choose|i: int| 0 <= i < v.len() && v[i] == f[k];
        assert(v[i]@ == s && p(v[i]));
    }
    if exists|i: int| 0 <= i < v.len() && #[trigger] v[i]@ == s && p(v[i]) {
        let i = choose|i: int| 0 <= i < v.len() && #[trigger] v[i]@ == s && p(v[i]);
        v.lemma_filter_contains(p, i);
        let k = choose|k: int| 0 <= k < f.len() && f[k] == v[i];
        assert(f[k]@ == s);
    }
}

/// A number occurs in a filtered list when it occurs and is kept.
pub proof fn lemma_contains_filter_u16(v: Seq<u16>, p: spec_fn(u16) -> bool, x: u16)
    ensures
        v.filter(p).contains(x) <==> v.contains(x) && p(x),
{
    let f = v.filter(p);
    if f.contains(x) {
        v.lemma_filter_contains_rev(p, x);
        let k = choose|k: int| 0 <= k < f.len() && f[k] == x;
        v.lemma_filter_pred(p, k);
    }
    if v.contains(x) && p(x) {
        let i = choose|i: int| 0 <= i < v.len() && v[i] == x;
        v.lemma_filter_contains(p, i);
    }
}

/// The strings of `v` whose characters occur among the strings of `allowed`,
/// in their order.
pub fn keep_allowed(v: &Vec<String>, allowed: &Vec<String>) -> (r: Vec<String>)
    ensures
        r@ == v@.filter(|s: String| has_string(allowed@, s@)),
{
    let mut r: Vec<String> = Vec::new();
    let mut i: usize = 0;
    while i < v.len()
        invariant
            i <= v@.len(),
            r@ == v@.take(i as int).filter(|s: String| has_string(allowed@, s@)),
        decreases v.len() - i,
    {
        proof {
            assert(v@.take(i as int + 1) == v@.take(i as int).push(v@[i as int]));
            v@.take(i as int).lemma_filter_push(v@[i as int], |s: String| has_string(allowed@, s@));
        }
        if contains_string(allowed, &v[i]) {
            r.push(v[i].clone());
        }
        i = i + 1;
    }
    proof {
        assert(v@.take(v@.len() as int) == v@);
    }
    r
}

/// The strings of `v` whose characters occur among none of `removed`, in their order.
pub fn drop_listed(v: &Vec<String>, removed: &Vec<String>) -> (r: Vec<String>)
    ensures
        r@ == v@.filter(|s: String| !has_string(removed@, s@)),
{
    let mut r: Vec<String> = Vec::new();
    let mut i: usize = 0;
    while i < v.len()
        invariant
            i <= v@.len(),
            r@ == v@.take(i as int).filter(|s: String| !has_string(removed@, s@)),
        decreases v.len() - i,
    {
        proof {
            assert(v@.take(i as int + 1) == v@.take(i as int).push(v@[i as int]));
            v@.take(i as int).lemma_filter_push(v@[i as int], |s: String| !has_string(removed@, s@));
        }
        if !contains_string(removed, &v[i]) {
            r.push(v[i].clone());
        }
        i = i + 1;
    }
    proof {
        assert(v@.take(v@.len() as int) == v@);
    }
    r
}

/// The numbers of `v` that are not in `removed`, in their order.
pub fn drop_listed_u16(v: &Vec<u16>, removed: &Vec<u16>) -> (r: Vec<u16>)
    ensures
        r@ == v@.filter(|x: u16| !removed@.contains(x)),
{
    let mut r: Vec<u16> = Vec::new();
    let mut i: usize = 0;
    while i < v.len()
        invariant
            i <= v@.len(),
            r@ == v@.take(i as int).filter(|x: u16| !removed@.contains(x)),
        decreases v.len() - i,
    {
        proof {
            assert(v@.take(i as int + 1) == v@.take(i as int).push(v@[i as int]));
            v@.take(i as int).lemma_filter_push(v@[i as int], |x: u16| !removed@.contains(x));
        }
        if !contains_u16(removed, v[i]) {
            r.push(v[i]);
        }
        i = i + 1;
    }
    proof {
        assert(v@.take(v@.len() as int) == v@);
    }
    r
}

/// The characters of a string, in order.
pub fn chars_of(s: &str) -> (r: Vec<char>)
    ensures
        r@ == s@,
{
    let mut r: Vec<char> = Vec::new();
    for c in it: s.chars()
        invariant
            r@ == it.seq().take(it.index() as int),
    {
        r.push(c);
    }
    r
}

} // verus!
