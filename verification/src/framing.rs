//! Byte framing: numbers as little- and big-endian bytes, strings as UTF-8,
//! and sets of strings listed in ascending order.

use vstd::prelude::*;
use vstd::utf8::encode_utf8;
use crate::strings::{
    has_string, lemma_seq_lt_asymmetric, lemma_seq_lt_irreflexive, seq_lt, strings_strictly_sorted,
    views,
};

verus! {

/// The `n` low bytes of `x`, least significant first.
pub open spec fn le_bytes(x: nat, n: nat) -> Seq<u8>
    decreases n,
{
    if n == 0 {
        Seq::empty()
    } else {
        seq![(x % 256) as u8] + le_bytes(x / 256, (n - 1) as nat)
    }
}

/// The `n` low bytes of `x`, most significant first.
pub open spec fn be_bytes(x: nat, n: nat) -> Seq<u8>
    decreases n,
{
    if n == 0 {
        Seq::empty()
    } else {
        be_bytes(x / 256, (n - 1) as nat) + seq![(x % 256) as u8]
    }
}

/// The UTF-8 encodings of the strings, one after another.
pub open spec fn utf8_concat(v: Seq<Seq<char>>) -> Seq<u8>
    decreases v.len(),
{
    if v.len() == 0 {
        Seq::empty()
    } else {
        utf8_concat(v.drop_last()) + encode_utf8(v.last())
    }
}

/// Strictly ascending character sequences.
pub open spec fn ascending(r: Seq<Seq<char>>) -> bool {
    forall|i: int, j: int| 0 <= i < j < r.len() ==> seq_lt(#[trigger] r[i], #[trigger] r[j])
}

/// The strings (as character sequences) that occur in `v`.
pub open spec fn string_set(v: Seq<String>) -> Set<Seq<char>> {
    Set::new(|x: Seq<char>| has_string(v, x))
}

/// The members of `s`, each once, in ascending order.
pub open spec fn ascending_listing(s: Set<Seq<char>>) -> Seq<Seq<char>> {
    choose|r: Seq<Seq<char>>| ascending(r) && forall|x: Seq<char>| #[trigger] r.contains(x) <==> s.contains(x)
}

/// Two ascending listings of the same members are equal.
pub proof fn lemma_ascending_unique(a: Seq<Seq<char>>, b: Seq<Seq<char>>)
    requires
        ascending(a),
        ascending(b),
        forall|x: Seq<char>| #[trigger] a.contains(x) <==> b.contains(x),
    ensures
        a == b,
    decreases a.len(),
{
    if a.len() == 0 {
        if b.len() > 0 {
            assert(b.contains(b[0]));
            assert(a.contains(b[0]));
        }
        assert(a =~= b);
    } else if b.len() == 0 {
        assert(a.contains(a[0]));
        assert(b.contains(a[0]));
    } else {
        assert(a.contains(a[0]));
        assert(b.contains(a[0]));
        assert(b.contains(b[0]));
        assert(a.contains(b[0]));
        let k = choose|k: int| 0 <= k < b.len() && b[k] == a[0];
        let m = choose|m: int| 0 <= m < a.len() && a[m] == b[0];
        if k > 0 {
            assert(seq_lt(b[0], b[k]));
            if m > 0 {
                assert(seq_lt(a[0], a[m]));
                lemma_seq_lt_asymmetric(a[0], b[0]);
            } else {
                lemma_seq_lt_irreflexive(a[0]);
            }
        }
        assert(a[0] == b[0]);
        let a1 = a.drop_first();
        let b1 = b.drop_first();
        assert forall|x: Seq<char>| #[trigger] a1.contains(x) implies b1.contains(x) by {
            let i = choose|i: int| 0 <= i < a1.len() && a1[i] == x;
            assert(seq_lt(a[0], a[i + 1]));
            assert(a[i + 1] == x);
            assert(a.contains(x));
            assert(b.contains(x));
            let j = choose|j: int| 0 <= j < b.len() && b[j] == x;
            if j == 0 {
                lemma_seq_lt_irreflexive(x);
            }
            assert(b1[j - 1] == x);
        }
        assert forall|x: Seq<char>| #[trigger] b1.contains(x) implies a1.contains(x) by {
            let i = choose|i: int| 0 <= i < b1.len() && b1[i] == x;
            assert(seq_lt(b[0], b[i + 1]));
            assert(a.contains(x));
            let j = choose|j: int| 0 <= j < a.len() && a[j] == x;
            if j == 0 {
                lemma_seq_lt_irreflexive(x);
            }
            assert(a1[j - 1] == x);
        }
        lemma_ascending_unique(a1, b1);
        assert(a =~= seq![a[0]] + a1);
        assert(b =~= seq![b[0]] + b1);
    }
}

/// An ascending list with exactly the members of `s` is the listing of `s`.
pub proof fn lemma_ascending_listing(r: Seq<Seq<char>>, s: Set<Seq<char>>)
    requires
        ascending(r),
        forall|x: Seq<char>| #[trigger] r.contains(x) <==> s.contains(x),
    ensures
        ascending_listing(s) == r,
{
    let l = ascending_listing(s);
    assert(ascending(l) && forall|x: Seq<char>| #[trigger] l.contains(x) <==> s.contains(x));
    lemma_ascending_unique(l, r);
}

/// The distinct strings of a strictly sorted list, as character sequences,
/// are the ascending listing of its members.
pub proof fn lemma_sorted_strings_listing(r: Seq<String>, v: Seq<String>)
    requires
        strings_strictly_sorted(r),
        forall|s: Seq<char>| #[trigger] has_string(r, s) <==> has_string(v, s),
    ensures
        views(r) == ascending_listing(string_set(v)),
{
    let w = views(r);
    assert forall|i: int, j: int| 0 <= i < j < w.len() implies seq_lt(#[trigger] w[i], #[trigger] w[j]) by {
        assert(w[i] == r[i]@ && w[j] == r[j]@);
    }
    assert forall|x: Seq<char>| #[trigger] w.contains(x) <==> string_set(v).contains(x) by {
        if w.contains(x) {
            let i = choose|i: int| 0 <= i < w.len() && w[i] == x;
            assert(r[i]@ == x);
            assert(has_string(r, x));
        }
        if string_set(v).contains(x) {
            assert(has_string(r, x));
            let i = choose|i: int| 0 <= i < r.len() && #[trigger] r[i]@ == x;
            assert(w[i] == x);
        }
    }
    lemma_ascending_listing(w, string_set(v));
}

/// Append the `n` low bytes of `x`, least significant first.
pub fn push_le(buf: &mut Vec<u8>, x: u64, n: usize)
    ensures
        final(buf)@ == old(buf)@ + le_bytes(x as nat, n as nat),
{
    let mut y: u64 = x;
    let mut i: usize = 0;
    while i < n
        invariant
            i <= n,
            buf@ + le_bytes(y as nat, (n - i) as nat) == old(buf)@ + le_bytes(x as nat, n as nat),
        decreases n - i,
    {
        let ghost before = buf@;
        buf.push((y % 256) as u8);
        proof {
            assert(le_bytes(y as nat, (n - i) as nat) == seq![(y % 256) as u8] + le_bytes(
                (y / 256) as nat,
                (n - i - 1) as nat,
            ));
            assert(buf@ + le_bytes((y / 256) as nat, (n - i - 1) as nat) =~= before + le_bytes(
                y as nat,
                (n - i) as nat,
            ));
        }
        y = y / 256;
        i = i + 1;
    }
    proof {
        assert(le_bytes(y as nat, 0) =~= Seq::<u8>::empty());
        assert(buf@ + Seq::<u8>::empty() =~= buf@);
    }
}

/// Append the `n` low bytes of `x`, most significant first.
pub fn push_be(buf: &mut Vec<u8>, x: u128, n: usize)
    ensures
        final(buf)@ == old(buf)@ + be_bytes(x as nat, n as nat),
    decreases n,
{
    if n == 0 {
        assert(old(buf)@ + be_bytes(x as nat, 0) =~= old(buf)@);
    } else {
        push_be(buf, x / 256, n - 1);
        buf.push((x % 256) as u8);
        assert(final(buf)@ =~= old(buf)@ + be_bytes(x as nat, n as nat)) by {
            assert(be_bytes(x as nat, n as nat) == be_bytes((x / 256) as nat, (n - 1) as nat) + seq![
                (x % 256) as u8,
            ]);
        }
    }
}

/// Append the UTF-8 bytes of `s`.
pub fn push_str(buf: &mut Vec<u8>, s: &String)
    ensures
        final(buf)@ == old(buf)@ + encode_utf8(s@),
{
    let b = s.as_str().as_bytes();
    let mut i: usize = 0;
    while i < b.len()
        invariant
            i <= b@.len(),
            b@ == encode_utf8(s@),
            buf@ == old(buf)@ + b@.take(i as int),
        decreases b.len() - i,
    {
        buf.push(b[i]);
        proof {
            assert(b@.take(i as int + 1) == b@.take(i as int).push(b@[i as int]));
        }
        i = i + 1;
    }
    proof {
        assert(b@.take(b@.len() as int) == b@);
    }
}

/// Append the UTF-8 bytes of each string of `v`, in order.
pub fn push_strs(buf: &mut Vec<u8>, v: &Vec<String>)
    ensures
        final(buf)@ == old(buf)@ + utf8_concat(views(v@)),
{
    let mut i: usize = 0;
    while i < v.len()
        invariant
            i <= v@.len(),
            buf@ == old(buf)@ + utf8_concat(views(v@.take(i as int))),
        decreases v.len() - i,
    {
        let ghost before = buf@;
        push_str(buf, &v[i]);
        proof {
            let t = views(v@.take(i as int + 1));
            assert(t.drop_last() =~= views(v@.take(i as int)));
            assert(t.last() == v@[i as int]@);
            assert(buf@ =~= old(buf)@ + utf8_concat(t));
        }
        i = i + 1;
    }
    proof {
        assert(v@.take(v@.len() as int) == v@);
    }
}

} // verus!
