//! Clipping text: UTF-8 widths, byte-bounded prefixes, cutting at the last
//! space, and trimming white space.

use vstd::prelude::*;
use vstd::utf8::{encode_scalar, encode_utf8};
use crate::execution::{is_white_space, white_space};

verus! {

/// Bytes in the UTF-8 encoding of `c`.
pub open spec fn char_width(c: char) -> nat {
    encode_scalar(c as u32).len()
}

/// Bytes in the UTF-8 encoding of `s`.
pub open spec fn utf8_len(s: Seq<char>) -> nat {
    encode_utf8(s).len()
}

/// Encoding a concatenation concatenates the encodings.
pub proof fn lemma_encode_concat(a: Seq<char>, b: Seq<char>)
    ensures
        encode_utf8(a + b) == encode_utf8(a) + encode_utf8(b),
    decreases a.len(),
{
    if a.len() == 0 {
        assert(a + b =~= b);
        assert(encode_utf8(a) =~= Seq::<u8>::empty());
        assert(encode_utf8(a) + encode_utf8(b) =~= encode_utf8(b));
    } else {
        lemma_encode_concat(a.drop_first(), b);
        assert((a + b).drop_first() =~= a.drop_first() + b);
        assert((a + b)[0] == a[0]);
        assert(encode_utf8(a + b) =~= encode_utf8(a) + encode_utf8(b));
    }
}

/// A one-character text encodes as that character.
pub proof fn lemma_encode_single(c: char)
    ensures
        encode_utf8(seq![c]) == encode_scalar(c as u32),
{
    assert(seq![c].drop_first() =~= Seq::<char>::empty());
    assert(encode_utf8(Seq::<char>::empty()) =~= Seq::<u8>::empty());
    assert(encode_scalar(c as u32) + Seq::<u8>::empty() =~= encode_scalar(c as u32));
}

/// Appending a character adds its width.
pub proof fn lemma_utf8_len_push(s: Seq<char>, c: char)
    ensures
        utf8_len(s.push(c)) == utf8_len(s) + char_width(c),
{
    lemma_encode_concat(s, seq![c]);
    lemma_encode_single(c);
    assert(s.push(c) =~= s + seq![c]);
}

/// The width of a character is one to four bytes.
pub proof fn lemma_char_width_bounds(c: char)
    ensures
        1 <= char_width(c) <= 4,
{
    vstd::utf8::char_is_scalar(c);
}

/// A text takes at most four bytes per character.
pub proof fn lemma_utf8_len_bound(s: Seq<char>)
    ensures
        utf8_len(s) <= 4 * s.len(),
    decreases s.len(),
{
    if s.len() > 0 {
        lemma_utf8_len_bound(s.drop_last());
        lemma_utf8_len_push(s.drop_last(), s.last());
        lemma_char_width_bounds(s.last());
        assert(s.drop_last().push(s.last()) =~= s);
    } else {
        assert(encode_utf8(s) =~= Seq::<u8>::empty());
    }
}

/// A part of a text never takes more bytes than the text.
pub proof fn lemma_utf8_len_subrange(s: Seq<char>, i: int, j: int)
    requires
        0 <= i <= j <= s.len(),
    ensures
        utf8_len(s.subrange(i, j)) <= utf8_len(s),
{
    lemma_encode_concat(s.subrange(0, i), s.subrange(i, j));
    lemma_encode_concat(s.subrange(0, i) + s.subrange(i, j), s.subrange(j, s.len() as int));
    assert(s.subrange(0, i) + s.subrange(i, j) + s.subrange(j, s.len() as int) =~= s);
}

/// Bytes in the UTF-8 encoding of a string (`str::len`).
pub fn byte_len(s: &str) -> (n: usize)
    ensures
        n == utf8_len(s@),
{
    let b = s.as_bytes();
    b.len()
}

/// The width of a character (`char::len_utf8`).
pub fn char_width_of(c: char) -> (w: usize)
    ensures
        w == char_width(c),
{
    proof {
        vstd::utf8::char_is_scalar(c);
    }
    let u = c as u32;
    if u <= 0x7f {
        1
    } else if u <= 0x7ff {
        2
    } else if u <= 0xffff {
        3
    } else {
        4
    }
}

/// The longest prefix of `s` whose encoding fits in `n` bytes.
pub open spec fn take_bytes(s: Seq<char>, n: int) -> Seq<char>
    decreases s.len(),
{
    if s.len() == 0 || char_width(s[0]) > n {
        Seq::empty()
    } else {
        seq![s[0]] + take_bytes(s.drop_first(), n - char_width(s[0]))
    }
}

/// The byte-bounded prefix is a prefix, and fits.
pub proof fn lemma_take_bytes_prefix(s: Seq<char>, n: int)
    requires
        n >= 0,
    ensures
        take_bytes(s, n).len() <= s.len(),
        take_bytes(s, n) == s.take(take_bytes(s, n).len() as int),
        utf8_len(take_bytes(s, n)) <= n,
    decreases s.len(),
{
    if s.len() == 0 || char_width(s[0]) > n {
        assert(s.take(0) =~= Seq::<char>::empty());
        assert(encode_utf8(Seq::<char>::empty()) =~= Seq::<u8>::empty());
    } else {
        let rest = take_bytes(s.drop_first(), n - char_width(s[0]));
        lemma_take_bytes_prefix(s.drop_first(), n - char_width(s[0]));
        assert(seq![s[0]] + rest =~= s.take(rest.len() as int + 1));
        lemma_encode_concat(seq![s[0]], rest);
        lemma_encode_single(s[0]);
    }
}

/// How many leading characters of `s` fit in `n` bytes, and their bytes.
pub fn prefix_within_bytes(s: &Vec<char>, n: usize) -> (r: (usize, usize))
    ensures
        r.0 <= s@.len(),
        s@.take(r.0 as int) == take_bytes(s@, n as int),
        r.1 == utf8_len(s@.take(r.0 as int)),
{
    let mut i: usize = 0;
    let mut used: usize = 0;
    let mut done = false;
    proof {
        assert(s@.take(0) =~= Seq::<char>::empty());
        assert(s@.subrange(0, s@.len() as int) =~= s@);
        assert(encode_utf8(Seq::<char>::empty()) =~= Seq::<u8>::empty());
    }
    while !done && i < s.len()
        invariant
            i <= s@.len(),
            used <= n,
            used == utf8_len(s@.take(i as int)),
            take_bytes(s@, n as int) == s@.take(i as int) + take_bytes(
                s@.subrange(i as int, s@.len() as int),
                n - used,
            ),
            done ==> i < s@.len() && char_width(s@[i as int]) > n - used,
        decreases s.len() - i, if done { 0int } else { 1int },
    {
        let w = char_width_of(s[i]);
        if w > n - used {
            done = true;
        } else {
            proof {
                let t = s@.subrange(i as int, s@.len() as int);
                assert(t[0] == s@[i as int]);
                assert(t.drop_first() =~= s@.subrange(i as int + 1, s@.len() as int));
                assert(s@.take(i as int) + (seq![s@[i as int]] + take_bytes(t.drop_first(), n - used - w))
                    =~= s@.take(i as int + 1) + take_bytes(t.drop_first(), n - used - w));
                lemma_utf8_len_push(s@.take(i as int), s@[i as int]);
                assert(s@.take(i as int).push(s@[i as int]) =~= s@.take(i as int + 1));
            }
            used = used + w;
            i = i + 1;
        }
    }
    proof {
        let t = s@.subrange(i as int, s@.len() as int);
        if i < s@.len() {
            assert(t[0] == s@[i as int]);
        } else {
            assert(t.len() == 0);
        }
        assert(take_bytes(t, n - used) =~= Seq::<char>::empty());
        assert(s@.take(i as int) + Seq::<char>::empty() =~= s@.take(i as int));
    }
    (i, used)
}

/// Index of the last space of `s`, or -1 when it has none.
pub open spec fn last_space(s: Seq<char>) -> int
    decreases s.len(),
{
    if s.len() == 0 {
        -1
    } else if s.last() == ' ' {
        s.len() - 1
    } else {
        last_space(s.drop_last())
    }
}

/// `s` cut before its last space (`rfind(' ')` and `truncate`); unchanged
/// when it has no space.
pub open spec fn cut_at_last_space(s: Seq<char>) -> Seq<char> {
    if last_space(s) >= 0 {
        s.take(last_space(s))
    } else {
        s
    }
}

/// The last space lies within the text.
pub proof fn lemma_last_space_range(s: Seq<char>)
    ensures
        -1 <= last_space(s) < s.len(),
        last_space(s) >= 0 ==> s[last_space(s)] == ' ',
    decreases s.len(),
{
    if s.len() > 0 && s.last() != ' ' {
        lemma_last_space_range(s.drop_last());
    }
}

/// `s` cut before its last space.
pub fn cut_chars_at_last_space(s: &Vec<char>) -> (r: Vec<char>)
    ensures
        r@ == cut_at_last_space(s@),
{
    let mut i: usize = s.len();
    proof {
        assert(s@.take(s@.len() as int) =~= s@);
    }
    while i > 0 && s[i - 1] != ' '
        invariant
            i <= s@.len(),
            last_space(s@) == last_space(s@.take(i as int)),
        decreases i,
    {
        proof {
            assert(s@.take(i as int).drop_last() =~= s@.take(i as int - 1));
        }
        i = i - 1;
    }
    let mut r: Vec<char> = Vec::new();
    let end: usize = if i > 0 { i - 1 } else { s.len() };
    proof {
        if i > 0 {
            assert(s@.take(i as int).last() == ' ');
        } else {
            assert(s@.take(0).len() == 0);
        }
    }
    let mut k: usize = 0;
    while k < end
        invariant
            end <= s@.len(),
            k <= end,
            r@ == s@.take(k as int),
        decreases end - k,
    {
        r.push(s[k]);
        proof {
            assert(s@.take(k as int + 1) =~= s@.take(k as int).push(s@[k as int]));
        }
        k = k + 1;
    }
    proof {
        if i == 0 {
            assert(s@.take(s@.len() as int) =~= s@);
        }
    }
    r
}

/// `s` without leading white space.
pub open spec fn trim_start(s: Seq<char>) -> Seq<char>
    decreases s.len(),
{
    if s.len() > 0 && is_white_space(s[0]) {
        trim_start(s.drop_first())
    } else {
        s
    }
}

/// `s` without trailing white space.
pub open spec fn trim_end(s: Seq<char>) -> Seq<char>
    decreases s.len(),
{
    if s.len() > 0 && is_white_space(s.last()) {
        trim_end(s.drop_last())
    } else {
        s
    }
}

/// `s` without surrounding white space (`str::trim`).
pub open spec fn trim_text(s: Seq<char>) -> Seq<char> {
    trim_end(trim_start(s))
}

/// Trimming keeps a part of the text.
pub proof fn lemma_trim_part(s: Seq<char>)
    ensures
        trim_text(s).len() <= s.len(),
        utf8_len(trim_text(s)) <= utf8_len(s),
{
    lemma_trim_start_part(s);
    lemma_trim_end_part(trim_start(s));
}

proof fn lemma_trim_start_part(s: Seq<char>)
    ensures
        exists|i: int| 0 <= i <= s.len() && trim_start(s) == s.subrange(i, s.len() as int),
        trim_start(s).len() <= s.len(),
        utf8_len(trim_start(s)) <= utf8_len(s),
    decreases s.len(),
{
    if s.len() > 0 && is_white_space(s[0]) {
        lemma_trim_start_part(s.drop_first());
        let i = choose|i: int|
            0 <= i <= s.drop_first().len() && trim_start(s.drop_first()) == s.drop_first().subrange(
                i,
                s.drop_first().len() as int,
            );
        assert(s.drop_first().subrange(i, s.drop_first().len() as int) =~= s.subrange(i + 1, s.len() as int));
        lemma_utf8_len_subrange(s, i + 1, s.len() as int);
    } else {
        assert(s.subrange(0, s.len() as int) =~= s);
    }
}

proof fn lemma_trim_end_part(s: Seq<char>)
    ensures
        trim_end(s).len() <= s.len(),
        utf8_len(trim_end(s)) <= utf8_len(s),
    decreases s.len(),
{
    if s.len() > 0 && is_white_space(s.last()) {
        lemma_trim_end_part(s.drop_last());
        lemma_utf8_len_subrange(s, 0, s.len() - 1);
        assert(s.subrange(0, s.len() - 1) =~= s.drop_last());
    }
}

/// `s` without surrounding white space.
pub fn trim_chars(s: &Vec<char>) -> (r: Vec<char>)
    ensures
        r@ == trim_text(s@),
{
    let n = s.len();
    let mut lo: usize = 0;
    proof {
        assert(s@.subrange(0, n as int) =~= s@);
    }
    while lo < n && white_space(s[lo])
        invariant
            n == s@.len(),
            lo <= n,
            trim_start(s@) == trim_start(s@.subrange(lo as int, n as int)),
        decreases n - lo,
    {
        proof {
            let t = s@.subrange(lo as int, n as int);
            assert(t[0] == s@[lo as int]);
            assert(t.drop_first() =~= s@.subrange(lo as int + 1, n as int));
        }
        lo = lo + 1;
    }
    let ghost front = s@.subrange(lo as int, n as int);
    proof {
        if lo < n {
            assert(front[0] == s@[lo as int]);
        }
        assert(trim_start(s@) == front);
    }
    let mut hi: usize = n;
    proof {
        assert(s@.subrange(lo as int, hi as int) =~= front);
    }
    while hi > lo && white_space(s[hi - 1])
        invariant
            n == s@.len(),
            lo <= hi <= n,
            front == s@.subrange(lo as int, n as int),
            trim_end(front) == trim_end(s@.subrange(lo as int, hi as int)),
        decreases hi - lo,
    {
        proof {
            let t = s@.subrange(lo as int, hi as int);
            assert(t.last() == s@[hi - 1]);
            assert(t.drop_last() =~= s@.subrange(lo as int, hi - 1));
        }
        hi = hi - 1;
    }
    proof {
        let t = s@.subrange(lo as int, hi as int);
        if hi > lo {
            assert(t.last() == s@[hi - 1]);
        }
        assert(trim_end(front) == t);
    }
    let mut r: Vec<char> = Vec::new();
    let mut k: usize = lo;
    while k < hi
        invariant
            n == s@.len(),
            lo <= k <= hi <= n,
            r@ == s@.subrange(lo as int, k as int),
        decreases hi - k,
    {
        r.push(s[k]);
        proof {
            assert(s@.subrange(lo as int, k + 1) =~= s@.subrange(lo as int, k as int).push(s@[k as int]));
        }
        k = k + 1;
    }
    r
}

} // verus!
