//! Reading the port out of an endpoint address.

use crate::strings::chars_of;
use vstd::prelude::*;

verus! {

/// `s` holds the scheme separator `://` at `i`.
pub open spec fn is_scheme_sep(s: Seq<char>, i: int) -> bool {
    0 <= i && i + 3 <= s.len() && s[i] == ':' && s[i + 1] == '/' && s[i + 2] == '/'
}

/// The text after the first `://`, or all of `s` when there is none.
pub open spec fn after_scheme(s: Seq<char>) -> Seq<char> {
    if exists|i: int| #[trigger] is_scheme_sep(s, i) {
        let i = choose|i: int| #[trigger] is_scheme_sep(s, i) && forall|j: int| 0 <= j < i ==> !is_scheme_sep(s, j);
        s.skip(i + 3)
    } else {
        s
    }
}

/// The text before the first `/`, or all of `s` when there is none.
pub open spec fn before_slash(s: Seq<char>) -> Seq<char> {
    if s.contains('/') {
        let i = choose|i: int| 0 <= i < s.len() && s[i] == '/' && forall|j: int| 0 <= j < i ==> s[j] != '/';
        s.take(i)
    } else {
        s
    }
}

/// The text after the last `:`, if there is one.
pub open spec fn after_last_colon(s: Seq<char>) -> Option<Seq<char>> {
    if s.contains(':') {
        let i = choose|i: int| 0 <= i < s.len() && s[i] == ':' && forall|j: int| i < j < s.len() ==> s[j] != ':';
        Some(s.skip(i + 1))
    } else {
        None
    }
}

/// `c` is an ASCII decimal digit.
pub open spec fn is_digit(c: char) -> bool {
    '0' <= c && c <= '9'
}

/// Every character of `d` is a decimal digit.
pub open spec fn all_digits(d: Seq<char>) -> bool {
    forall|i: int| 0 <= i < d.len() ==> is_digit(#[trigger] d[i])
}

/// The value of a string of decimal digits.
pub open spec fn decimal_value(d: Seq<char>) -> nat
    decreases d.len(),
{
    if d.len() == 0 {
        0
    } else {
        decimal_value(d.drop_last()) * 10 + ((d.last() as int) - ('0' as int)) as nat
    }
}

/// The digits that std's integer parsing reads: a leading `+` is skipped
/// when more follows it.
pub open spec fn unsigned_digits(t: Seq<char>) -> Seq<char> {
    if t.len() > 1 && t[0] == '+' {
        t.drop_first()
    } else {
        t
    }
}

/// What parsing `t` as a `u16` gives (`str::parse::<u16>`): a non-empty run of
/// decimal digits, after an optional `+`, whose value fits.
pub open spec fn parse_u16_spec(t: Seq<char>) -> Option<u16> {
    let d = unsigned_digits(t);
    if d.len() > 0 && all_digits(d) && decimal_value(d) <= u16::MAX {
        Some(decimal_value(d) as u16)
    } else {
        None
    }
}

/// The port named in an endpoint address: the text after the last `:` of the
/// host part (after any `scheme://`, before the first `/`), read as a `u16`.
pub open spec fn endpoint_port(e: Seq<char>) -> Option<u16> {
    match after_last_colon(before_slash(after_scheme(e))) {
        Some(t) => parse_u16_spec(t),
        None => None,
    }
}

/// Parse a `u16` as std's `str::parse` does.
pub fn parse_u16(t: &Vec<char>) -> (r: Option<u16>)
    ensures
        r == parse_u16_spec(t@),
{
    let start: usize = if t.len() > 1 && t[0] == '+' {
        1
    } else {
        0
    };
    let ghost d = unsigned_digits(t@);
    proof {
        assert(d == t@.skip(start as int));
    }
    if start >= t.len() {
        return None;
    }
    let mut value: u32 = 0;
    let mut i: usize = start;
    while i < t.len()
        invariant
            start <= i <= t@.len(),
            start < t@.len(),
            d == unsigned_digits(t@),
            d == t@.skip(start as int),
            forall|k: int| start <= k < i ==> is_digit(#[trigger] t@[k]),
            value == decimal_value(t@.subrange(start as int, i as int)),
            value <= u16::MAX,
        decreases t.len() - i,
    {
        let c = t[i];
        if !('0' <= c && c <= '9') {
            proof {
                assert(d[i - start] == c);
                assert(!is_digit(d[i - start]));
                assert(!all_digits(d));
                assert(parse_u16_spec(t@) is None);
            }
            return None;
        }
        let ghost sub = t@.subrange(start as int, i as int + 1);
        proof {
            assert(sub.drop_last() == t@.subrange(start as int, i as int));
            assert(sub.last() == c);
        }
        let digit = (c as u32) - ('0' as u32);
        let next: u32 = value * 10 + digit;
        proof {
            assert(next == decimal_value(sub));
        }
        if next > 65535 {
            proof {
                lemma_decimal_value_grows(d, i - start + 1);
                assert(d.take(i - start + 1) == sub);
                if all_digits(d) {
                    assert(decimal_value(d) > u16::MAX);
                }
                assert(parse_u16_spec(t@) is None);
            }
            return None;
        }
        value = next;
        i = i + 1;
    }
    proof {
        assert(t@.subrange(start as int, t@.len() as int) == d);
        assert forall|k: int| 0 <= k < d.len() implies is_digit(#[trigger] d[k]) by {
            assert(d[k] == t@[start + k]);
        }
        assert(all_digits(d));
    }
    Some(value as u16)
}

/// A prefix of a digit string has a value no larger than the whole.
proof fn lemma_decimal_value_grows(d: Seq<char>, k: int)
    requires
        0 <= k <= d.len(),
    ensures
        all_digits(d) ==> decimal_value(
            d.take(k),
        ) <= decimal_value(d),
    decreases d.len() - k,
{
    if k < d.len() {
        lemma_decimal_value_grows(d, k + 1);
        if all_digits(d) {
            assert(d.take(k + 1).drop_last() == d.take(k));
            assert(is_digit(d[k]));
        }
    } else {
        assert(d.take(k) == d);
    }
}

/// The index just after the first `://` of `s`, or 0 when there is none.
fn scheme_end(s: &Vec<char>) -> (start: usize)
    ensures
        start <= s@.len(),
        after_scheme(s@) == s@.skip(start as int),
{
    let mut i: usize = 0;
    if s.len() < 3 {
        proof {
            assert forall|j: int| !is_scheme_sep(s@, j) by {}
            assert(s@.skip(0) == s@);
        }
        return 0;
    }
    while i <= s.len() - 3
        invariant
            s@.len() >= 3,
            i <= s@.len() - 2,
            forall|j: int| 0 <= j < i ==> !is_scheme_sep(s@, j),
        decreases s.len() - i,
    {
        if s[i] == ':' && s[i + 1] == '/' && s[i + 2] == '/' {
            proof {
                assert(is_scheme_sep(s@, i as int));
                let w = choose|w: int| #[trigger] is_scheme_sep(s@, w) && forall|j: int|
                    0 <= j < w ==> !is_scheme_sep(s@, j);
                if w > i {
                    assert(!is_scheme_sep(s@, i as int));
                }
                assert(w == i);
            }
            return i + 3;
        }
        i = i + 1;
    }
    proof {
        assert forall|j: int| !is_scheme_sep(s@, j) by {
            if 0 <= j && j + 3 <= s@.len() {
                assert(j < i);
            }
        }
        assert(s@.skip(0) == s@);
    }
    0
}

/// The index of the first `/` at or after `start`, or the length when there is none.
fn slash_from(s: &Vec<char>, start: usize) -> (end: usize)
    requires
        start <= s@.len(),
    ensures
        start <= end <= s@.len(),
        before_slash(s@.skip(start as int)) == s@.subrange(start as int, end as int),
{
    let ghost a = s@.skip(start as int);
    let mut end: usize = start;
    while end < s.len() && s[end] != '/'
        invariant
            start <= end <= s@.len(),
            a == s@.skip(start as int),
            forall|j: int| start <= j < end ==> s@[j] != '/',
        decreases s.len() - end,
    {
        end = end + 1;
    }
    proof {
        if end < s.len() {
            assert(a[end - start] == '/');
            assert(a.contains('/'));
            let w = choose|w: int| 0 <= w < a.len() && a[w] == '/' && forall|j: int|
                0 <= j < w ==> a[j] != '/';
            if w < end - start {
                assert(a[w] == s@[start + w]);
            } else if w > end - start {
                assert(a[end - start] == '/');
            }
            assert(before_slash(a) == s@.subrange(start as int, end as int));
        } else {
            assert forall|j: int| 0 <= j < a.len() implies a[j] != '/' by {
                assert(a[j] == s@[start + j]);
            }
            assert(!a.contains('/'));
            assert(before_slash(a) == s@.subrange(start as int, end as int));
        }
    }
    end
}

/// The index just after the last `:` in `s[start..end]`, if there is one.
fn after_colon(s: &Vec<char>, start: usize, end: usize) -> (k: Option<usize>)
    requires
        start <= end <= s@.len(),
    ensures
        match after_last_colon(s@.subrange(start as int, end as int)) {
            Some(t) => k matches Some(k) && start < k <= end && t == s@.subrange(
                k as int,
                end as int,
            ),
            None => k is None,
        },
{
    let ghost h = s@.subrange(start as int, end as int);
    let mut k: usize = end;
    while k > start && s[k - 1] != ':'
        invariant
            start <= k <= end,
            end <= s@.len(),
            h == s@.subrange(start as int, end as int),
            forall|j: int| k <= j < end ==> s@[j] != ':',
        decreases k,
    {
        k = k - 1;
    }
    if k == start {
        proof {
            assert forall|j: int| 0 <= j < h.len() implies h[j] != ':' by {
                assert(h[j] == s@[start + j]);
            }
            assert(!h.contains(':'));
        }
        return None;
    }
    proof {
        let c = (k - 1 - start) as int;
        assert(h[c] == ':');
        assert(h.contains(':'));
        let w = choose|w: int| 0 <= w < h.len() && h[w] == ':' && forall|j: int|
            w < j < h.len() ==> h[j] != ':';
        if w < c {
            assert(h[c] == ':');
        } else if w > c {
            assert(h[w] == s@[start + w]);
        }
        assert(after_last_colon(h) == Some(h.skip(c + 1)));
        assert(h.skip(c + 1) == s@.subrange(k as int, end as int));
    }
    Some(k)
}

/// The characters `s[from..to]`.
fn chars_between(s: &Vec<char>, from: usize, to: usize) -> (t: Vec<char>)
    requires
        from <= to <= s@.len(),
    ensures
        t@ == s@.subrange(from as int, to as int),
{
    let mut t: Vec<char> = Vec::new();
    let mut m: usize = from;
    while m < to
        invariant
            from <= m <= to,
            to <= s@.len(),
            t@ == s@.subrange(from as int, m as int),
        decreases to - m,
    {
        t.push(s[m]);
        m = m + 1;
    }
    t
}

/// The port named in an endpoint address, if any.
pub fn extract_port(endpoint: &str) -> (r: Option<u16>)
    ensures
        r == endpoint_port(endpoint@),
{
    let s = chars_of(endpoint);
    let start = scheme_end(&s);
    let end = slash_from(&s, start);
    match after_colon(&s, start, end) {
        Some(k) => {
            let t = chars_between(&s, k, end);
            parse_u16(&t)
        },
        None => None,
    }
}

} // verus!
