//! Words of a text, and how many words two texts share: the measures that
//! drift detection turns into alignment scores.

use vstd::prelude::*;
use crate::clip::{byte_len, utf8_len};
use crate::execution::{is_white_space, white_space};
use crate::strings::chars_of;
use crate::text::{lowercase, string_from_chars, to_lowercase};

verus! {

/// Number of characters at the start of `s` before the first space.
pub open spec fn run_len(s: Seq<char>) -> nat
    decreases s.len(),
{
    if s.len() == 0 || is_white_space(s[0]) {
        0
    } else {
        1 + run_len(s.drop_first())
    }
}

/// A run is no longer than the text.
pub proof fn lemma_run_len_bound(s: Seq<char>)
    ensures
        run_len(s) <= s.len(),
    decreases s.len(),
{
    if s.len() > 0 && !is_white_space(s[0]) {
        lemma_run_len_bound(s.drop_first());
    }
}

/// The words of a text: its maximal runs of characters that are not white
/// space, in order (what `str::split_whitespace` yields).
pub open spec fn words_of(s: Seq<char>) -> Seq<Seq<char>>
    decreases s.len(),
{
    if s.len() == 0 {
        Seq::empty()
    } else if is_white_space(s[0]) {
        words_of(s.drop_first())
    } else {
        proof {
            lemma_run_len_bound(s);
        }
        seq![s.take(run_len(s) as int)] + words_of(s.skip(run_len(s) as int))
    }
}

/// A run of `k` non-space characters ended by a space or by the end of the
/// text has length `k`.
proof fn lemma_run_len_is(s: Seq<char>, k: int)
    requires
        0 <= k <= s.len(),
        forall|t: int| 0 <= t < k ==> !is_white_space(#[trigger] s[t]),
        k == s.len() || is_white_space(s[k]),
    ensures
        run_len(s) == k,
    decreases k,
{
    if k > 0 {
        let d = s.drop_first();
        assert forall|t: int| 0 <= t < k - 1 implies !is_white_space(#[trigger] d[t]) by {
            assert(d[t] == s[t + 1]);
        }
        if k < s.len() {
            assert(d[k - 1] == s[k]);
        }
        lemma_run_len_is(d, k - 1);
    }
}

/// The words of `s`, in order.
pub fn split_words(s: &str) -> (r: Vec<String>)
    ensures
        r@.map_values(|w: String| w@) == words_of(s@),
{
    let c = chars_of(s);
    let ghost all = c@;
    let mut out: Vec<String> = Vec::new();
    let mut i: usize = 0;
    proof {
        assert(all.skip(0) =~= all);
    }
    while i < c.len()
        invariant
            c@ == all,
            i <= all.len(),
            out@.map_values(|w: String| w@) + words_of(all.skip(i as int)) == words_of(all),
        decreases c.len() - i,
    {
        let ghost rest = all.skip(i as int);
        if white_space(c[i]) {
            proof {
                assert(rest[0] == all[i as int]);
                assert(rest.drop_first() =~= all.skip(i as int + 1));
            }
            i = i + 1;
        } else {
            let mut j: usize = i;
            let mut word: Vec<char> = Vec::new();
            while j < c.len() && !white_space(c[j])
                invariant
                    c@ == all,
                    i <= j <= all.len(),
                    word@ == all.subrange(i as int, j as int),
                    forall|t: int| i <= t < j ==> !is_white_space(#[trigger] all[t]),
                decreases c.len() - j,
            {
                word.push(c[j]);
                proof {
                    assert(all.subrange(i as int, j as int + 1) =~= all.subrange(i as int, j as int).push(
                        all[j as int],
                    ));
                }
                j = j + 1;
            }
            proof {
                let k = j - i;
                assert forall|t: int| 0 <= t < k implies !is_white_space(#[trigger] rest[t]) by {
                    assert(rest[t] == all[i + t]);
                }
                if j < all.len() {
                    assert(rest[k as int] == all[j as int]);
                }
                lemma_run_len_is(rest, k as int);
                assert(rest[0] == all[i as int]);
                assert(rest.take(k as int) =~= word@);
                assert(rest.skip(k as int) =~= all.skip(j as int));
                assert(words_of(rest) == seq![word@] + words_of(all.skip(j as int)));
            }
            let ghost prev = out@;
            out.push(string_from_chars(&word));
            proof {
                assert(out@ == prev.push(out@.last()));
                assert(out@.map_values(|w: String| w@) =~= prev.map_values(|w: String| w@).push(word@));
                assert(out@.map_values(|w: String| w@) + words_of(all.skip(j as int)) =~= prev.map_values(
                    |w: String| w@,
                ) + (seq![word@] + words_of(all.skip(j as int))));
            }
            i = j;
        }
    }
    proof {
        assert(all.skip(all.len() as int) =~= Seq::<char>::empty());
        assert(out@.map_values(|w: String| w@) + Seq::<Seq<char>>::empty() =~= out@.map_values(
            |w: String| w@,
        ));
    }
    out
}

/// How many of `words`, counted with repetition, are longer than `min_bytes`
/// bytes and occur among `pool`.
pub open spec fn shared_count(words: Seq<Seq<char>>, pool: Seq<Seq<char>>, min_bytes: nat) -> nat
    decreases words.len(),
{
    if words.len() == 0 {
        0
    } else {
        shared_count(words.drop_last(), pool, min_bytes) + if pool.contains(words.last()) && utf8_len(
            words.last(),
        ) > min_bytes {
            1nat
        } else {
            0nat
        }
    }
}

/// Whether `w` occurs among `pool`.
fn has_word(pool: &Vec<String>, w: &String) -> (b: bool)
    ensures
        b == pool@.map_values(|x: String| x@).contains(w@),
{
    let ghost views = pool@.map_values(|x: String| x@);
    let mut i: usize = 0;
    while i < pool.len()
        invariant
            i <= pool@.len(),
            views == pool@.map_values(|x: String| x@),
            forall|t: int| 0 <= t < i ==> views[t] != w@,
        decreases pool.len() - i,
    {
        if pool[i] == *w {
            assert(views[i as int] == w@);
            return true;
        }
        i = i + 1;
    }
    false
}

/// How many of `words` are longer than `min_bytes` bytes and occur among
/// `pool`.
pub fn count_shared(words: &Vec<String>, pool: &Vec<String>, min_bytes: usize) -> (n: usize)
    ensures
        n == shared_count(words@.map_values(|w: String| w@), pool@.map_values(|w: String| w@), min_bytes as nat),
{
    let ghost ws = words@.map_values(|w: String| w@);
    let ghost ps = pool@.map_values(|w: String| w@);
    let mut n: usize = 0;
    let mut i: usize = 0;
    while i < words.len()
        invariant
            i <= words@.len(),
            ws == words@.map_values(|w: String| w@),
            ps == pool@.map_values(|w: String| w@),
            n == shared_count(ws.take(i as int), ps, min_bytes as nat),
            n <= i,
        decreases words.len() - i,
    {
        proof {
            assert(ws.take(i as int + 1).drop_last() =~= ws.take(i as int));
            assert(ws.take(i as int + 1).last() == words@[i as int]@);
        }
        if has_word(pool, &words[i]) && byte_len(words[i].as_str()) > min_bytes {
            n = n + 1;
        }
        i = i + 1;
    }
    proof {
        assert(ws.take(words@.len() as int) =~= ws);
    }
    n
}

/// The words of a text in lowercase.
pub open spec fn lower_words(s: Seq<char>) -> Seq<Seq<char>> {
    words_of(lowercase(s))
}

/// How an action's words match a goal's: how many of the action's words
/// of more than three bytes are words of the goal, and how many words the
/// goal has (both compared in lowercase).
pub fn goal_word_match(action: &String, goal_description: &String) -> (r: (usize, usize))
    ensures
        r.0 == shared_count(lower_words(action@), lower_words(goal_description@), 3),
        r.1 == lower_words(goal_description@).len(),
{
    let a = to_lowercase(action);
    let g = to_lowercase(goal_description);
    let action_words = split_words(a.as_str());
    let goal_words = split_words(g.as_str());
    let n = count_shared(&action_words, &goal_words, 3);
    proof {
        assert(goal_words@.map_values(|w: String| w@).len() == goal_words@.len());
    }
    (n, goal_words.len())
}

/// The words of a text, in lowercase, longer than `min_bytes` bytes.
pub open spec fn long_words(s: Seq<char>, min_bytes: nat) -> Seq<Seq<char>> {
    lower_words(s).filter(|w: Seq<char>| utf8_len(w) > min_bytes)
}

/// Those of `words` longer than `min_bytes` bytes.
fn keep_long(words: Vec<String>, min_bytes: usize) -> (r: Vec<String>)
    ensures
        r@.map_values(|w: String| w@) == words@.map_values(|w: String| w@).filter(
            |w: Seq<char>| utf8_len(w) > min_bytes,
        ),
{
    let ghost ws = words@.map_values(|w: String| w@);
    let mut kept: Vec<String> = Vec::new();
    let mut i: usize = 0;
    let n = words.len();
    proof {
        reveal(Seq::filter);
        assert(ws.take(0).filter(|w: Seq<char>| utf8_len(w) > min_bytes) =~= Seq::<Seq<char>>::empty());
    }
    while i < n
        invariant
            n == words@.len(),
            i <= n,
            ws == words@.map_values(|w: String| w@),
            kept@.map_values(|w: String| w@) == ws.take(i as int).filter(|w: Seq<char>| utf8_len(w) > min_bytes),
        decreases n - i,
    {
        let long = byte_len(words[i].as_str()) > min_bytes;
        proof {
            let t = ws.take(i as int + 1);
            assert(t.drop_last() =~= ws.take(i as int));
            reveal(Seq::filter);
            assert(t.filter(|w: Seq<char>| utf8_len(w) > min_bytes) == (if utf8_len(t.last()) > min_bytes {
                t.drop_last().filter(|w: Seq<char>| utf8_len(w) > min_bytes).push(t.last())
            } else {
                t.drop_last().filter(|w: Seq<char>| utf8_len(w) > min_bytes)
            }));
        }
        if long {
            let w = words[i].clone();
            let ghost prev = kept@;
            kept.push(w);
            proof {
                assert(kept@ == prev.push(kept@.last()));
                assert(kept@.map_values(|w: String| w@) =~= prev.map_values(|w: String| w@).push(ws[i as int]));
            }
        }
        i = i + 1;
    }
    proof {
        assert(ws.take(n as int) =~= ws);
    }
    kept
}

/// How an action's words match the intent's: how many of the action's words
/// of more than four bytes are such words of the intent, and how many such
/// words the action has (both compared in lowercase).
pub fn intent_word_match(action: &String, intent: &String) -> (r: (usize, usize))
    ensures
        r.0 == shared_count(long_words(action@, 4), long_words(intent@, 4), 0),
        r.1 == long_words(action@, 4).len(),
{
    let a = to_lowercase(action);
    let t = to_lowercase(intent);
    let action_words = keep_long(split_words(a.as_str()), 4);
    let intent_words = keep_long(split_words(t.as_str()), 4);
    let n = count_shared(&action_words, &intent_words, 0);
    proof {
        assert(action_words@.map_values(|w: String| w@).len() == action_words@.len());
    }
    (n, action_words.len())
}

} // verus!
