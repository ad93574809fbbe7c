//! What a frame says of its run of turns: a short summary, key points, and
//! the outcome.

use vstd::prelude::*;
use crate::clip::{
    last_space,     byte_len, lemma_take_bytes_prefix, lemma_trim_part, lemma_utf8_len_bound, lemma_utf8_len_subrange,
    lemma_encode_concat, lemma_last_space_range,     cut_at_last_space, cut_chars_at_last_space, prefix_within_bytes, take_bytes, trim_chars,
    trim_text, utf8_len,
};
use crate::compaction::engine::{ChatMessage, ChatTurn};
use crate::compaction::frames::{byte_len_u32, points_tokens};
use crate::strings::{chars_of, contains_string, has_string, views};
use crate::text::{contains_chars, lowercase, string_from_chars, text_contains, to_lowercase};

verus! {

/// The first `n` items of `s`, or all of them when it is shorter.
pub open spec fn leading<T>(s: Seq<T>, n: nat) -> Seq<T> {
    if s.len() <= n {
        s
    } else {
        s.take(n as int)
    }
}

/// A message as it enters the summary: unchanged when its encoding fits in
/// `max` bytes; otherwise its first `max` characters, cut before the last
/// space, followed by `...`.
pub open spec fn piece(content: Seq<char>, max: nat) -> Seq<char> {
    if utf8_len(content) > max {
        cut_at_last_space(leading(content, max)) + seq!['.', '.', '.']
    } else {
        content
    }
}

/// What a turn adds to the summary: the piece of its first message and a
/// space; nothing when it has no message.
pub open spec fn turn_piece(t: ChatTurn, max: nat) -> Seq<char> {
    if t.messages@.len() > 0 {
        piece(t.messages@[0].content@, max).push(' ')
    } else {
        Seq::empty()
    }
}

/// The pieces of the turns, in order.
pub open spec fn pieces(turns: Seq<ChatTurn>, max: nat) -> Seq<char>
    decreases turns.len(),
{
    if turns.len() == 0 {
        Seq::empty()
    } else {
        pieces(turns.drop_last(), max) + turn_piece(turns.last(), max)
    }
}

/// The summary before its final clipping: the pieces of the first three turns.
pub open spec fn raw_summary(turns: Seq<ChatTurn>, max: nat) -> Seq<char> {
    pieces(leading(turns, 3), max)
}

/// Clipping the summary to `max` bytes cuts at a character boundary (else
/// `String::truncate` panics).
pub open spec fn summary_fits(turns: Seq<ChatTurn>, max: nat) -> bool {
    let raw = raw_summary(turns, max);
    utf8_len(raw) > max ==> utf8_len(take_bytes(raw, max as int)) == max
}

/// The summary of a run: the raw summary, clipped to `max` bytes, cut before
/// its last space and followed by `...` when it was longer, then trimmed.
pub open spec fn summary_text(turns: Seq<ChatTurn>, max: nat) -> Seq<char> {
    let raw = raw_summary(turns, max);
    trim_text(
        if utf8_len(raw) > max {
            cut_at_last_space(take_bytes(raw, max as int)) + seq!['.', '.', '.']
        } else {
            raw
        },
    )
}

/// The first `n` characters of `v` (all of them when it is shorter).
fn leading_chars(v: &Vec<char>, n: usize) -> (r: Vec<char>)
    ensures
        r@ == leading(v@, n as nat),
{
    let mut r: Vec<char> = Vec::new();
    let end = if n < v.len() { n } else { v.len() };
    let mut k: usize = 0;
    while k < end
        invariant
            end <= v@.len(),
            end == (if n < v@.len() { n as int } else { v@.len() as int }),
            k <= end,
            r@ == v@.take(k as int),
        decreases end - k,
    {
        r.push(v[k]);
        proof {
            assert(v@.take(k as int + 1) =~= v@.take(k as int).push(v@[k as int]));
        }
        k = k + 1;
    }
    proof {
        if v@.len() <= n {
            assert(v@.take(v@.len() as int) =~= v@);
        }
    }
    r
}

/// Append `p` to `acc`.
fn append_chars(acc: &mut Vec<char>, p: &Vec<char>)
    ensures
        final(acc)@ == old(acc)@ + p@,
{
    let ghost pre = acc@;
    let mut k: usize = 0;
    while k < p.len()
        invariant
            k <= p@.len(),
            acc@ == pre + p@.take(k as int),
        decreases p.len() - k,
    {
        acc.push(p[k]);
        proof {
            assert(p@.take(k as int + 1) =~= p@.take(k as int).push(p@[k as int]));
        }
        k = k + 1;
    }
    proof {
        assert(p@.take(p@.len() as int) =~= p@);
    }
}

/// Append `...`.
fn push_ellipsis(v: &mut Vec<char>)
    ensures
        final(v)@ == old(v)@ + seq!['.', '.', '.'],
{
    v.push('.');
    v.push('.');
    v.push('.');
    proof {
        assert(final(v)@ =~= old(v)@ + seq!['.', '.', '.']);
    }
}

/// The piece of a message.
fn piece_chars(content: &String, max: usize) -> (r: Vec<char>)
    ensures
        r@ == piece(content@, max as nat),
{
    let chars = chars_of(content.as_str());
    if byte_len(content.as_str()) > max {
        let head = leading_chars(&chars, max);
        let mut cut = cut_chars_at_last_space(&head);
        push_ellipsis(&mut cut);
        cut
    } else {
        chars
    }
}

/// The summary of the turns at `lo..hi`, and whether clipping it to `max`
/// bytes cuts at a character boundary; the summary is meaningful only then.
pub fn summary_of(turns: &Vec<ChatTurn>, lo: usize, hi: usize, max: usize) -> (r: (String, bool))
    requires
        lo <= hi <= turns@.len(),
    ensures
        r.1 == summary_fits(turns@.subrange(lo as int, hi as int), max as nat),
        r.1 ==> r.0@ == summary_text(turns@.subrange(lo as int, hi as int), max as nat),
{
    let ghost part = turns@.subrange(lo as int, hi as int);
    let end: usize = if hi - lo <= 3 { hi } else { lo + 3 };
    let mut acc: Vec<char> = Vec::new();
    let mut i: usize = lo;
    proof {
        assert(turns@.subrange(lo as int, lo as int) =~= Seq::<ChatTurn>::empty());
    }
    while i < end
        invariant
            lo <= i <= end <= hi <= turns@.len(),
            acc@ == pieces(turns@.subrange(lo as int, i as int), max as nat),
        decreases end - i,
    {
        if turns[i].messages.len() > 0 {
            let p = piece_chars(&turns[i].messages[0].content, max);
            append_chars(&mut acc, &p);
            acc.push(' ');
        }
        proof {
            let s = turns@.subrange(lo as int, i + 1);
            assert(s.drop_last() =~= turns@.subrange(lo as int, i as int));
            assert(s.last() == turns@[i as int]);
            if turns@[i as int].messages@.len() > 0 {
                assert(acc@ =~= pieces(s.drop_last(), max as nat) + turn_piece(s.last(), max as nat));
            } else {
                assert(acc@ =~= pieces(s.drop_last(), max as nat) + turn_piece(s.last(), max as nat));
            }
        }
        i = i + 1;
    }
    proof {
        assert(leading(part, 3) =~= turns@.subrange(lo as int, end as int));
    }
    let raw = string_from_chars(&acc);
    let clipped = if byte_len(raw.as_str()) > max {
        let (k, used) = prefix_within_bytes(&acc, max);
        if used != max {
            return (raw, false);
        }
        let mut head = acc;
        head.truncate(k);
        let mut cut = cut_chars_at_last_space(&head);
        push_ellipsis(&mut cut);
        cut
    } else {
        acc
    };
    let trimmed = trim_chars(&clipped);
    (string_from_chars(&trimmed), true)
}

/// The lowercase text mentions one of the key-point keywords.
pub open spec fn mentions_keyword(low: Seq<char>) -> bool {
    ||| text_contains(low, "implemented"@)
    ||| text_contains(low, "fixed"@)
    ||| text_contains(low, "added"@)
    ||| text_contains(low, "created"@)
    ||| text_contains(low, "decided"@)
    ||| text_contains(low, "error"@)
    ||| text_contains(low, "issue"@)
}

/// The key point a message gives: its first 100 characters, trimmed.
pub open spec fn point_of(content: Seq<char>) -> Seq<char> {
    trim_text(leading(content, 100))
}

/// One message's effect on the key points: its point is added when its
/// lowercase text mentions a keyword, fewer than `max` points are held, and
/// the point is neither empty nor held already.
pub open spec fn key_point_step(acc: Seq<Seq<char>>, m: ChatMessage, max: nat) -> Seq<Seq<char>> {
    let p = point_of(m.content@);
    if mentions_keyword(lowercase(m.content@)) && acc.len() < max && p.len() > 0 && !acc.contains(p) {
        acc.push(p)
    } else {
        acc
    }
}

/// The key points after the messages, in order, starting from `acc`.
pub open spec fn points_in_messages(acc: Seq<Seq<char>>, msgs: Seq<ChatMessage>, max: nat) -> Seq<
    Seq<char>,
>
    decreases msgs.len(),
{
    if msgs.len() == 0 {
        acc
    } else {
        key_point_step(points_in_messages(acc, msgs.drop_last(), max), msgs.last(), max)
    }
}

/// The key points after the messages of the turns, in order.
pub open spec fn points_in_turns(turns: Seq<ChatTurn>, max: nat) -> Seq<Seq<char>>
    decreases turns.len(),
{
    if turns.len() == 0 {
        Seq::empty()
    } else {
        points_in_messages(points_in_turns(turns.drop_last(), max), turns.last().messages@, max)
    }
}

/// The key points of a run: those of the messages of its first `2 * max`
/// turns.
pub open spec fn key_points_of(turns: Seq<ChatTurn>, max: nat) -> Seq<Seq<char>> {
    points_in_turns(leading(turns, 2 * max), max)
}

/// Whether the lowercase text mentions a key-point keyword.
fn mentions_keyword_in(low: &Vec<char>) -> (b: bool)
    ensures
        b == mentions_keyword(low@),
{
    contains_chars(low, &chars_of("implemented")) || contains_chars(low, &chars_of("fixed"))
        || contains_chars(low, &chars_of("added")) || contains_chars(low, &chars_of("created"))
        || contains_chars(low, &chars_of("decided")) || contains_chars(low, &chars_of("error"))
        || contains_chars(low, &chars_of("issue"))
}

/// A list of strings holds a text exactly when their contents do.
proof fn lemma_has_string_views(v: Seq<String>, s: Seq<char>)
    ensures
        has_string(v, s) == views(v).contains(s),
{
    if has_string(v, s) {
        let i = choose|i: int| 0 <= i < v.len() && #[trigger] v[i]@ == s;
        assert(views(v)[i] == s);
    }
    if views(v).contains(s) {
        let i = choose|i: int| 0 <= i < views(v).len() && views(v)[i] == s;
        assert(v[i]@ == s);
    }
}

/// The key points of the turns at `lo..hi`.
pub fn key_points_of_turns(turns: &Vec<ChatTurn>, lo: usize, hi: usize, max: usize) -> (r: Vec<String>)
    requires
        lo <= hi <= turns@.len(),
        max <= usize::MAX / 2,
    ensures
        views(r@) == key_points_of(turns@.subrange(lo as int, hi as int), max as nat),
{
    let ghost part = turns@.subrange(lo as int, hi as int);
    let limit = max * 2;
    let end: usize = if hi - lo <= limit { hi } else { lo + limit };
    let mut points: Vec<String> = Vec::new();
    let mut i: usize = lo;
    proof {
        assert(turns@.subrange(lo as int, lo as int) =~= Seq::<ChatTurn>::empty());
        assert(views(points@) =~= Seq::<Seq<char>>::empty());
    }
    while i < end
        invariant
            lo <= i <= end <= hi <= turns@.len(),
            views(points@) == points_in_turns(turns@.subrange(lo as int, i as int), max as nat),
        decreases end - i,
    {
        let msgs = &turns[i].messages;
        let ghost before = views(points@);
        let mut j: usize = 0;
        proof {
            assert(msgs@.take(0) =~= Seq::<ChatMessage>::empty());
        }
        while j < msgs.len()
            invariant
                j <= msgs@.len(),
                views(points@) == points_in_messages(before, msgs@.take(j as int), max as nat),
            decreases msgs.len() - j,
        {
            let ghost acc = views(points@);
            let content = &msgs[j].content;
            let low = to_lowercase(content);
            let hay = chars_of(low.as_str());
            if mentions_keyword_in(&hay) && points.len() < max {
                let chars = chars_of(content.as_str());
                let head = leading_chars(&chars, 100);
                let trimmed = trim_chars(&head);
                if trimmed.len() > 0 {
                    let p = string_from_chars(&trimmed);
                    let held = contains_string(&points, &p);
                    proof {
                        lemma_has_string_views(points@, p@);
                    }
                    if !held {
                        points.push(p);
                        proof {
                            assert(views(points@) =~= acc.push(p@));
                        }
                    }
                }
            }
            proof {
                assert(msgs@.take(j as int + 1).drop_last() =~= msgs@.take(j as int));
                assert(msgs@.take(j as int + 1).last() == msgs@[j as int]);
            }
            j = j + 1;
        }
        proof {
            assert(msgs@.take(msgs@.len() as int) =~= msgs@);
            let s = turns@.subrange(lo as int, i + 1);
            assert(s.drop_last() =~= turns@.subrange(lo as int, i as int));
            assert(s.last() == turns@[i as int]);
        }
        i = i + 1;
    }
    proof {
        assert(leading(part, 2 * max as nat) =~= turns@.subrange(lo as int, end as int));
    }
    points
}

/// The message reads as a conclusion: its encoding takes more than 20 and
/// fewer than 200 bytes, and its lowercase text mentions success,
/// completion, being finished or done.
pub open spec fn concludes(m: ChatMessage) -> bool {
    let low = lowercase(m.content@);
    &&& 20 < utf8_len(m.content@) < 200
    &&& (text_contains(low, "success"@) || text_contains(low, "complete"@) || text_contains(
        low,
        "finished"@,
    ) || text_contains(low, "done"@))
}

/// The last concluding message's text, if any.
pub open spec fn outcome_in_messages(msgs: Seq<ChatMessage>) -> Option<Seq<char>>
    decreases msgs.len(),
{
    if msgs.len() == 0 {
        None
    } else if concludes(msgs.last()) {
        Some(msgs.last().content@)
    } else {
        outcome_in_messages(msgs.drop_last())
    }
}

/// The outcome of a run: the text of its last concluding message, searching
/// the turns from the last one back.
pub open spec fn outcome_of(turns: Seq<ChatTurn>) -> Option<Seq<char>>
    decreases turns.len(),
{
    if turns.len() == 0 {
        None
    } else {
        match outcome_in_messages(turns.last().messages@) {
            Some(c) => Some(c),
            None => outcome_of(turns.drop_last()),
        }
    }
}

/// The contents of an optional string.
pub open spec fn opt_view(o: Option<String>) -> Option<Seq<char>> {
    match o {
        Some(s) => Some(s@),
        None => None,
    }
}

/// Whether a message reads as a conclusion.
fn concludes_message(m: &ChatMessage) -> (b: bool)
    ensures
        b == concludes(*m),
{
    let n = byte_len(m.content.as_str());
    if n > 20 && n < 200 {
        let low = to_lowercase(&m.content);
        let hay = chars_of(low.as_str());
        contains_chars(&hay, &chars_of("success")) || contains_chars(&hay, &chars_of("complete"))
            || contains_chars(&hay, &chars_of("finished")) || contains_chars(&hay, &chars_of("done"))
    } else {
        false
    }
}

/// The outcome of the turns at `lo..hi`.
pub fn outcome_of_turns(turns: &Vec<ChatTurn>, lo: usize, hi: usize) -> (r: Option<String>)
    requires
        lo <= hi <= turns@.len(),
    ensures
        opt_view(r) == outcome_of(turns@.subrange(lo as int, hi as int)),
{
    let mut i: usize = hi;
    while i > lo
        invariant
            lo <= i <= hi <= turns@.len(),
            outcome_of(turns@.subrange(lo as int, hi as int)) == outcome_of(
                turns@.subrange(lo as int, i as int),
            ),
        decreases i - lo,
    {
        let msgs = &turns[i - 1].messages;
        let ghost s = turns@.subrange(lo as int, i as int);
        proof {
            assert(s.drop_last() =~= turns@.subrange(lo as int, i - 1));
            assert(s.last() == turns@[i - 1]);
            assert(msgs@.take(msgs@.len() as int) =~= msgs@);
        }
        let mut j: usize = msgs.len();
        while j > 0
            invariant
                lo < i <= hi <= turns@.len(),
                s == turns@.subrange(lo as int, i as int),
                s.len() > 0,
                s.last().messages@ == msgs@,
                outcome_of(turns@.subrange(lo as int, hi as int)) == outcome_of(s),
                j <= msgs@.len(),
                outcome_in_messages(msgs@) == outcome_in_messages(msgs@.take(j as int)),
            decreases j,
        {
            proof {
                assert(msgs@.take(j as int).drop_last() =~= msgs@.take(j - 1));
                assert(msgs@.take(j as int).last() == msgs@[j - 1]);
            }
            if concludes_message(&msgs[j - 1]) {
                return Some(msgs[j - 1].content.clone());
            }
            j = j - 1;
        }
        proof {
            assert(msgs@.take(0) =~= Seq::<ChatMessage>::empty());
        }
        i = i - 1;
    }
    proof {
        assert(turns@.subrange(lo as int, lo as int) =~= Seq::<ChatTurn>::empty());
    }
    None
}

/// A summary takes at most twelve bytes more than its limit.
pub proof fn lemma_summary_bytes(turns: Seq<ChatTurn>, max: nat)
    ensures
        utf8_len(summary_text(turns, max)) <= max + 12,
{
    let raw = raw_summary(turns, max);
    let dots = seq!['.', '.', '.'];
    if utf8_len(raw) > max {
        let head = take_bytes(raw, max as int);
        lemma_take_bytes_prefix(raw, max as int);
        let cut = cut_at_last_space(head);
        lemma_last_space_range(head);
        if last_space(head) >= 0 {
            lemma_utf8_len_subrange(head, 0, last_space(head));
            assert(head.subrange(0, last_space(head)) =~= head.take(last_space(head)));
        }
        lemma_encode_concat(cut, dots);
        lemma_utf8_len_bound(dots);
        lemma_trim_part(cut + dots);
    } else {
        lemma_trim_part(raw);
    }
}

/// Key points are at most `max` texts of at most 100 characters.
pub open spec fn points_shaped(v: Seq<Seq<char>>, max: nat) -> bool {
    v.len() <= max && forall|i: int| 0 <= i < v.len() ==> (#[trigger] v[i]).len() <= 100
}

proof fn lemma_points_in_messages_shaped(acc: Seq<Seq<char>>, msgs: Seq<ChatMessage>, max: nat)
    requires
        points_shaped(acc, max),
    ensures
        points_shaped(points_in_messages(acc, msgs, max), max),
    decreases msgs.len(),
{
    if msgs.len() > 0 {
        let before = points_in_messages(acc, msgs.drop_last(), max);
        lemma_points_in_messages_shaped(acc, msgs.drop_last(), max);
        let c = msgs.last().content@;
        lemma_trim_part(leading(c, 100));
        let after = key_point_step(before, msgs.last(), max);
        assert forall|i: int| 0 <= i < after.len() implies (#[trigger] after[i]).len() <= 100 by {
            if i < before.len() {
                assert(after[i] == before[i]);
            }
        }
    }
}

/// The key points of a run are at most `max` texts of at most 100
/// characters.
pub proof fn lemma_key_points_shaped(turns: Seq<ChatTurn>, max: nat)
    ensures
        points_shaped(key_points_of(turns, max), max),
{
    lemma_points_in_turns_shaped(leading(turns, 2 * max), max);
}

proof fn lemma_points_in_turns_shaped(turns: Seq<ChatTurn>, max: nat)
    ensures
        points_shaped(points_in_turns(turns, max), max),
    decreases turns.len(),
{
    if turns.len() > 0 {
        lemma_points_in_turns_shaped(turns.drop_last(), max);
        lemma_points_in_messages_shaped(points_in_turns(turns.drop_last(), max), turns.last().messages@, max);
    }
}

/// Token estimates of short texts: at most 100 per text.
pub proof fn lemma_points_tokens_bound(v: Seq<String>)
    requires
        forall|i: int| 0 <= i < v.len() ==> (#[trigger] v[i])@.len() <= 100,
    ensures
        points_tokens(v) <= 100 * v.len(),
    decreases v.len(),
{
    if v.len() > 0 {
        assert forall|i: int| 0 <= i < v.drop_last().len() implies (#[trigger] v.drop_last()[i])@.len() <= 100 by {
            assert(v.drop_last()[i] == v[i]);
        }
        lemma_points_tokens_bound(v.drop_last());
        lemma_utf8_len_bound(v.last()@);
        assert(byte_len_u32(v.last()@) == utf8_len(v.last()@));
    }
}

/// An outcome takes fewer than 200 bytes.
pub proof fn lemma_outcome_bytes(turns: Seq<ChatTurn>)
    ensures
        outcome_of(turns) matches Some(c) ==> utf8_len(c) < 200,
    decreases turns.len(),
{
    if turns.len() > 0 {
        lemma_outcome_in_messages_bytes(turns.last().messages@);
        lemma_outcome_bytes(turns.drop_last());
    }
}

proof fn lemma_outcome_in_messages_bytes(msgs: Seq<ChatMessage>)
    ensures
        outcome_in_messages(msgs) matches Some(c) ==> utf8_len(c) < 200,
    decreases msgs.len(),
{
    if msgs.len() > 0 {
        lemma_outcome_in_messages_bytes(msgs.drop_last());
    }
}

} // verus!
