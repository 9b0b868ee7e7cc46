//! Where a reply ends: models that were never taught to stop go on to write the
//! next turns of the conversation themselves.

use crate::cut::{byte_len, is_cut};
use crate::text::{chars_of, occurs_at, stands_at, text_of, trim_end, trimmed_end};
use vstd::prelude::*;
use vstd::utf8::*;

verus! {

/// How many texts mark the start of another turn.
pub const STOP_COUNT: usize = 10;

/// How many bytes of a reply are held back, so that a text that marks the start
/// of another turn is seen before any of it is shown.
pub const CHAT_STOP_LOOKAHEAD_BYTES: usize = 24;

/// The texts that mark the start of another turn.
pub open spec fn stop_text(i: int) -> Seq<char> {
    if i == 0 {
        "BITNETAssistant:"@
    } else if i == 1 {
        "User:"@
    } else if i == 2 {
        "Human:"@
    } else if i == 3 {
        "AI Assistant:"@
    } else if i == 4 {
        "AI:"@
    } else if i == 5 {
        "Assistant:"@
    } else if i == 6 {
        "Question:"@
    } else if i == 7 {
        "Human ("@
    } else if i == 8 {
        "User ("@
    } else {
        "AI ("@
    }
}

/// One of the texts that mark the start of another turn.
fn stop_sequence(i: usize) -> (r: &'static str)
    ensures
        r@ == stop_text(i as int),
{
    if i == 0 {
        "BITNETAssistant:"
    } else if i == 1 {
        "User:"
    } else if i == 2 {
        "Human:"
    } else if i == 3 {
        "AI Assistant:"
    } else if i == 4 {
        "AI:"
    } else if i == 5 {
        "Assistant:"
    } else if i == 6 {
        "Question:"
    } else if i == 7 {
        "Human ("
    } else if i == 8 {
        "User ("
    } else {
        "AI ("
    }
}

/// Another turn starts at a character.
pub open spec fn stop_begins(s: Seq<char>, at: int) -> bool {
    exists|i: int| 0 <= i < STOP_COUNT && #[trigger] occurs_at(s, stop_text(i), at)
}

/// The first character at or behind `from` where another turn starts.
pub open spec fn earliest_stop(s: Seq<char>, from: int) -> Option<int>
    decreases s.len() - from,
{
    if from < 0 || from >= s.len() {
        None
    } else if stop_begins(s, from) {
        Some(from)
    } else {
        earliest_stop(s, from + 1)
    }
}

/// A reply without the turns that the model made up, and without the white
/// space in front of them.
pub open spec fn before_stop(s: Seq<char>) -> Seq<char> {
    match earliest_stop(s, 0) {
        Some(k) => trimmed_end(s.take(k)),
        None => s,
    }
}

/// The marks are short and plain: at most sixteen characters of one byte each.
pub proof fn stop_texts_are_short(i: int)
    ensures
        3 <= stop_text(i).len() <= 16,
        is_ascii_chars(stop_text(i)),
{
    reveal_strlit("BITNETAssistant:");
    reveal_strlit("User:");
    reveal_strlit("Human:");
    reveal_strlit("AI Assistant:");
    reveal_strlit("AI:");
    reveal_strlit("Assistant:");
    reveal_strlit("Question:");
    reveal_strlit("Human (");
    reveal_strlit("User (");
    reveal_strlit("AI (");
}

/// What the search for the first mark finds: a mark, and none in front of it.
pub proof fn earliest_stop_is_first(s: Seq<char>, from: int)
    requires
        0 <= from,
    ensures
        match earliest_stop(s, from) {
            Some(k) => {
                &&& from <= k < s.len()
                &&& stop_begins(s, k)
                &&& forall|at: int| from <= at < k ==> !#[trigger] stop_begins(s, at)
            },
            None => forall|at: int| from <= at ==> !#[trigger] stop_begins(s, at),
        },
    decreases s.len() - from,
{
    if from < s.len() {
        if !stop_begins(s, from) {
            earliest_stop_is_first(s, from + 1);
        }
    } else {
        assert forall|at: int| from <= at implies !#[trigger] stop_begins(s, at) by {
            if stop_begins(s, at) {
                let i = choose|i: int| 0 <= i < STOP_COUNT && #[trigger] occurs_at(
                    s,
                    stop_text(i),
                    at,
                );
                stop_texts_are_short(i);
            }
        }
    }
}

/// A text is one of those by which a model starts a turn of somebody: of a person, of
/// itself under one of its names, or of a question.
pub open spec fn starts_a_turn(m: Seq<char>) -> bool {
    ||| m == "BITNETAssistant:"@
    ||| m == "User:"@
    ||| m == "Human:"@
    ||| m == "AI Assistant:"@
    ||| m == "AI:"@
    ||| m == "Assistant:"@
    ||| m == "Question:"@
    ||| m == "Human ("@
    ||| m == "User ("@
    ||| m == "AI ("@
}

/// Another turn starts at a character exactly where one of the texts that start a turn
/// stands there, and no text counts twice.
pub proof fn turns_start_with_known_texts(s: Seq<char>, at: int, i: int, j: int)
    requires
        0 <= i < j < STOP_COUNT,
    ensures
        stop_begins(s, at) <==> exists|m: Seq<char>|
            starts_a_turn(m) && #[trigger] occurs_at(s, m, at),
        starts_a_turn(stop_text(i)),
        starts_a_turn(stop_text(j)),
        stop_text(i) != stop_text(j),
{
    reveal_strlit("BITNETAssistant:");
    reveal_strlit("User:");
    reveal_strlit("Human:");
    reveal_strlit("AI Assistant:");
    reveal_strlit("AI:");
    reveal_strlit("Assistant:");
    reveal_strlit("Question:");
    reveal_strlit("Human (");
    reveal_strlit("User (");
    reveal_strlit("AI (");
    if stop_begins(s, at) {
        let k = choose|k: int| 0 <= k < STOP_COUNT && #[trigger] occurs_at(s, stop_text(k), at);
        assert(starts_a_turn(stop_text(k)));
    }
    if exists|m: Seq<char>| starts_a_turn(m) && #[trigger] occurs_at(s, m, at) {
        let m = choose|m: Seq<char>| starts_a_turn(m) && #[trigger] occurs_at(s, m, at);
        lemma_turn_has_a_number(m);
    }
    lemma_marks_differ(i, j);
}

/// Each text that starts a turn has a number.
proof fn lemma_turn_has_a_number(m: Seq<char>)
    requires
        starts_a_turn(m),
    ensures
        exists|k: int| 0 <= k < STOP_COUNT && #[trigger] stop_text(k) == m,
{
    assert(stop_text(0) == "BITNETAssistant:"@);
    assert(stop_text(1) == "User:"@);
    assert(stop_text(2) == "Human:"@);
    assert(stop_text(3) == "AI Assistant:"@);
    assert(stop_text(4) == "AI:"@);
    assert(stop_text(5) == "Assistant:"@);
    assert(stop_text(6) == "Question:"@);
    assert(stop_text(7) == "Human ("@);
    assert(stop_text(8) == "User ("@);
    assert(stop_text(9) == "AI ("@);
}

/// No two marks are the same.
proof fn lemma_marks_differ(i: int, j: int)
    requires
        0 <= i < j < STOP_COUNT,
    ensures
        stop_text(i) != stop_text(j),
{
    reveal_strlit("BITNETAssistant:");
    reveal_strlit("User:");
    reveal_strlit("Human:");
    reveal_strlit("AI Assistant:");
    reveal_strlit("AI:");
    reveal_strlit("Assistant:");
    reveal_strlit("Question:");
    reveal_strlit("Human (");
    reveal_strlit("User (");
    reveal_strlit("AI (");
    let a = stop_text(i);
    let b = stop_text(j);
    assert(a.len() != b.len() || a[0] != b[0] || a[1] != b[1] || a[a.len() - 1] != b[b.len() - 1]);
}

/// A text that starts a turn is seen wherever it stands: what is cut off begins no later
/// than there, and a reply that begins with it is cut off whole.
pub proof fn turns_are_cut_off(before: Seq<char>, m: Seq<char>, text: Seq<char>)
    requires
        starts_a_turn(m),
    ensures
        earliest_stop(before + m + text, 0) matches Some(k) && 0 <= k <= before.len(),
        earliest_stop(m + text, 0) == Some(0int),
        before_stop(m + text) == Seq::<char>::empty(),
{
    let s = before + m + text;
    lemma_turn_has_a_number(m);
    let k = choose|k: int| 0 <= k < STOP_COUNT && #[trigger] stop_text(k) == m;
    stop_texts_are_short(k);
    assert(s.subrange(before.len() as int, (before.len() + m.len()) as int) =~= m);
    assert(occurs_at(s, stop_text(k), before.len() as int));
    assert(stop_begins(s, before.len() as int));
    earliest_stop_is_first(s, 0);
    let t = m + text;
    assert(t.subrange(0, m.len() as int) =~= m);
    assert(occurs_at(t, stop_text(k), 0));
    assert(stop_begins(t, 0));
    assert(t.take(0) =~= Seq::<char>::empty());
}

/// Whether another turn starts at a character.
fn begins_stop(chars: &[char], at: usize) -> (b: bool)
    ensures
        b == stop_begins(chars@, at as int),
{
    let mut i: usize = 0;
    while i < STOP_COUNT
        invariant
            i <= STOP_COUNT,
            forall|k: int| 0 <= k < i ==> !#[trigger] occurs_at(chars@, stop_text(k), at as int),
        decreases STOP_COUNT - i,
    {
        let stop = chars_of(stop_sequence(i));
        if stands_at(chars, &stop, at) {
            proof {
                assert(occurs_at(chars@, stop_text(i as int), at as int));
            }
            return true;
        }
        i = i + 1;
    }
    false
}

/// The first character where another turn starts.
fn earliest(chars: &[char]) -> (r: Option<usize>)
    ensures
        match r {
            Some(k) => earliest_stop(chars@, 0) == Some(k as int) && k < chars@.len(),
            None => earliest_stop(chars@, 0) is None,
        },
{
    let mut i: usize = 0;
    while i < chars.len()
        invariant
            i <= chars@.len(),
            earliest_stop(chars@, i as int) == earliest_stop(chars@, 0),
        decreases chars.len() - i,
    {
        if begins_stop(chars, i) {
            return Some(i);
        }
        i = i + 1;
    }
    None
}

/// The byte at which the first mark of another turn starts.
pub fn find_chat_stop_sequence(text: &str) -> (r: Option<usize>)
    ensures
        match earliest_stop(text@, 0) {
            Some(k) => r == Some(encode_utf8(text@.take(k)).len() as usize) && r->0
                == encode_utf8(text@.take(k)).len(),
            None => r is None,
        },
{
    let chars = chars_of(text);
    match earliest(&chars) {
        Some(k) => {
            let clean = text.substring_char(0, k);
            proof {
                assert(clean@ =~= text@.take(k as int));
            }
            Some(byte_len(clean))
        },
        None => None,
    }
}

/// Cuts a reply off at the first mark of another turn. Says whether there was
/// one.
pub fn truncate_at_chat_stop_sequence(response_text: &mut String) -> (found: bool)
    ensures
        found == (earliest_stop(old(response_text)@, 0) is Some),
        final(response_text)@ == before_stop(old(response_text)@),
{
    let chars = chars_of(response_text.as_str());
    match earliest(&chars) {
        Some(k) => {
            let clean = trim_end(response_text.as_str().substring_char(0, k));
            proof {
                assert(response_text@.subrange(0, k as int) =~= response_text@.take(k as int));
            }
            *response_text = clean;
            true
        },
        None => false,
    }
}

/// Pictographs, the joiners and selectors that go with them, and the halves of
/// flags.
pub open spec fn is_emoji(c: char) -> bool {
    let v = c as u32;
    ||| 0x1F300 <= v <= 0x1F9FF
    ||| 0x1FA00 <= v <= 0x1FAFF
    ||| 0x1F1E6 <= v <= 0x1F1FF
    ||| 0x2600 <= v <= 0x27BF
    ||| v == 0x200D
    ||| 0xFE00 <= v <= 0xFE0F
}

/// Whether a character is a pictograph.
pub fn is_emoji_char(c: char) -> (b: bool)
    ensures
        b == is_emoji(c),
{
    let v: u32 = c as u32;
    (0x1F300 <= v && v <= 0x1F9FF) || (0x1FA00 <= v && v <= 0x1FAFF) || (0x1F1E6 <= v && v
        <= 0x1F1FF) || (0x2600 <= v && v <= 0x27BF) || v == 0x200D || (0xFE00 <= v && v <= 0xFE0F)
}

/// Pictographs stand in a few ranges: the symbols and dingbats, the emoji of the
/// supplementary plane up to the flags, and the selectors and the joiner that go with
/// them. Letters, figures, punctuation and the scripts between them are none.
pub proof fn pictographs_stand_apart(c: char)
    ensures
        c < '\u{200d}' ==> !is_emoji(c),
        c == '\u{200d}' ==> is_emoji(c),
        '\u{200d}' < c && c < '☀' ==> !is_emoji(c),
        '☀' <= c && c < '\u{27c0}' ==> is_emoji(c),
        '\u{27c0}' <= c && c < '\u{fe00}' ==> !is_emoji(c),
        '\u{fe00}' <= c && c < '\u{fe10}' ==> is_emoji(c),
        '\u{fe10}' <= c && c < '\u{1f1e6}' ==> !is_emoji(c),
        '\u{1f1e6}' <= c && c < '\u{1f200}' ==> is_emoji(c),
        '\u{1f200}' <= c && c < '\u{1f300}' ==> !is_emoji(c),
        '\u{1f300}' <= c && c < '\u{1fb00}' ==> is_emoji(c),
        '\u{1fb00}' <= c ==> !is_emoji(c),
{
}

/// A text without its pictographs.
pub open spec fn stripped(s: Seq<char>) -> Seq<char>
    decreases s.len(),
{
    if s.len() == 0 {
        Seq::empty()
    } else if is_emoji(s.last()) {
        stripped(s.drop_last())
    } else {
        stripped(s.drop_last()).push(s.last())
    }
}

/// Stripping works part by part.
pub proof fn stripping_works_by_parts(a: Seq<char>, b: Seq<char>)
    ensures
        stripped(a + b) == stripped(a) + stripped(b),
    decreases b.len(),
{
    if b.len() == 0 {
        assert(a + b =~= a);
        assert(stripped(a) + stripped(b) =~= stripped(a));
    } else {
        stripping_works_by_parts(a, b.drop_last());
        assert((a + b).drop_last() =~= a + b.drop_last());
        assert((a + b).last() == b.last());
        assert(stripped(a + b) =~= stripped(a) + stripped(b));
    }
}

/// What is left has no pictographs, and stripping it again changes nothing.
pub proof fn stripped_text_is_clean(s: Seq<char>)
    ensures
        forall|i: int| 0 <= i < stripped(s).len() ==> !is_emoji(#[trigger] stripped(s)[i]),
        stripped(stripped(s)) == stripped(s),
    decreases s.len(),
{
    if s.len() > 0 {
        stripped_text_is_clean(s.drop_last());
        let t = stripped(s.drop_last());
        if !is_emoji(s.last()) {
            assert(t.push(s.last()).drop_last() =~= t);
        }
    }
}

/// Stripping keeps the other characters, each as often as it stands in the text.
pub proof fn stripping_keeps_the_others(s: Seq<char>, c: char)
    ensures
        !is_emoji(c) ==> stripped(s).to_multiset().count(c) == s.to_multiset().count(c),
        stripped(seq![c]) == if is_emoji(c) {
            Seq::<char>::empty()
        } else {
            seq![c]
        },
    decreases s.len(),
{
    broadcast use vstd::seq_lib::group_to_multiset_ensures;

    assert(seq![c].drop_last() =~= Seq::<char>::empty());
    assert(stripped(Seq::<char>::empty()) =~= Seq::<char>::empty());
    assert(seq![c].last() == c);
    assert(stripped(seq![c]) =~= if is_emoji(c) {
        Seq::<char>::empty()
    } else {
        seq![c]
    });
    if s.len() > 0 {
        stripping_keeps_the_others(s.drop_last(), c);
        assert(s =~= s.drop_last().push(s.last()));
    } else {
        assert(stripped(s) =~= s);
    }
}

/// A text without its pictographs.
pub fn strip_emoji_chars(text: &str) -> (r: String)
    ensures
        r@ == stripped(text@),
{
    let chars = chars_of(text);
    let mut kept: Vec<char> = Vec::new();
    let mut i: usize = 0;
    proof {
        assert(text@.take(0) =~= Seq::empty());
        assert(kept@ =~= stripped(text@.take(0)));
    }
    while i < chars.len()
        invariant
            i <= chars@.len(),
            chars@ == text@,
            kept@ == stripped(text@.take(i as int)),
        decreases chars.len() - i,
    {
        proof {
            assert(text@.take(i + 1).drop_last() =~= text@.take(i as int));
        }
        if !is_emoji_char(chars[i]) {
            kept.push(chars[i]);
        }
        i = i + 1;
    }
    proof {
        assert(text@.take(i as int) =~= text@);
    }
    text_of(&kept)
}

/// The last byte offset at or in front of `at` where a text can be cut.
pub open spec fn floor_cut(s: Seq<char>, at: int) -> int
    decreases at,
{
    if at >= encode_utf8(s).len() {
        encode_utf8(s).len() as int
    } else if at <= 0 || is_cut(s, at) {
        at
    } else {
        floor_cut(s, at - 1)
    }
}

/// It is such an offset, and there is none between it and `at`.
pub proof fn floor_cut_is_last(s: Seq<char>, at: int)
    requires
        0 <= at,
    ensures
        is_cut(s, floor_cut(s, at)),
        0 <= floor_cut(s, at) <= encode_utf8(s).len(),
        at <= encode_utf8(s).len() ==> floor_cut(s, at) <= at,
        forall|b: int|
            floor_cut(s, at) < b <= at && b <= encode_utf8(s).len() ==> !#[trigger] is_cut(s, b),
    decreases at,
{
    encode_utf8_valid_utf8(s);
    is_char_boundary_start_end_of_seq(encode_utf8(s));
    if at < encode_utf8(s).len() && at > 0 && !is_cut(s, at) {
        floor_cut_is_last(s, at - 1);
    }
}

/// The last byte offset at or in front of `idx` where a text can be cut.
pub fn floor_char_boundary(s: &str, idx: usize) -> (r: usize)
    ensures
        r == floor_cut(s@, idx as int),
{
    let n = byte_len(s);
    if idx >= n {
        return n;
    }
    let mut i: usize = idx;
    while i > 0 && !s.is_char_boundary(i)
        invariant
            i <= idx < n,
            n == encode_utf8(s@).len(),
            floor_cut(s@, i as int) == floor_cut(s@, idx as int),
        decreases i,
    {
        i = i - 1;
    }
    i
}

} // verus!
