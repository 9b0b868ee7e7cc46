//! What becomes of a reply in which the model starts another turn, or that breaks off.

use crate::chat::reply::ReplyState;
use crate::chat::span::{badge, heading, plain, strong, tinted, Tint};
use crate::chat::stops::{before_stop, earliest_stop};
use crate::text::{is_white, trimmed_end};
use crate::text_laws::{all_white, trimming_the_end_takes_white_space};
use vstd::prelude::*;

verus! {

/// Of a reply with another turn in it the words in front of that turn are left, without the
/// white space between them; a reply without one stays as it is.
pub proof fn words_in_front_of_a_turn_are_left(words: Seq<char>, space: Seq<char>, rest: Seq<char>)
    requires
        words.len() == 0 || !is_white(words.last()),
        all_white(space),
    ensures
        earliest_stop(words + space + rest, 0) == Some((words.len() + space.len()) as int)
            ==> before_stop(words + space + rest) == words,
        earliest_stop(words, 0) is None ==> before_stop(words) == words,
{
    let s = words + space + rest;
    let t = words + space;
    let k = t.len() as int;
    assert(s.take(k) =~= t);
    trimming_the_end_takes_white_space(t);
    let e = trimmed_end(t);
    let n = e.len() as int;
    assert(e =~= t.take(n));
    if n > words.len() {
        assert(e.last() == t[n - 1]);
        assert(t[n - 1] == space[n - 1 - words.len()]);
        assert(is_white(e.last()));
    } else if n < words.len() {
        assert(t.skip(n)[words.len() - 1 - n] == words.last());
    }
    assert(t.take(words.len() as int) =~= words);
}

/// A token that starts another turn ends the reply and shows nothing more of it; a token that
/// does not goes on with it.
pub proof fn stopped_replies_show_no_more(s: ReplyState, more: Seq<u8>)
    ensures
        s.fed(more).bytes == s.bytes + more,
        s.fed(more).stopped <==> earliest_stop(s.grown(more), 0) is Some,
        s.fed(more).stopped ==> s.fed(more).shown == s.shown,
        s.fed(more).stopped && 0 <= s.shown <= s.fed(more).text.len() ==> s.chunk(more).len() == 0,
        !s.fed(more).stopped ==> s.fed(more).text == s.grown(more) && s.fed(more).shown >= s.shown,
{
}

/// What was shown and what is shown at the end make up the reply. A character that broke off
/// is marked by one that stands for it.
pub proof fn endings_make_up_the_reply(s: ReplyState)
    requires
        0 <= s.shown,
    ensures
        s.shown <= s.text.len() ==> s.text.take(s.shown) + s.rest() == s.text,
        s.shown > s.text.len() ==> s.rest().len() == 0,
        s.decoded == s.bytes.len() ==> s.ending() == s.text,
        s.decoded < s.bytes.len() ==> s.ending().len() == s.text.len() + 1 && s.ending().last()
            == '\u{FFFD}' && s.ending().drop_last() == s.text,
{
    if s.shown <= s.text.len() {
        assert(s.text.take(s.shown) + s.rest() =~= s.text);
    }
    if s.decoded < s.bytes.len() {
        assert(s.ending().drop_last() =~= s.text);
    }
}

/// Headings, badges and strong text are bold and nothing else is; only badges have a ground,
/// on which they are black; and only plain and strong text have the colour of the terminal.
pub proof fn looks_are_told_apart(t: Tint)
    ensures
        heading().bold && badge(t).bold && strong().bold && !plain().bold && !tinted(t).bold,
        badge(t).bg == Some(t) && badge(t).fg == Some(Tint::Black),
        heading().bg is None && strong().bg is None && plain().bg is None && tinted(t).bg is None,
        tinted(t).fg == Some(t) && heading().fg == Some(Tint::Cyan),
        plain().fg is None && strong().fg is None,
{
}

} // verus!
