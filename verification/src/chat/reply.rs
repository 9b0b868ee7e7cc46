//! A reply as it arrives, token by token.
//!
//! The bytes of a token need not end at the end of a character: what does not
//! make up whole characters yet waits for the next token. Pictographs are left
//! out. What is shown stays behind what is known by a fixed number of bytes, so
//! that the start of a turn that the model makes up is seen before it is shown.

use crate::chat::stops::{
    before_stop, earliest_stop, earliest_stop_is_first, floor_char_boundary, floor_cut,
    floor_cut_is_last, stop_begins, stop_text, stop_texts_are_short, strip_emoji_chars, stripped,
    stripping_works_by_parts, truncate_at_chat_stop_sequence, CHAT_STOP_LOOKAHEAD_BYTES,
    STOP_COUNT,
};
use crate::cut::{byte_len, cut, is_cut, left_of, lemma_encode_concat, lemma_parts, right_of};
use crate::gguf::bytes::copy_range;
use crate::text::{occurs_at, owned, utf8_text};
use vstd::prelude::*;
use vstd::utf8::*;

verus! {

/// The token that ends a turn in the LLaMA-3 family.
pub const LLAMA3_EOT_ID: u32 = 128009;

/// The longest beginning of the first `n` bytes that is valid UTF-8.
pub open spec fn longest_valid(bytes: Seq<u8>, n: int) -> int
    decreases n,
{
    if n <= 0 {
        0
    } else if valid_utf8(bytes.take(n)) {
        n
    } else {
        longest_valid(bytes, n - 1)
    }
}

/// Calls `std::str::from_utf8`: how many bytes at the beginning are valid
/// UTF-8, which is all of them or what `Utf8Error::valid_up_to` reports, the
/// greatest length at which the bytes are valid.
#[verifier::external_body]
pub(crate) fn valid_up_to(bytes: &[u8]) -> (n: usize)
    ensures
        n == longest_valid(bytes@, bytes@.len() as int),
{
    match std::str::from_utf8(bytes) {
        Ok(_) => bytes.len(),
        Err(e) => e.valid_up_to(),
    }
}

/// The state of a reply as a mathematical object.
pub struct ReplyState {
    /// The bytes of all tokens so far.
    pub bytes: Seq<u8>,
    /// How many of them make up whole characters.
    pub decoded: int,
    pub text: Seq<char>,
    /// How many characters were shown.
    pub shown: int,
    /// The model has started another turn.
    pub stopped: bool,
}

/// How many characters of a text may be shown: those that end before the bytes
/// that are held back.
pub open spec fn safe_chars(s: Seq<char>) -> int {
    let n = encode_utf8(s).len();
    let limit = if n < CHAT_STOP_LOOKAHEAD_BYTES {
        0
    } else {
        n - CHAT_STOP_LOOKAHEAD_BYTES
    };
    left_of(s, floor_cut(s, limit)).len() as int
}

/// The text of the whole characters in the first `n` bytes.
pub open spec fn text_of_bytes(bytes: Seq<u8>, n: int) -> Seq<char> {
    stripped(decode_utf8(bytes.take(n)))
}

impl ReplyState {
    /// The text holds what the bytes make up and no start of another turn, and
    /// what was shown is followed by at least the bytes that are held back.
    pub open spec fn wf(self) -> bool {
        &&& 0 <= self.decoded <= self.bytes.len()
        &&& valid_utf8(self.bytes.take(self.decoded))
        &&& 0 <= self.shown
        &&& !self.stopped ==> {
            &&& self.text == text_of_bytes(self.bytes, self.decoded)
            &&& earliest_stop(self.text, 0) is None
            &&& self.shown <= self.text.len()
            &&& self.shown > 0 ==> encode_utf8(self.text.skip(self.shown)).len()
                >= CHAT_STOP_LOOKAHEAD_BYTES
        }
    }

    /// All whole characters of the bytes so far and of some more.
    pub open spec fn grown(self, more: Seq<u8>) -> Seq<char> {
        let bytes = self.bytes + more;
        text_of_bytes(bytes, longest_valid(bytes, bytes.len() as int))
    }

    /// The state behind one more token.
    pub open spec fn fed(self, more: Seq<u8>) -> ReplyState {
        let bytes = self.bytes + more;
        let whole = self.grown(more);
        let stopped = earliest_stop(whole, 0) is Some;
        ReplyState {
            bytes,
            decoded: longest_valid(bytes, bytes.len() as int),
            text: before_stop(whole),
            shown: if !stopped && safe_chars(whole) > self.shown {
                safe_chars(whole)
            } else {
                self.shown
            },
            stopped,
        }
    }

    /// What one more token shows.
    pub open spec fn chunk(self, more: Seq<u8>) -> Seq<char> {
        self.fed(more).text.subrange(self.shown, self.fed(more).shown)
    }

    /// What is shown when no more tokens come.
    pub open spec fn rest(self) -> Seq<char> {
        if self.shown < self.text.len() {
            self.text.skip(self.shown)
        } else {
            Seq::empty()
        }
    }

    /// The last token ended inside a character.
    pub open spec fn broken_off(self) -> bool {
        self.decoded < self.bytes.len()
    }

    /// The reply, with a mark where its last character was broken off.
    pub open spec fn ending(self) -> Seq<char> {
        if self.broken_off() {
            self.text.push('\u{FFFD}')
        } else {
            self.text
        }
    }
}

/// The longest valid beginning is valid, and at least as long as any other.
pub proof fn longest_valid_is_longest(bytes: Seq<u8>, n: int)
    requires
        0 <= n <= bytes.len(),
    ensures
        0 <= longest_valid(bytes, n) <= n,
        valid_utf8(bytes.take(longest_valid(bytes, n))),
        forall|k: int|
            0 <= k <= n && valid_utf8(#[trigger] bytes.take(k)) ==> k <= longest_valid(bytes, n),
    decreases n,
{
    if n > 0 && !valid_utf8(bytes.take(n)) {
        longest_valid_is_longest(bytes, n - 1);
    }
}

/// Where a valid text begins with a valid text, the rest is valid and the
/// characters are those of both parts.
pub(crate) proof fn lemma_valid_rest(bytes: Seq<u8>, k: int)
    requires
        0 <= k <= bytes.len(),
        valid_utf8(bytes),
        valid_utf8(bytes.take(k)),
    ensures
        valid_utf8(bytes.skip(k)),
        decode_utf8(bytes) == decode_utf8(bytes.take(k)) + decode_utf8(bytes.skip(k)),
    decreases k,
{
    let head = bytes.take(k);
    if k == 0 {
        assert(bytes.skip(0) =~= bytes);
        assert(decode_utf8(head) =~= Seq::empty());
        assert(decode_utf8(bytes) =~= decode_utf8(head) + decode_utf8(bytes.skip(k)));
    } else {
        let w = length_of_first_scalar(head);
        assert(head[0] == bytes[0]);
        assert(w <= k);
        assert(w >= 1);
        assert(length_of_first_scalar(bytes) == w);
        let tail = pop_first_scalar(bytes);
        assert(pop_first_scalar(head) =~= tail.take(k - w));
        assert(tail.skip(k - w) =~= bytes.skip(k));
        lemma_valid_rest(tail, k - w);
        assert(decode_first_scalar(head) == decode_first_scalar(bytes));
        assert(decode_utf8(bytes) =~= decode_utf8(head) + decode_utf8(bytes.skip(k)));
    }
}

/// More bytes only add to the text.
pub proof fn text_only_grows(s: ReplyState, more: Seq<u8>)
    requires
        s.wf(),
        !s.stopped,
    ensures
        s.decoded <= s.fed(more).decoded,
        valid_utf8(
            (s.bytes + more).take(s.fed(more).decoded).skip(s.decoded),
        ),
        s.grown(more) == s.text + stripped(
            decode_utf8((s.bytes + more).take(s.fed(more).decoded).skip(s.decoded)),
        ),
{
    let bytes = s.bytes + more;
    let n = bytes.len() as int;
    longest_valid_is_longest(bytes, n);
    assert(bytes.take(s.decoded) =~= s.bytes.take(s.decoded));
    let v = longest_valid(bytes, n);
    let good = bytes.take(v);
    assert(good.take(s.decoded) =~= bytes.take(s.decoded));
    lemma_valid_rest(good, s.decoded);
    stripping_works_by_parts(decode_utf8(good.take(s.decoded)), decode_utf8(good.skip(s.decoded)));
}

/// What may be shown is followed by at least the bytes that are held back.
proof fn lemma_safe(s: Seq<char>)
    ensures
        0 <= safe_chars(s) <= s.len(),
        safe_chars(s) > 0 ==> encode_utf8(s.skip(safe_chars(s))).len()
            >= CHAT_STOP_LOOKAHEAD_BYTES,
        is_cut(
            s,
            floor_cut(
                s,
                if encode_utf8(s).len() < CHAT_STOP_LOOKAHEAD_BYTES {
                    0
                } else {
                    encode_utf8(s).len() - CHAT_STOP_LOOKAHEAD_BYTES
                },
            ),
        ),
{
    let n = encode_utf8(s).len();
    let limit = if n < CHAT_STOP_LOOKAHEAD_BYTES {
        0
    } else {
        n - CHAT_STOP_LOOKAHEAD_BYTES
    };
    floor_cut_is_last(s, limit);
    let at = floor_cut(s, limit);
    lemma_parts(s, at);
    let l = left_of(s, at);
    let r = right_of(s, at);
    assert(s.skip(l.len() as int) =~= r);
    lemma_encode_concat(l, r);
    if n < CHAT_STOP_LOOKAHEAD_BYTES {
        assert(at == 0);
        assert(l.len() == 0) by {
            if l.len() > 0 {
                encode_utf8_first_scalar(l);
            }
        }
    }
}

/// A token keeps the state well-formed.
pub proof fn feeding_keeps_the_state(s: ReplyState, more: Seq<u8>)
    requires
        s.wf(),
        !s.stopped,
    ensures
        s.fed(more).wf(),
        s.shown <= s.fed(more).shown,
        !s.fed(more).stopped ==> s.fed(more).shown <= s.fed(more).text.len(),
{
    let whole = s.grown(more);
    let bytes = s.bytes + more;
    longest_valid_is_longest(bytes, bytes.len() as int);
    text_only_grows(s, more);
    lemma_safe(whole);
    let added = stripped(decode_utf8(bytes.take(s.fed(more).decoded).skip(s.decoded)));
    assert(whole == s.text + added);
    if s.shown > 0 {
        assert(whole.skip(s.shown) =~= s.text.skip(s.shown) + added);
        lemma_encode_concat(s.text.skip(s.shown), added);
    }
}

/// When another turn starts, nothing of its mark was shown: the mark starts at
/// or behind the end of what was shown.
pub proof fn marks_are_never_shown(s: ReplyState, more: Seq<u8>)
    requires
        s.wf(),
        !s.stopped,
    ensures
        earliest_stop(s.grown(more), 0) matches Some(k) ==> s.shown <= k && s.grown(more).take(
            s.shown,
        ) == s.text.take(s.shown),
{
    let whole = s.grown(more);
    text_only_grows(s, more);
    let added = stripped(
        decode_utf8((s.bytes + more).take(s.fed(more).decoded).skip(s.decoded)),
    );
    earliest_stop_is_first(whole, 0);
    earliest_stop_is_first(s.text, 0);
    match earliest_stop(whole, 0) {
        Some(k) => {
            let i = choose|i: int| 0 <= i < STOP_COUNT && #[trigger] occurs_at(
                whole,
                stop_text(i),
                k,
            );
            let mark = stop_text(i);
            stop_texts_are_short(i);
            let old_len = s.text.len() as int;
            assert(whole.take(s.shown) =~= s.text.take(s.shown));
            if k + mark.len() <= old_len {
                assert(s.text.subrange(k, k + mark.len()) =~= whole.subrange(k, k + mark.len()));
                assert(occurs_at(s.text, mark, k));
                assert(stop_begins(s.text, k));
            }
            if k < s.shown {
                let held = s.text.skip(s.shown);
                assert(held =~= mark.subrange(s.shown - k, old_len - k)) by {
                    assert forall|j: int| 0 <= j < held.len() implies held[j] == mark.subrange(
                        s.shown - k,
                        old_len - k,
                    )[j] by {
                        assert(whole.subrange(k, k + mark.len())[s.shown - k + j] == whole[s.shown
                            + j]);
                    }
                }
                assert(is_ascii_chars(held));
                is_ascii_chars_encode_utf8(held);
            }
        },
        None => {},
    }
}

/// What one more token shows starts where the last one stopped, so that all that
/// was shown is the beginning of the text.
pub proof fn shown_text_is_a_beginning(s: ReplyState, more: Seq<u8>)
    requires
        s.wf(),
        !s.stopped,
        !s.fed(more).stopped,
    ensures
        s.text.take(s.shown) + s.chunk(more) == s.fed(more).text.take(s.fed(more).shown),
{
    feeding_keeps_the_state(s, more);
    text_only_grows(s, more);
    let t = s.fed(more);
    assert(s.text.take(s.shown) =~= t.text.take(s.shown));
    assert(t.text.take(s.shown) + t.text.subrange(s.shown, t.shown) =~= t.text.take(t.shown));
}

/// What a token leads to.
#[derive(Debug)]
pub enum ReplyStep {
    /// Another turn has started: the reply is over.
    Stopped,
    /// This text is to be shown; it may be empty.
    Show(String),
}

/// What is left to show at the end, and the whole reply.
#[derive(Debug)]
pub struct ReplyEnding {
    pub rest: String,
    /// The last character was broken off.
    pub broken_off: bool,
    pub text: String,
}

/// A reply as it arrives.
#[derive(Debug)]
pub struct Reply {
    bytes: Vec<u8>,
    decoded: usize,
    text: String,
    shown: usize,
    stopped: bool,
}

impl View for Reply {
    type V = ReplyState;

    closed spec fn view(&self) -> ReplyState {
        ReplyState {
            bytes: self.bytes@,
            decoded: self.decoded as int,
            text: self.text@,
            shown: self.shown as int,
            stopped: self.stopped,
        }
    }
}

impl Reply {
    /// A reply of which nothing has arrived.
    pub fn new() -> (r: Self)
        ensures
            r@ == (ReplyState {
                bytes: Seq::empty(),
                decoded: 0,
                text: Seq::empty(),
                shown: 0,
                stopped: false,
            }),
            r@.wf(),
    {
        let r = Reply {
            bytes: Vec::new(),
            decoded: 0,
            text: String::new(),
            shown: 0,
            stopped: false,
        };
        proof {
            let none = Seq::<u8>::empty();
            assert(r@.bytes =~= none);
            assert(none.take(0) =~= none);
            assert(decode_utf8(none) =~= Seq::empty());
            assert(r@.text =~= Seq::empty());
            assert(text_of_bytes(none, 0) =~= Seq::empty());
        }
        r
    }

    /// Whether the reply is over because another turn has started.
    pub fn is_stopped(&self) -> (b: bool)
        ensures
            b == self@.stopped,
    {
        self.stopped
    }

    /// Takes the bytes of one more token.
    pub fn feed(&mut self, more: &[u8]) -> (step: ReplyStep)
        requires
            old(self)@.wf(),
            !old(self)@.stopped,
        ensures
            final(self)@ == old(self)@.fed(more@),
            final(self)@.wf(),
            match step {
                ReplyStep::Stopped => final(self)@.stopped,
                ReplyStep::Show(s) => !final(self)@.stopped && s@ == old(self)@.chunk(more@),
            },
    {
        let ghost before = self@;
        let limit: usize = more.len();
        proof {
            text_only_grows(before, more@);
            feeding_keeps_the_state(before, more@);
        }
        let mut i: usize = 0;
        while i < limit
            invariant
                i <= limit,
                limit == more@.len(),
                self.bytes@ == before.bytes + more@.take(i as int),
                self.decoded == before.decoded,
                self.text@ == before.text,
                self.shown == before.shown,
                self.stopped == before.stopped,
            decreases limit - i,
        {
            self.bytes.push(more[i]);
            i = i + 1;
            proof {
                assert(self.bytes@ =~= before.bytes + more@.take(i as int));
            }
        }
        proof {
            assert(more@.take(i as int) =~= more@);
            assert(before.bytes + more@ == self.bytes@);
        }
        let valid = valid_up_to(&self.bytes);
        proof {
            longest_valid_is_longest(self.bytes@, self.bytes@.len() as int);
        }
        let fresh = copy_range(&self.bytes, self.decoded, valid);
        proof {
            assert(fresh@ =~= self.bytes@.take(valid as int).skip(before.decoded));
        }
        let chunk = match utf8_text(fresh) {
            Ok(s) => s,
            Err(_) => String::new(),
        };
        let clean = strip_emoji_chars(chunk.as_str());
        self.text.append(clean.as_str());
        self.decoded = valid;
        proof {
            assert(self.text@ == before.grown(more@));
        }
        if truncate_at_chat_stop_sequence(&mut self.text) {
            self.stopped = true;
            return ReplyStep::Stopped;
        }
        proof {
            lemma_safe(self.text@);
        }
        let n = byte_len(self.text.as_str());
        let held: usize = if n < CHAT_STOP_LOOKAHEAD_BYTES {
            0
        } else {
            n - CHAT_STOP_LOOKAHEAD_BYTES
        };
        let at = floor_char_boundary(self.text.as_str(), held);
        let safe: usize = cut(self.text.as_str(), at).0.unicode_len();
        let from: usize = self.shown;
        if safe > from {
            self.shown = safe;
        }
        let shown = self.text.as_str().substring_char(from, self.shown);
        ReplyStep::Show(owned(shown))
    }

    /// What is left to show when no more tokens come, and the whole reply.
    pub fn finish(&self) -> (r: ReplyEnding)
        requires
            self@.wf(),
        ensures
            r.rest@ == self@.rest(),
            r.broken_off == self@.broken_off(),
            r.text@ == self@.ending(),
    {
        let n: usize = self.text.as_str().unicode_len();
        let rest = if self.shown < n {
            owned(self.text.as_str().substring_char(self.shown, n))
        } else {
            String::new()
        };
        proof {
            assert(rest@ =~= self@.rest());
        }
        let mut text = self.text.clone();
        let broken_off = self.decoded < self.bytes.len();
        if broken_off {
            text.push('\u{FFFD}');
        }
        ReplyEnding { rest, broken_off, text }
    }
}

/// A token ends the reply: the configured end of text, the ChatML end of a
/// turn where the vocabulary has one, or the end of a turn in the LLaMA-3
/// family.
pub fn ends_reply(token: u32, eos: Option<u32>, im_end: Option<u32>) -> (b: bool)
    ensures
        b == (eos == Some(token) || im_end == Some(token) || token == LLAMA3_EOT_ID),
        b == crate::chat::turn::is_end(token, eos, im_end),
{
    let configured = match eos {
        Some(e) => e == token,
        None => false,
    };
    let marked = match im_end {
        Some(e) => e == token,
        None => false,
    };
    configured || marked || token == LLAMA3_EOT_ID
}

} // verus!
