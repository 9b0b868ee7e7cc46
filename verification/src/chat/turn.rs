//! A turn of a conversation, once the prompt has gone through the model: which
//! token is asked for, what its bytes show, and when the reply is over.

use crate::chat::reply::{
    ends_reply, feeding_keeps_the_state, Reply, ReplyEnding, ReplyState, ReplyStep, LLAMA3_EOT_ID,
};
use vstd::prelude::*;

verus! {

/// The state of a turn as a mathematical object.
pub struct TurnState {
    pub reply: ReplyState,
    /// The longest reply, in tokens.
    pub limit: int,
    /// How many tokens the reply has.
    pub emitted: int,
    /// Where the first token of the reply goes.
    pub start: int,
    /// How many tokens of the reply have gone through the model.
    pub forwarded: int,
    /// The reply has come to an end.
    pub over: bool,
}

/// A token that ends a reply.
pub open spec fn is_end(token: u32, eos: Option<u32>, im_end: Option<u32>) -> bool {
    eos == Some(token) || im_end == Some(token) || token == LLAMA3_EOT_ID
}

/// A turn before its first token.
pub open spec fn turn_start(reply: ReplyState, limit: int, start: int) -> TurnState {
    TurnState { reply, limit, emitted: 0, start, forwarded: 0, over: false }
}

impl TurnState {
    /// The reply keeps to its limit, and each of its tokens goes through the model
    /// before the next one is asked for.
    pub open spec fn wf(self) -> bool {
        &&& self.reply.wf()
        &&& 0 <= self.forwarded <= self.emitted <= self.limit
        &&& self.emitted <= self.forwarded + 1
        &&& 0 <= self.start
        &&& self.start + self.limit <= u32::MAX
        &&& !self.over ==> !self.reply.stopped
    }

    /// The model is asked for another token.
    pub open spec fn wants_token(self, cancelled: bool) -> bool {
        !self.over && !cancelled && self.emitted == self.forwarded && self.emitted < self.limit
    }

    /// A token was chosen, and these are its bytes.
    pub open spec fn taken(
        self,
        token: u32,
        eos: Option<u32>,
        im_end: Option<u32>,
        bytes: Seq<u8>,
    ) -> TurnState {
        if is_end(token, eos, im_end) {
            TurnState { over: true, ..self }
        } else {
            TurnState {
                reply: self.reply.fed(bytes),
                emitted: self.emitted + 1,
                over: self.reply.fed(bytes).stopped,
                ..self
            }
        }
    }

    /// The token has gone through the model.
    pub open spec fn passed(self) -> TurnState {
        TurnState { forwarded: self.forwarded + 1, ..self }
    }

    /// Where the next token goes.
    pub open spec fn position(self) -> int {
        self.start + self.forwarded
    }
}

/// What follows from a token.
#[derive(Debug)]
pub enum TurnStep {
    /// The reply is over.
    End,
    /// The text is shown, and the token goes through the model at its position.
    Forward { position: u32, show: String },
}

/// A turn in progress.
#[derive(Debug)]
pub struct Turn {
    reply: Reply,
    limit: usize,
    emitted: usize,
    start: u32,
    forwarded: usize,
    over: bool,
}

impl View for Turn {
    type V = TurnState;

    closed spec fn view(&self) -> TurnState {
        TurnState {
            reply: self.reply@,
            limit: self.limit as int,
            emitted: self.emitted as int,
            start: self.start as int,
            forwarded: self.forwarded as int,
            over: self.over,
        }
    }
}

impl Turn {
    /// Starts a reply of at most `max_new_tokens` tokens at a position.
    pub fn begin(max_new_tokens: usize, position: u32) -> (t: Self)
        requires
            position + max_new_tokens <= u32::MAX,
        ensures
            t@ == turn_start(t@.reply, max_new_tokens as int, position as int),
            t@.reply.bytes == Seq::<u8>::empty(),
            t@.reply.text == Seq::<char>::empty(),
            t@.wf(),
    {
        Turn {
            reply: Reply::new(),
            limit: max_new_tokens,
            emitted: 0,
            start: position,
            forwarded: 0,
            over: false,
        }
    }

    /// Whether the model is asked for another token.
    pub fn wants_token(&self, cancelled: bool) -> (b: bool)
        ensures
            b == self@.wants_token(cancelled),
    {
        !self.over && !cancelled && self.emitted == self.forwarded && self.emitted < self.limit
    }

    /// How many tokens the reply has.
    pub fn emitted(&self) -> (n: usize)
        ensures
            n == self@.emitted,
    {
        self.emitted
    }

    /// Takes the token that was chosen, and its bytes.
    pub fn take(&mut self, token: u32, eos: Option<u32>, im_end: Option<u32>, bytes: &[u8]) -> (step:
        TurnStep)
        requires
            old(self)@.wf(),
            old(self)@.wants_token(false),
        ensures
            final(self)@ == old(self)@.taken(token, eos, im_end, bytes@),
            final(self)@.wf(),
            match step {
                TurnStep::End => final(self)@.over,
                TurnStep::Forward { position, show } => {
                    &&& !final(self)@.over
                    &&& position == old(self)@.position()
                    &&& show@ == old(self)@.reply.chunk(bytes@)
                },
            },
    {
        if ends_reply(token, eos, im_end) {
            self.over = true;
            return TurnStep::End;
        }
        proof {
            feeding_keeps_the_state(self@.reply, bytes@);
        }
        let step = self.reply.feed(bytes);
        self.emitted = self.emitted + 1;
        match step {
            ReplyStep::Stopped => {
                self.over = true;
                TurnStep::End
            },
            ReplyStep::Show(show) => {
                let position: u32 = self.start + self.forwarded as u32;
                TurnStep::Forward { position, show }
            },
        }
    }

    /// The token has gone through the model.
    pub fn passed(&mut self)
        requires
            old(self)@.wf(),
            !old(self)@.over,
            old(self)@.forwarded < old(self)@.emitted,
        ensures
            final(self)@ == old(self)@.passed(),
            final(self)@.wf(),
    {
        self.forwarded = self.forwarded + 1;
    }

    /// What is left to show, and the whole reply.
    pub fn finish(&self) -> (r: ReplyEnding)
        requires
            self@.wf(),
        ensures
            r.rest@ == self@.reply.rest(),
            r.broken_off == self@.reply.broken_off(),
            r.text@ == self@.reply.ending(),
    {
        self.reply.finish()
    }
}

/// A token keeps the turn well-formed, and so does its way through the model.
pub proof fn turns_stay_well_formed(
    t: TurnState,
    token: u32,
    eos: Option<u32>,
    im_end: Option<u32>,
    bytes: Seq<u8>,
)
    requires
        t.wf(),
        t.wants_token(false),
    ensures
        t.taken(token, eos, im_end, bytes).wf(),
        !t.taken(token, eos, im_end, bytes).over ==> t.taken(
            token,
            eos,
            im_end,
            bytes,
        ).passed().wf(),
{
    feeding_keeps_the_state(t.reply, bytes);
}

/// A turn that fits the context when it starts fits it until it ends: no token
/// goes to a position behind the context.
pub proof fn turns_stay_in_the_context(t: TurnState, cached: int, prompt: int, context: int)
    requires
        t.wf(),
        t.start == cached + prompt,
        cached + prompt + t.limit <= context,
    ensures
        t.position() <= context,
        t.wants_token(false) ==> t.position() < context,
{
}

/// A token that ends the reply adds nothing to it, and neither does a turn that
/// the model makes up: in both cases no further token is asked for.
pub proof fn ended_turns_ask_for_nothing(
    t: TurnState,
    token: u32,
    eos: Option<u32>,
    im_end: Option<u32>,
    bytes: Seq<u8>,
    cancelled: bool,
)
    requires
        is_end(token, eos, im_end) || t.reply.fed(bytes).stopped,
    ensures
        !t.taken(token, eos, im_end, bytes).wants_token(cancelled),
        is_end(token, eos, im_end) ==> t.taken(token, eos, im_end, bytes).reply == t.reply,
{
}

} // verus!
