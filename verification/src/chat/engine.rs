//! The state of a conversation: what was said, how much of the context is
//! used, and what is sent to the model for each turn.

use crate::error::{Fault, WillametteError};
use crate::model::architecture::ForwardVariant;
use crate::model::config::ModelConfig;
use crate::text::{cat2, cat3, cat6, dec, decimal, owned};
use vstd::prelude::*;

pub use crate::chat::reply::{ends_reply, Reply, ReplyEnding, ReplyStep, LLAMA3_EOT_ID};
pub use crate::chat::stops::{
    find_chat_stop_sequence, floor_char_boundary, is_emoji_char, strip_emoji_chars,
    truncate_at_chat_stop_sequence, CHAT_STOP_LOOKAHEAD_BYTES,
};

verus! {

/// What the screen knows of the work in progress.
#[derive(Debug, Clone, Copy, PartialEq, Eq, Structural)]
pub struct WorkerProgress {
    /// The layer that is computed, or the largest number when none is.
    pub current_layer: u32,
    /// The tokens of the current turn.
    pub tokens_emitted: u32,
    /// The most tokens of the current turn; zero when there is none.
    pub tokens_cap: u32,
    /// When the current turn started, in nanoseconds; zero when there is none.
    pub turn_start_nanos: u64,
    pub kv_cache_bytes: u64,
    /// The turn is to end early.
    pub cancel_requested: bool,
}

impl WorkerProgress {
    /// No turn is in progress.
    pub fn new() -> (p: Self)
        ensures
            p == (WorkerProgress {
                current_layer: u32::MAX,
                tokens_emitted: 0,
                tokens_cap: 0,
                turn_start_nanos: 0,
                kv_cache_bytes: 0,
                cancel_requested: false,
            }),
    {
        WorkerProgress {
            current_layer: u32::MAX,
            tokens_emitted: 0,
            tokens_cap: 0,
            turn_start_nanos: 0,
            kv_cache_bytes: 0,
            cancel_requested: false,
        }
    }

    /// A turn of at most `cap` tokens starts at a time.
    pub fn begin_turn(&mut self, cap: u32, now_nanos: u64)
        ensures
            *final(self) == (WorkerProgress {
                current_layer: u32::MAX,
                tokens_emitted: 0,
                tokens_cap: cap,
                turn_start_nanos: now_nanos,
                kv_cache_bytes: old(self).kv_cache_bytes,
                cancel_requested: false,
            }),
    {
        self.current_layer = u32::MAX;
        self.tokens_emitted = 0;
        self.tokens_cap = cap;
        self.cancel_requested = false;
        self.turn_start_nanos = now_nanos;
    }

    /// The turn is over: no turn is in progress.
    pub fn end_turn(&mut self)
        ensures
            *final(self) == (WorkerProgress {
                current_layer: u32::MAX,
                turn_start_nanos: 0,
                tokens_cap: 0,
                ..*old(self)
            }),
    {
        self.current_layer = u32::MAX;
        self.turn_start_nanos = 0;
        self.tokens_cap = 0;
    }
}

/// Who said something.
#[derive(Debug, Clone, Copy, PartialEq, Eq, Structural)]
pub enum Role {
    System,
    User,
    Assistant,
}

/// Something that was said.
#[derive(Debug, Clone)]
pub struct ChatMessage {
    pub role: Role,
    pub content: String,
}

/// Something that was said, as a mathematical object.
pub struct Said {
    pub role: Role,
    pub content: Seq<char>,
}

impl View for ChatMessage {
    type V = Said;

    open spec fn view(&self) -> Said {
        Said { role: self.role, content: self.content@ }
    }
}

/// How the turns of a conversation are marked for the model.
#[derive(Debug, Clone, Copy, PartialEq, Eq, Structural)]
pub enum ChatTemplate {
    /// Plain text: `Human:` and `BITNETAssistant:`.
    Bridge,
    /// The markers of ChatML, turn by turn.
    ChatMl,
}

/// How turns are marked for a model: a model of the classic Llama family whose
/// vocabulary has the ChatML marker gets ChatML, and any other plain text.
pub open spec fn template_of(variant: ForwardVariant, im_end: Option<u32>) -> ChatTemplate {
    if variant == ForwardVariant::VanillaLlama && im_end is Some {
        ChatTemplate::ChatMl
    } else {
        ChatTemplate::Bridge
    }
}

impl ChatTemplate {
    /// How turns are marked for a model, given the token that ends a ChatML turn.
    pub fn for_model(variant: ForwardVariant, im_end: Option<u32>) -> (t: Self)
        ensures
            t == template_of(variant, im_end),
    {
        match variant {
            ForwardVariant::VanillaLlama => if im_end.is_some() {
                ChatTemplate::ChatMl
            } else {
                ChatTemplate::Bridge
            },
            _ => ChatTemplate::Bridge,
        }
    }
}

/// The state of a conversation as a mathematical object.
#[verifier::ext_equal]
pub struct Conversation {
    pub history: Seq<Said>,
    /// Where the next token goes.
    pub next_pos: int,
    pub max_seq_len: int,
    pub system_prompt: Option<Seq<char>>,
    pub template: ChatTemplate,
}

/// The plain-text form of a turn. The system prompt goes in front of the first
/// turn.
pub open spec fn bridge(first: bool, system: Option<Seq<char>>, user: Seq<char>) -> Seq<char> {
    if !first {
        "\n\nHuman: "@ + user + "\n\nBITNETAssistant: "@
    } else {
        match system {
            Some(s) => s + "\n\nHuman: "@ + user + "\n\nBITNETAssistant: "@,
            None => "Human: "@ + user + "\n\nBITNETAssistant: "@,
        }
    }
}

/// The ChatML form of a turn. A later turn first closes the reply before it.
pub open spec fn chat_ml(first: bool, system: Option<Seq<char>>, user: Seq<char>) -> Seq<char> {
    let ask = "<|im_start|>user\n"@ + user + "<|im_end|>\n<|im_start|>assistant\n"@;
    if !first {
        "<|im_end|>\n"@ + ask
    } else {
        match system {
            Some(s) => "<|im_start|>system\n"@ + s + "<|im_end|>\n"@ + ask,
            None => ask,
        }
    }
}

impl Conversation {
    /// What is sent to the model for a turn.
    pub open spec fn fragment(self, user: Seq<char>) -> Seq<char> {
        match self.template {
            ChatTemplate::Bridge => bridge(self.history.len() == 0, self.system_prompt, user),
            ChatTemplate::ChatMl => chat_ml(self.history.len() == 0, self.system_prompt, user),
        }
    }

    /// Why a turn cannot start: nothing to send, or more than the context holds.
    pub open spec fn turn_fault(
        self,
        cached: int,
        prompt_tokens: int,
        max_new_tokens: int,
    ) -> Option<Fault> {
        let need = cached + prompt_tokens + max_new_tokens;
        if prompt_tokens == 0 {
            Some(Fault::GgufParse("chat: user fragment encoded to zero tokens"@))
        } else if need > self.max_seq_len {
            Some(
                Fault::GgufParse(
                    "chat: context budget exceeded — cache.position="@ + dec(cached)
                        + " + new prompt="@ + dec(prompt_tokens) + " + max_new_tokens="@ + dec(
                        max_new_tokens,
                    ) + " = "@ + dec(need) + " > max_seq_len="@ + dec(self.max_seq_len),
                ),
            )
        } else {
            None
        }
    }

    /// The conversation from its start on.
    pub open spec fn fresh(self) -> Conversation {
        Conversation { history: Seq::empty(), next_pos: 0, ..self }
    }

    /// A turn is over.
    pub open spec fn answered(self, user: Seq<char>, reply: Seq<char>) -> Conversation {
        Conversation {
            history: self.history.push(Said { role: Role::User, content: user }).push(
                Said { role: Role::Assistant, content: reply },
            ),
            ..self
        }
    }
}

/// A conversation with a model.
#[derive(Debug)]
pub struct ChatEngine {
    history: Vec<ChatMessage>,
    next_pos: u32,
    max_seq_len: usize,
    system_prompt: Option<String>,
    template: ChatTemplate,
    n_layers: u32,
    n_embd: u32,
    vocab_size: u32,
    kv_dim: u32,
    architecture: String,
}

impl View for ChatEngine {
    type V = Conversation;

    closed spec fn view(&self) -> Conversation {
        Conversation {
            history: self.history@.map_values(|m: ChatMessage| m@),
            next_pos: self.next_pos as int,
            max_seq_len: self.max_seq_len as int,
            system_prompt: match self.system_prompt {
                Some(s) => Some(s@),
                None => None,
            },
            template: self.template,
        }
    }
}

impl ChatEngine {
    pub closed spec fn layers(&self) -> int {
        self.n_layers as int
    }

    pub closed spec fn width(&self) -> int {
        self.n_embd as int
    }

    pub closed spec fn vocabulary(&self) -> int {
        self.vocab_size as int
    }

    pub closed spec fn kv_width(&self) -> int {
        self.kv_dim as int
    }

    pub closed spec fn family(&self) -> Seq<char> {
        self.architecture@
    }

    /// The facts about the model stay as they are.
    pub open spec fn same_model(&self, other: &ChatEngine) -> bool {
        &&& self.layers() == other.layers()
        &&& self.width() == other.width()
        &&& self.vocabulary() == other.vocabulary()
        &&& self.kv_width() == other.kv_width()
        &&& self.family() == other.family()
    }

    /// A conversation with the model of a configuration.
    pub fn new(config: &ModelConfig, max_seq_len: usize, template: ChatTemplate) -> (e: Self)
        ensures
            e@ == (Conversation {
                history: Seq::empty(),
                next_pos: 0,
                max_seq_len: max_seq_len as int,
                system_prompt: None,
                template,
            }),
            e.layers() == config.block_count,
            e.width() == config.embedding_length,
            e.vocabulary() == config.vocab_size,
            e.kv_width() == config.kv_dim,
            e.family() == config.architecture@,
    {
        let e = ChatEngine {
            history: Vec::new(),
            next_pos: 0,
            max_seq_len,
            system_prompt: None,
            template,
            n_layers: config.block_count,
            n_embd: config.embedding_length,
            vocab_size: config.vocab_size,
            kv_dim: config.kv_dim,
            architecture: config.architecture.clone(),
        };
        proof {
            assert(e@.history =~= Seq::empty());
        }
        e
    }

    pub fn config_n_layers(&self) -> (r: u32)
        ensures
            r == self.layers(),
    {
        self.n_layers
    }

    pub fn config_n_embd(&self) -> (r: u32)
        ensures
            r == self.width(),
    {
        self.n_embd
    }

    pub fn config_vocab_size(&self) -> (r: u32)
        ensures
            r == self.vocabulary(),
    {
        self.vocab_size
    }

    pub fn config_architecture(&self) -> (r: &str)
        ensures
            r@ == self.family(),
    {
        self.architecture.as_str()
    }

    pub fn config_kv_dim(&self) -> (r: u32)
        ensures
            r == self.kv_width(),
    {
        self.kv_dim
    }

    pub fn system_prompt(&self) -> (r: Option<&str>)
        ensures
            match r {
                Some(s) => self@.system_prompt == Some(s@),
                None => self@.system_prompt is None,
            },
    {
        match &self.system_prompt {
            Some(s) => Some(s.as_str()),
            None => None,
        }
    }

    /// The bytes that the keys and values of all positions so far take in single
    /// precision.
    pub fn estimate_kv_cache_bytes(&self) -> (r: u64)
        requires
            self.layers() * self.kv_width() * self@.next_pos * 8 <= u64::MAX,
        ensures
            r == self.layers() * self.kv_width() * self@.next_pos * 8,
    {
        let layers: u64 = self.n_layers as u64;
        let width: u64 = self.kv_dim as u64;
        let pos: u64 = self.next_pos as u64;
        proof {
            assert(0 <= layers * width <= 0xffff_ffff * 0xffff_ffff) by (nonlinear_arith)
                requires
                    0 <= layers <= 0xffff_ffff,
                    0 <= width <= 0xffff_ffff,
            ;
        }
        let plane: u64 = layers * width;
        proof {
            assert(0 <= plane * pos) by (nonlinear_arith)
                requires
                    0 <= plane,
                    0 <= pos,
            ;
        }
        plane * pos * 4 * 2
    }

    /// Sets or clears the system prompt. It takes effect on the next first turn.
    pub fn set_system_prompt(&mut self, sys: Option<String>)
        ensures
            final(self)@ == (Conversation {
                system_prompt: match sys {
                    Some(s) => Some(s@),
                    None => None,
                },
                ..old(self)@
            }),
            final(self).same_model(old(self)),
    {
        self.system_prompt = sys;
    }

    /// Forgets the conversation: the next turn is a first turn.
    pub fn reset(&mut self)
        ensures
            final(self)@ == old(self)@.fresh(),
            final(self).same_model(old(self)),
    {
        self.history = Vec::new();
        self.next_pos = 0;
        proof {
            assert(self@.history =~= Seq::empty());
        }
    }

    /// What was said.
    pub fn history(&self) -> (r: &Vec<ChatMessage>)
        ensures
            r@.map_values(|m: ChatMessage| m@) == self@.history,
    {
        &self.history
    }

    /// Where the next token goes.
    pub fn token_position(&self) -> (r: u32)
        ensures
            r == self@.next_pos,
    {
        self.next_pos
    }

    pub fn max_seq_len(&self) -> (r: usize)
        ensures
            r == self@.max_seq_len,
    {
        self.max_seq_len
    }

    /// What is sent to the model for a turn, and whether the token that marks
    /// the beginning goes in front of it.
    pub fn build_chat_fragment(&self, user_text: &str) -> (r: (String, bool))
        ensures
            r.0@ == self@.fragment(user_text@),
            r.1 == (self@.history.len() == 0),
    {
        let first = self.history.len() == 0;
        let text = match self.template {
            ChatTemplate::Bridge => if !first {
                cat3("\n\nHuman: ", user_text, "\n\nBITNETAssistant: ")
            } else {
                match &self.system_prompt {
                    Some(s) => {
                        let mut head = cat2(s.as_str(), "\n\nHuman: ");
                        head.append(user_text);
                        head.append("\n\nBITNETAssistant: ");
                        head
                    },
                    None => cat3("Human: ", user_text, "\n\nBITNETAssistant: "),
                }
            },
            ChatTemplate::ChatMl => {
                let ask = cat3(
                    "<|im_start|>user\n",
                    user_text,
                    "<|im_end|>\n<|im_start|>assistant\n",
                );
                if !first {
                    cat2("<|im_end|>\n", ask.as_str())
                } else {
                    match &self.system_prompt {
                        Some(s) => {
                            let mut head = cat3("<|im_start|>system\n", s.as_str(), "<|im_end|>\n");
                            head.append(ask.as_str());
                            head
                        },
                        None => ask,
                    }
                }
            },
        };
        (text, first)
    }

    /// Checks that a turn can start: something is sent, and the context holds
    /// it and the longest reply.
    pub fn check_turn(
        &self,
        cached: usize,
        prompt_tokens: usize,
        max_new_tokens: usize,
    ) -> (r: Result<(), WillametteError>)
        requires
            prompt_tokens > 0 ==> cached + prompt_tokens + max_new_tokens <= usize::MAX,
        ensures
            match r {
                Ok(_) => self@.turn_fault(
                    cached as int,
                    prompt_tokens as int,
                    max_new_tokens as int,
                ) is None,
                Err(e) => self@.turn_fault(
                    cached as int,
                    prompt_tokens as int,
                    max_new_tokens as int,
                ) == Some(e@),
            },
    {
        if prompt_tokens == 0 {
            return Err(
                WillametteError::GgufParse(owned("chat: user fragment encoded to zero tokens")),
            );
        }
        let need: usize = cached + prompt_tokens + max_new_tokens;
        if need > self.max_seq_len {
            let a = decimal(cached as u64);
            let b = decimal(prompt_tokens as u64);
            let c = decimal(max_new_tokens as u64);
            let d = decimal(need as u64);
            let e = decimal(self.max_seq_len as u64);
            let mut text = cat6(
                "chat: context budget exceeded — cache.position=",
                a.as_str(),
                " + new prompt=",
                b.as_str(),
                " + max_new_tokens=",
                c.as_str(),
            );
            text.append(" = ");
            text.append(d.as_str());
            text.append(" > max_seq_len=");
            text.append(e.as_str());
            return Err(WillametteError::GgufParse(text));
        }
        Ok(())
    }

    /// Tokens have gone through the model.
    pub fn advance(&mut self, tokens: u32)
        requires
            old(self)@.next_pos + tokens <= u32::MAX,
        ensures
            final(self)@ == (Conversation {
                next_pos: old(self)@.next_pos + tokens,
                ..old(self)@
            }),
            final(self).same_model(old(self)),
    {
        self.next_pos = self.next_pos + tokens;
    }

    /// Keeps a turn: what was asked, and the reply.
    pub fn record_turn(&mut self, user_text: &str, response: &str)
        ensures
            final(self)@ == old(self)@.answered(user_text@, response@),
            final(self).same_model(old(self)),
    {
        let ghost before = self@.history;
        self.history.push(ChatMessage { role: Role::User, content: owned(user_text) });
        proof {
            assert(self@.history =~= before.push(
                Said { role: Role::User, content: user_text@ },
            ));
        }
        let ghost asked = self@.history;
        self.history.push(ChatMessage { role: Role::Assistant, content: owned(response) });
        proof {
            assert(self@.history =~= asked.push(
                Said { role: Role::Assistant, content: response@ },
            ));
        }
    }
}

/// Behind a reset the next turn is a first turn: it is sent with the system
/// prompt as it is then, and from the start of the context.
pub proof fn reset_starts_over(c: Conversation, user: Seq<char>)
    ensures
        c.fresh().fragment(user) == (Conversation { history: Seq::empty(), ..c }).fragment(user),
        c.fresh().next_pos == 0,
        c.fresh().history.len() == 0,
{
}

/// A turn that was answered makes the next one a later turn: the system prompt
/// is not sent again.
pub proof fn system_prompt_is_sent_once(
    c: Conversation,
    user: Seq<char>,
    reply: Seq<char>,
    next: Seq<char>,
    other: Option<Seq<char>>,
)
    ensures
        c.answered(user, reply).fragment(next) == (Conversation {
            system_prompt: other,
            ..c.answered(user, reply)
        }).fragment(next),
{
}

} // verus!
