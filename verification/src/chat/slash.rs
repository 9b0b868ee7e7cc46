//! The commands of a conversation on the command line, and its transcript.

use crate::chat::engine::{ChatEngine, ChatMessage, Conversation, Role, Said};
use crate::chat::markdown::newlines;
use crate::cut::byte_len;
use crate::quotient::{quotient, quotient_text};
use crate::text::{
    cat3, cat5, cat6, cat7, chars_of, dec, decimal, digit, digit_char, first_word, is_one_of,
    owned, pad_left, padded_left, same_text, split_word, text_of, trim, trimmed, views,
};
use vstd::prelude::*;
use vstd::utf8::encode_utf8;

verus! {

/// What a command leads to.
#[derive(Debug)]
pub enum SlashOutcome {
    /// The lines are printed, and the conversation goes on.
    Continue(Vec<String>),
    /// The transcript is written to a file.
    Save(String),
    Quit,
}

/// What a command leads to, as a mathematical object.
pub enum Effect {
    Continue(Seq<Seq<char>>),
    Save(Seq<char>),
    Quit,
}

impl View for SlashOutcome {
    type V = Effect;

    open spec fn view(&self) -> Effect {
        match self {
            SlashOutcome::Continue(lines) => Effect::Continue(views(lines@)),
            SlashOutcome::Save(path) => Effect::Save(path@),
            SlashOutcome::Quit => Effect::Quit,
        }
    }
}

/// A line that was typed, without the white space around it.
#[derive(Debug)]
pub enum ChatLine {
    Empty,
    /// A command, without its slash.
    Command(String),
    /// Something to say to the model.
    Message(String),
}

/// A line that was typed, as a mathematical object.
pub enum Typed {
    Empty,
    Command(Seq<char>),
    Message(Seq<char>),
}

impl View for ChatLine {
    type V = Typed;

    open spec fn view(&self) -> Typed {
        match self {
            ChatLine::Empty => Typed::Empty,
            ChatLine::Command(s) => Typed::Command(s@),
            ChatLine::Message(s) => Typed::Message(s@),
        }
    }
}

/// What a line means.
pub open spec fn typed(line: Seq<char>) -> Typed {
    let s = trimmed(line);
    if s.len() == 0 {
        Typed::Empty
    } else if s[0] == '/' {
        Typed::Command(s.skip(1))
    } else {
        Typed::Message(s)
    }
}

/// What a line means.
pub fn read_chat_line(line: &str) -> (r: ChatLine)
    ensures
        r@ == typed(line@),
{
    let s = trim(line);
    if s.as_str().is_empty() {
        return ChatLine::Empty;
    }
    if s.as_str().get_char(0) == '/' {
        let n: usize = s.as_str().unicode_len();
        let cmd = s.as_str().substring_char(1, n);
        proof {
            assert(cmd@ =~= s@.skip(1));
        }
        return ChatLine::Command(owned(cmd));
    }
    ChatLine::Message(s)
}

/// The lines of the help.
pub open spec fn help_lines() -> Seq<Seq<char>> {
    seq![
        "Commands:"@,
        "  /help              — this message"@,
        "  /quit              — exit (alias /exit, /q, or Ctrl-D)"@,
        "  /reset             — clear conversation history + KV cache"@,
        "  /history           — print the current turn-by-turn history"@,
        "  /save <path>       — write history as JSON lines to <path>"@,
        "  /sys <text>        — set or replace the system prompt"@,
        "  /sys off           — clear the system prompt"@,
        "  /stats             — show token-position + budget usage"@,
    ]
}

/// The label of a role in the listing.
pub open spec fn short_label(role: Role) -> Seq<char> {
    match role {
        Role::System => "SYS"@,
        Role::User => "USR"@,
        Role::Assistant => "BOT"@,
    }
}

/// A line of the listing.
pub open spec fn listing_line(history: Seq<Said>, i: int) -> Seq<char> {
    "  ["@ + padded_left(dec(i), ' ', 2) + "] "@ + short_label(history[i].role) + " | "@
        + history[i].content
}

/// The listing of what was said.
pub open spec fn listing(history: Seq<Said>) -> Seq<Seq<char>> {
    if history.len() == 0 {
        seq!["[history is empty]"@]
    } else {
        Seq::new(history.len(), |i: int| listing_line(history, i))
    }
}

/// How much of the context is used, in percent.
pub open spec fn used_share(c: Conversation) -> Seq<char> {
    if c.max_seq_len > 0 {
        quotient(100 * c.next_pos, c.max_seq_len, 1)
    } else if c.next_pos == 0 {
        "NaN"@
    } else {
        "inf"@
    }
}

/// How much of the context is used.
pub open spec fn stats_lines(c: Conversation) -> Seq<Seq<char>> {
    seq![
        "  position: "@ + dec(c.next_pos) + "/"@ + dec(c.max_seq_len) + " tokens  ("@
            + used_share(c) + "% used)"@,
        "  turns:    "@ + dec(c.history.len() as int) + " messages"@,
    ]
}

impl Conversation {
    /// A command is given.
    pub open spec fn slashed(self, line: Seq<char>) -> (Conversation, Effect) {
        let (head, rest) = first_word(line);
        if head == "quit"@ || head == "exit"@ || head == "q"@ {
            (self, Effect::Quit)
        } else if head == "help"@ || head == "?"@ {
            (self, Effect::Continue(help_lines()))
        } else if head == "reset"@ {
            (self.fresh(), Effect::Continue(seq!["[history cleared; KV cache reset]"@]))
        } else if head == "history"@ {
            (self, Effect::Continue(listing(self.history)))
        } else if head == "save"@ {
            if rest.len() == 0 {
                (self, Effect::Continue(seq!["[usage: /save <path>]"@]))
            } else {
                (self, Effect::Save(rest))
            }
        } else if head == "sys"@ {
            if rest.len() == 0 {
                (self, Effect::Continue(seq!["[usage: /sys <text>  or  /sys off]"@]))
            } else if rest == "off"@ {
                (
                    Conversation { system_prompt: None, ..self },
                    Effect::Continue(seq!["[system prompt cleared]"@]),
                )
            } else {
                (
                    Conversation { system_prompt: Some(rest), ..self },
                    Effect::Continue(
                        seq![
                            "[system prompt set ("@ + dec(encode_utf8(rest).len() as int)
                                + " chars) — takes effect from next /reset]"@,
                        ],
                    ),
                )
            }
        } else if head == "stats"@ {
            (self, Effect::Continue(stats_lines(self)))
        } else {
            (
                self,
                Effect::Continue(seq!["[unknown command: /"@ + head + " — try /help]"@]),
            )
        }
    }
}

/// One line.
fn say(line: String) -> (r: SlashOutcome)
    ensures
        r@ == Effect::Continue(seq![line@]),
{
    let mut lines: Vec<String> = Vec::new();
    lines.push(line);
    proof {
        assert(views(lines@) =~= seq![line@]);
    }
    SlashOutcome::Continue(lines)
}

/// The lines of the help.
fn slash_help() -> (lines: Vec<String>)
    ensures
        views(lines@) == help_lines(),
{
    let mut lines: Vec<String> = Vec::new();
    lines.push(owned("Commands:"));
    lines.push(owned("  /help              — this message"));
    lines.push(owned("  /quit              — exit (alias /exit, /q, or Ctrl-D)"));
    lines.push(owned("  /reset             — clear conversation history + KV cache"));
    lines.push(owned("  /history           — print the current turn-by-turn history"));
    lines.push(owned("  /save <path>       — write history as JSON lines to <path>"));
    lines.push(owned("  /sys <text>        — set or replace the system prompt"));
    lines.push(owned("  /sys off           — clear the system prompt"));
    lines.push(owned("  /stats             — show token-position + budget usage"));
    proof {
        assert(views(lines@) =~= help_lines());
    }
    lines
}

/// The messages that a list stands for.
pub open spec fn said(history: Seq<ChatMessage>) -> Seq<Said> {
    history.map_values(|m: ChatMessage| m@)
}

/// The listing of what was said.
fn slash_history(history: &Vec<ChatMessage>) -> (lines: Vec<String>)
    ensures
        views(lines@) == listing(said(history@)),
{
    let mut lines: Vec<String> = Vec::new();
    if history.len() == 0 {
        lines.push(owned("[history is empty]"));
        proof {
            assert(views(lines@) =~= listing(said(history@)));
        }
        return lines;
    }
    let ghost all = listing(said(history@));
    let mut i: usize = 0;
    proof {
        assert(views(lines@) =~= all.take(0));
    }
    while i < history.len()
        invariant
            i <= history@.len(),
            history@.len() > 0,
            all == listing(said(history@)),
            views(lines@) == all.take(i as int),
        decreases history.len() - i,
    {
        let role = match history[i].role {
            Role::System => "SYS",
            Role::User => "USR",
            Role::Assistant => "BOT",
        };
        let number = decimal(i as u64);
        let padded = pad_left(number.as_str(), ' ', 2);
        let line = cat6(
            "  [",
            padded.as_str(),
            "] ",
            role,
            " | ",
            history[i].content.as_str(),
        );
        let ghost before = views(lines@);
        lines.push(line);
        i = i + 1;
        proof {
            assert(said(history@)[i - 1] == history@[i - 1]@);
            assert(all[i - 1] == line@);
            assert(views(lines@) =~= before.push(line@));
            assert(all.take(i as int) =~= before.push(line@));
        }
    }
    proof {
        assert(all.take(i as int) =~= all);
    }
    lines
}

/// How much of the context is used.
fn slash_stats(engine: &ChatEngine) -> (lines: Vec<String>)
    ensures
        views(lines@) == stats_lines(engine@),
{
    let position = engine.token_position();
    let limit = engine.max_seq_len();
    let share = if limit > 0 {
        quotient_text(100 * (position as u64), limit as u64, 1)
    } else if position == 0 {
        owned("NaN")
    } else {
        owned("inf")
    };
    let a = decimal(position as u64);
    let b = decimal(limit as u64);
    let turns = decimal(engine.history().len() as u64);
    let mut lines: Vec<String> = Vec::new();
    lines.push(
        cat7(
            "  position: ",
            a.as_str(),
            "/",
            b.as_str(),
            " tokens  (",
            share.as_str(),
            "% used)",
        ),
    );
    lines.push(cat3("  turns:    ", turns.as_str(), " messages"));
    proof {
        assert(views(lines@) =~= stats_lines(engine@));
    }
    lines
}

/// Sets or clears the system prompt.
fn handle_slash_sys(rest: String, engine: &mut ChatEngine) -> (r: SlashOutcome)
    ensures
        (final(engine)@, r@) == if rest@.len() == 0 {
            (old(engine)@, Effect::Continue(seq!["[usage: /sys <text>  or  /sys off]"@]))
        } else if rest@ == "off"@ {
            (
                Conversation { system_prompt: None, ..old(engine)@ },
                Effect::Continue(seq!["[system prompt cleared]"@]),
            )
        } else {
            (
                Conversation { system_prompt: Some(rest@), ..old(engine)@ },
                Effect::Continue(
                    seq![
                        "[system prompt set ("@ + dec(encode_utf8(rest@).len() as int)
                            + " chars) — takes effect from next /reset]"@,
                    ],
                ),
            )
        },
        final(engine).same_model(old(engine)),
{
    if rest.as_str().is_empty() {
        return say(owned("[usage: /sys <text>  or  /sys off]"));
    }
    if same_text(rest.as_str(), "off") {
        engine.set_system_prompt(None);
        return say(owned("[system prompt cleared]"));
    }
    let n = decimal(byte_len(rest.as_str()) as u64);
    engine.set_system_prompt(Some(rest));
    say(
        cat3(
            "[system prompt set (",
            n.as_str(),
            " chars) — takes effect from next /reset]",
        ),
    )
}

/// Carries out a command, given without its slash.
#[verifier::rlimit(40)]
pub fn handle_slash_command(cmd_line: &str, engine: &mut ChatEngine) -> (r: SlashOutcome)
    ensures
        (final(engine)@, r@) == old(engine)@.slashed(cmd_line@),
        final(engine).same_model(old(engine)),
{
    let (head, rest) = split_word(cmd_line);
    let word = head.as_str();
    if is_one_of(word, "quit", "exit", "q") {
        return SlashOutcome::Quit;
    }
    if same_text(word, "help") || same_text(word, "?") {
        return SlashOutcome::Continue(slash_help());
    }
    if same_text(word, "reset") {
        engine.reset();
        return say(owned("[history cleared; KV cache reset]"));
    }
    if same_text(word, "history") {
        return SlashOutcome::Continue(slash_history(engine.history()));
    }
    if same_text(word, "save") {
        if rest.as_str().is_empty() {
            return say(owned("[usage: /save <path>]"));
        }
        return SlashOutcome::Save(rest);
    }
    if same_text(word, "sys") {
        return handle_slash_sys(rest, engine);
    }
    if same_text(word, "stats") {
        return SlashOutcome::Continue(slash_stats(engine));
    }
    say(cat3("[unknown command: /", word, " — try /help]"))
}

/// A character inside a JSON string. A control character without a short form is
/// written by its number.
pub open spec fn escaped_char(c: char) -> Seq<char> {
    if c == '\\' {
        seq!['\\', '\\']
    } else if c == '"' {
        seq!['\\', '"']
    } else if c == '\n' {
        seq!['\\', 'n']
    } else if c == '\r' {
        seq!['\\', 'r']
    } else if c == '\t' {
        seq!['\\', 't']
    } else if (c as int) < 0x20 {
        seq!['\\', 'u', '0', '0', digit(c as int / 16), digit(c as int % 16)]
    } else {
        seq![c]
    }
}

/// A text inside a JSON string.
pub open spec fn escaped(s: Seq<char>) -> Seq<char>
    decreases s.len(),
{
    if s.len() == 0 {
        Seq::empty()
    } else {
        escaped(s.drop_last()) + escaped_char(s.last())
    }
}

/// Adds a character inside a JSON string.
fn push_escaped(out: &mut Vec<char>, c: char)
    ensures
        final(out)@ == old(out)@ + escaped_char(c),
{
    if c == '\\' {
        out.push('\\');
        out.push('\\');
    } else if c == '"' {
        out.push('\\');
        out.push('"');
    } else if c == '\n' {
        out.push('\\');
        out.push('n');
    } else if c == '\r' {
        out.push('\\');
        out.push('r');
    } else if c == '\t' {
        out.push('\\');
        out.push('t');
    } else if (c as u32) < 0x20 {
        let n: u64 = c as u32 as u64;
        out.push('\\');
        out.push('u');
        out.push('0');
        out.push('0');
        out.push(digit_char(n / 16));
        out.push(digit_char(n % 16));
    } else {
        out.push(c);
    }
    proof {
        assert(out@ =~= old(out)@ + escaped_char(c));
    }
}

/// A text inside a JSON string.
fn escape(s: &str) -> (r: String)
    ensures
        r@ == escaped(s@),
{
    let chars = chars_of(s);
    let mut out: Vec<char> = Vec::new();
    let mut i: usize = 0;
    proof {
        assert(out@ =~= escaped(s@.take(0)));
    }
    while i < chars.len()
        invariant
            i <= chars@.len(),
            chars@ == s@,
            out@ == escaped(s@.take(i as int)),
        decreases chars.len() - i,
    {
        push_escaped(&mut out, chars[i]);
        i = i + 1;
        proof {
            assert(s@.take(i as int).drop_last() =~= s@.take(i - 1));
        }
    }
    proof {
        assert(s@.take(i as int) =~= s@);
    }
    text_of(&out)
}

/// The name of a role in the transcript.
pub open spec fn json_role(role: Role) -> Seq<char> {
    match role {
        Role::System => "system"@,
        Role::User => "user"@,
        Role::Assistant => "assistant"@,
    }
}

/// A line of the transcript.
pub open spec fn json_line(m: Said) -> Seq<char> {
    "{\"role\":\""@ + json_role(m.role) + "\",\"content\":\""@ + escaped(m.content) + "\"}\n"@
}

/// The transcript of the first `n` messages.
pub open spec fn transcript(history: Seq<Said>, n: int) -> Seq<char>
    decreases n,
{
    if n <= 0 {
        Seq::empty()
    } else {
        transcript(history, n - 1) + json_line(history[n - 1])
    }
}

/// The transcript of a conversation: one JSON object on a line for each message.
pub fn history_jsonl(history: &Vec<ChatMessage>) -> (r: String)
    ensures
        r@ == transcript(said(history@), history@.len() as int),
{
    let mut out = String::new();
    let mut i: usize = 0;
    proof {
        assert(out@ =~= transcript(said(history@), 0));
    }
    while i < history.len()
        invariant
            i <= history@.len(),
            out@ == transcript(said(history@), i as int),
        decreases history.len() - i,
    {
        let role = match history[i].role {
            Role::System => "system",
            Role::User => "user",
            Role::Assistant => "assistant",
        };
        let content = escape(history[i].content.as_str());
        let line = cat5("{\"role\":\"", role, "\",\"content\":\"", content.as_str(), "\"}\n");
        proof {
            assert(said(history@)[i as int] == history@[i as int]@);
        }
        out.append(line.as_str());
        i = i + 1;
    }
    out
}

/// The value of a hexadecimal digit.
pub open spec fn hex_value(c: char) -> Option<int> {
    if '0' <= c && c <= '9' {
        Some(c as int - '0' as int)
    } else if 'A' <= c && c <= 'F' {
        Some(c as int - 'A' as int + 10)
    } else if 'a' <= c && c <= 'f' {
        Some(c as int - 'a' as int + 10)
    } else {
        None
    }
}

/// The character whose number four hexadecimal digits give, other than a half of
/// a surrogate pair.
pub open spec fn numbered_char(a: char, b: char, c: char, d: char) -> Option<char> {
    match (hex_value(a), hex_value(b), hex_value(c), hex_value(d)) {
        (Some(w), Some(x), Some(y), Some(z)) => {
            let n = 0x1000 * w + 0x100 * x + 0x10 * y + z;
            if 0xd800 <= n < 0xe000 {
                None
            } else {
                Some(n as char)
            }
        },
        _ => None,
    }
}

/// What stands at the beginning of the inside of a JSON string: a character, and
/// how many places it takes.
pub open spec fn json_char(t: Seq<char>) -> Option<(char, int)> {
    if t.len() == 0 || t[0] == '"' || (t[0] as int) < 0x20 {
        None
    } else if t[0] != '\\' {
        Some((t[0], 1))
    } else if t.len() < 2 {
        None
    } else if t[1] == '"' || t[1] == '\\' || t[1] == '/' {
        Some((t[1], 2))
    } else if t[1] == 'b' {
        Some((8 as char, 2))
    } else if t[1] == 'f' {
        Some((12 as char, 2))
    } else if t[1] == 'n' {
        Some(('\n', 2))
    } else if t[1] == 'r' {
        Some(('\r', 2))
    } else if t[1] == 't' {
        Some(('\t', 2))
    } else if t[1] == 'u' && t.len() >= 6 {
        match numbered_char(t[2], t[3], t[4], t[5]) {
            Some(c) => Some((c, 6)),
            None => None,
        }
    } else {
        None
    }
}

/// The text that the inside of a JSON string stands for, if it is one.
pub open spec fn json_text(t: Seq<char>) -> Option<Seq<char>>
    decreases t.len(),
{
    if t.len() == 0 {
        Some(Seq::empty())
    } else {
        match json_char(t) {
            None => None,
            Some((c, n)) => if n <= 0 || n > t.len() {
                None
            } else {
                match json_text(t.skip(n)) {
                    None => None,
                    Some(rest) => Some(seq![c] + rest),
                }
            },
        }
    }
}

/// A character that was written for a JSON string is read back.
proof fn lemma_char_reads_back(c: char, rest: Seq<char>)
    ensures
        json_char(escaped_char(c) + rest) == Some((c, escaped_char(c).len() as int)),
        (escaped_char(c) + rest).skip(escaped_char(c).len() as int) == rest,
{
    let t = escaped_char(c) + rest;
    assert(t.skip(escaped_char(c).len() as int) =~= rest);
    assert forall|i: int| 0 <= i < escaped_char(c).len() implies #[trigger] t[i]
        == escaped_char(c)[i] by {}
    assert(t[0] == escaped_char(c)[0]);
    if escaped_char(c).len() == 2 {
        assert(t[1] == escaped_char(c)[1]);
    }
    if escaped_char(c).len() == 6 {
        assert(t[1] == 'u' && t[2] == '0' && t[3] == '0');
        assert(t[4] == digit(c as int / 16) && t[5] == digit(c as int % 16));
        assert(hex_value(t[4]) == Some(c as int / 16));
        assert(hex_value(t[5]) == Some(c as int % 16));
        assert(numbered_char(t[2], t[3], t[4], t[5]) == Some(c));
    }
}

/// A JSON string reads back as the text that was written to it.
pub proof fn escaped_text_reads_back(s: Seq<char>)
    ensures
        json_text(escaped(s)) == Some(s),
    decreases s.len(),
{
    if s.len() > 0 {
        lemma_front(s);
        lemma_char_reads_back(s[0], escaped(s.drop_first()));
        escaped_text_reads_back(s.drop_first());
        assert(s =~= seq![s[0]] + s.drop_first());
    }
}

/// Different texts have different forms inside a JSON string.
pub proof fn escaping_loses_nothing(a: Seq<char>, b: Seq<char>)
    requires
        escaped(a) == escaped(b),
    ensures
        a == b,
{
    escaped_text_reads_back(a);
    escaped_text_reads_back(b);
}

/// A character inside a JSON string takes no control character.
proof fn lemma_char_has_no_control_character(c: char)
    ensures
        forall|i: int|
            0 <= i < escaped_char(c).len() ==> 0x20 <= (#[trigger] escaped_char(c)[i]) as int,
{
}

/// A text inside a JSON string has no control character, and no quote without a
/// backslash in front.
pub proof fn escaped_text_has_no_control_character(s: Seq<char>)
    ensures
        forall|i: int|
            0 <= i < escaped(s).len() ==> 0x20 <= (#[trigger] escaped(s)[i]) as int,
        forall|i: int|
            0 <= i < escaped(s).len() && #[trigger] escaped(s)[i] == '"' ==> i > 0 && escaped(
                s,
            )[i - 1] == '\\',
    decreases s.len(),
{
    if s.len() > 0 {
        escaped_text_has_no_control_character(s.drop_last());
        lemma_char_has_no_control_character(s.last());
        let head = escaped(s.drop_last());
        let tail = escaped_char(s.last());
        assert forall|i: int| 0 <= i < escaped(s).len() && #[trigger] escaped(s)[i]
            == '"' implies i > 0 && escaped(s)[i - 1] == '\\' by {
            if i < head.len() {
                assert(head[i] == '"');
            } else {
                assert(tail[i - head.len()] == '"');
            }
        }
        assert forall|i: int| 0 <= i < escaped(s).len() implies 0x20 <= (#[trigger] escaped(
            s,
        )[i]) as int by {
            if i < head.len() {
                assert(0x20 <= head[i] as int);
            } else {
                assert(0x20 <= tail[i - head.len()] as int);
            }
        }
    }
}

/// A line of the transcript ends where it has its only line break: a message
/// takes one line.
pub proof fn messages_take_one_line(m: Said)
    ensures
        json_line(m).len() > 0,
        forall|i: int|
            0 <= i < json_line(m).len() ==> (#[trigger] json_line(m)[i] == '\n' <==> i
                == json_line(m).len() - 1),
{
    reveal_strlit("{\"role\":\"");
    reveal_strlit("system");
    reveal_strlit("user");
    reveal_strlit("assistant");
    reveal_strlit("\",\"content\":\"");
    reveal_strlit("\"}\n");
    escaped_text_has_no_control_character(m.content);
    let start = "{\"role\":\""@ + json_role(m.role) + "\",\"content\":\""@;
    let body = escaped(m.content);
    assert(json_line(m) =~= start + body + "\"}\n"@);
    assert forall|i: int| 0 <= i < start.len() implies #[trigger] start[i] != '\n' by {}
    assert forall|i: int| 0 <= i < json_line(m).len() implies (#[trigger] json_line(m)[i] == '\n'
        <==> i == json_line(m).len() - 1) by {
        if i < start.len() {
            assert(json_line(m)[i] == start[i]);
        } else if i < start.len() + body.len() {
            assert(json_line(m)[i] == body[i - start.len()]);
        } else {
            assert(json_line(m)[i] == "\"}\n"@[i - start.len() - body.len()]);
        }
    }
}

/// The newlines of two texts in a row.
proof fn lemma_newlines_add(a: Seq<char>, b: Seq<char>, from: int)
    requires
        0 <= from <= a.len() + b.len(),
    ensures
        newlines(a + b, from) == if from <= a.len() {
            newlines(a, from) + newlines(b, 0)
        } else {
            newlines(b, from - a.len())
        },
    decreases a.len() + b.len() - from,
{
    if from < a.len() + b.len() {
        lemma_newlines_add(a, b, from + 1);
        if from < a.len() {
            assert((a + b)[from] == a[from]);
        } else {
            assert((a + b)[from] == b[from - a.len()]);
        }
    }
}

/// A line of the transcript has one newline at or behind each of its places.
proof fn lemma_one_newline(m: Said, from: int)
    requires
        0 <= from < json_line(m).len(),
    ensures
        newlines(json_line(m), from) == 1,
    decreases json_line(m).len() - from,
{
    messages_take_one_line(m);
    let line = json_line(m);
    assert(line[from] == '\n' <==> from == line.len() - 1);
    if from < line.len() - 1 {
        lemma_one_newline(m, from + 1);
    } else {
        assert(newlines(line, from + 1) == 0);
    }
}

/// A transcript has as many lines as there are messages.
pub proof fn transcripts_have_a_line_for_each_message(history: Seq<Said>, n: int)
    requires
        0 <= n <= history.len(),
    ensures
        newlines(transcript(history, n), 0) == n,
    decreases n,
{
    if n > 0 {
        transcripts_have_a_line_for_each_message(history, n - 1);
        let line = json_line(history[n - 1]);
        messages_take_one_line(history[n - 1]);
        lemma_one_newline(history[n - 1], 0);
        lemma_newlines_add(transcript(history, n - 1), line, 0);
    }
}

/// The form of a text starts with that of its first character.
proof fn lemma_front(s: Seq<char>)
    requires
        s.len() > 0,
    ensures
        escaped(s) == escaped_char(s[0]) + escaped(s.drop_first()),
    decreases s.len(),
{
    if s.len() == 1 {
        assert(s.drop_last() =~= Seq::empty());
        assert(s.drop_first() =~= Seq::empty());
        assert(escaped(s) =~= escaped_char(s[0]) + escaped(s.drop_first()));
    } else {
        lemma_front(s.drop_last());
        assert(s.drop_last().drop_first() =~= s.drop_first().drop_last());
        assert(s.drop_first().last() == s.last());
        assert(escaped(s) =~= escaped_char(s[0]) + escaped(s.drop_first()));
    }
}

} // verus!
