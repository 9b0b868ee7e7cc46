//! What a conversation does from the outside: what the model gets to read, what
//! commands change, and what keys do.

use crate::chat::engine::{template_of, ChatTemplate, Conversation, Said};
use crate::chat::slash::{typed, Effect, Typed};
use crate::chat::turn::{is_end, TurnState};
use crate::chat::tui::{Key, Order, Role, Shown, Ui};
use crate::model::architecture::ForwardVariant;
use crate::text::{first_word, is_white, leading, trimmed, trimmed_end};
use crate::text_laws::{all_white, trimming_takes_white_space, words_in_front_are_first};
use vstd::prelude::*;

verus! {

/// A message of a ChatML transcript.
pub open spec fn marked(role: Seq<char>, text: Seq<char>) -> Seq<char> {
    "<|im_start|>"@ + role + "\n"@ + text + "<|im_end|>"@ + "\n"@
}

/// What a model that knows ChatML reads over two turns is a transcript of ChatML
/// messages: the system prompt where there is one, the first question, the reply, the
/// next question, and the opening of the next reply.
pub proof fn chat_ml_turns_make_a_transcript(
    c: Conversation,
    user: Seq<char>,
    reply: Seq<char>,
    next: Seq<char>,
)
    requires
        c.template == ChatTemplate::ChatMl,
        c.history.len() == 0,
    ensures
        c.fragment(user) + reply + c.answered(user, reply).fragment(next) == (
        match c.system_prompt {
            Some(s) => marked("system"@, s),
            None => Seq::<char>::empty(),
        }) + marked("user"@, user) + marked("assistant"@, reply) + marked("user"@, next)
            + "<|im_start|>"@ + "assistant"@ + "\n"@,
{
    reveal_strlit("<|im_start|>");
    reveal_strlit("<|im_end|>");
    reveal_strlit("<|im_end|>\n");
    reveal_strlit("<|im_start|>user\n");
    reveal_strlit("<|im_start|>system\n");
    reveal_strlit("<|im_end|>\n<|im_start|>assistant\n");
    reveal_strlit("user");
    reveal_strlit("system");
    reveal_strlit("assistant");
    reveal_strlit("\n");
    let open = "<|im_start|>"@;
    let shut = "<|im_end|>"@ + "\n"@;
    assert("<|im_end|>\n"@ =~= shut);
    assert("<|im_start|>user\n"@ =~= open + "user"@ + "\n"@);
    assert("<|im_start|>system\n"@ =~= open + "system"@ + "\n"@);
    assert("<|im_end|>\n<|im_start|>assistant\n"@ =~= shut + open + "assistant"@ + "\n"@);
    let start = open + "assistant"@ + "\n"@;
    let ask = open + "user"@ + "\n"@ + user + (shut + open + "assistant"@ + "\n"@);
    let again = open + "user"@ + "\n"@ + next + (shut + open + "assistant"@ + "\n"@);
    assert(ask =~= marked("user"@, user) + start);
    assert(again =~= marked("user"@, next) + start);
    assert(start + reply + shut =~= marked("assistant"@, reply));
    match c.system_prompt {
        Some(s) => {
            assert(open + "system"@ + "\n"@ + s + shut =~= marked("system"@, s));
            assert(c.fragment(user) =~= marked("system"@, s) + ask);
            assert(c.fragment(user) + reply + (shut + again) =~= marked("system"@, s) + marked(
                "user"@,
                user,
            ) + (start + reply + shut) + again);
        },
        None => {
            assert(c.fragment(user) =~= ask);
            assert(c.fragment(user) + reply + (shut + again) =~= Seq::<char>::empty() + marked(
                "user"@,
                user,
            ) + (start + reply + shut) + again);
        },
    }
    assert(c.answered(user, reply).fragment(next) =~= shut + again);
    let front = (match c.system_prompt {
        Some(s) => marked("system"@, s),
        None => Seq::<char>::empty(),
    }) + marked("user"@, user) + marked("assistant"@, reply);
    assert(front + again =~= front + marked("user"@, next) + open + "assistant"@ + "\n"@);
}

/// What any other model reads over two turns is plain text in paragraphs, with a blank
/// line between them: the system prompt where there is one, then in turn what the person
/// and the assistant say, and the opening of the next reply.
pub proof fn plain_turns_make_paragraphs(
    c: Conversation,
    user: Seq<char>,
    reply: Seq<char>,
    next: Seq<char>,
)
    requires
        c.template == ChatTemplate::Bridge,
        c.history.len() == 0,
    ensures
        c.fragment(user) + reply + c.answered(user, reply).fragment(next) == (
        match c.system_prompt {
            Some(s) => s + "\n\n"@,
            None => Seq::<char>::empty(),
        }) + "Human: "@ + user + "\n\n"@ + "BITNETAssistant: "@ + reply + "\n\n"@ + "Human: "@
            + next + "\n\n"@ + "BITNETAssistant: "@,
{
    reveal_strlit("\n\n");
    reveal_strlit("Human: ");
    reveal_strlit("BITNETAssistant: ");
    reveal_strlit("\n\nHuman: ");
    reveal_strlit("\n\nBITNETAssistant: ");
    assert("\n\nHuman: "@ =~= "\n\n"@ + "Human: "@);
    assert("\n\nBITNETAssistant: "@ =~= "\n\n"@ + "BITNETAssistant: "@);
    let human = "Human: "@;
    let gap = "\n\n"@;
    let bot = "BITNETAssistant: "@;
    let a = c.fragment(user);
    let b = c.answered(user, reply).fragment(next);
    assert(b =~= (gap + human) + next + (gap + bot));
    match c.system_prompt {
        Some(s) => {
            assert(a =~= s + (gap + human) + user + (gap + bot));
            assert(a + reply + b =~= s + gap + human + user + gap + bot + reply + gap + human + next
                + gap + bot);
        },
        None => {
            assert(a =~= human + user + (gap + bot));
            assert(a + reply + b =~= Seq::<char>::empty() + human + user + gap + bot + reply + gap
                + human + next + gap + bot);
        },
    }
}

/// ChatML is for models of the classic family with a mark for the end of a message, and
/// for no others.
pub proof fn chat_ml_needs_its_mark(variant: ForwardVariant, im_end: Option<u32>)
    ensures
        template_of(variant, im_end) == ChatTemplate::ChatMl <==> (variant
            == ForwardVariant::VanillaLlama && im_end is Some),
        template_of(variant, None) == ChatTemplate::Bridge,
{
}

/// A turn adds the question and the reply, in this order, and keeps what was said before.
pub proof fn turns_are_recorded(c: Conversation, user: Seq<char>, reply: Seq<char>)
    ensures
        c.answered(user, reply).history.len() == c.history.len() + 2,
        c.answered(user, reply).history.take(c.history.len() as int) == c.history,
        c.answered(user, reply).history[c.history.len() as int] == (Said {
            role: crate::chat::engine::Role::User,
            content: user,
        }),
        c.answered(user, reply).history.last() == (Said {
            role: crate::chat::engine::Role::Assistant,
            content: reply,
        }),
        c.answered(user, reply).next_pos == c.next_pos,
        c.answered(user, reply).system_prompt == c.system_prompt,
{
    assert(c.answered(user, reply).history.take(c.history.len() as int) =~= c.history);
}

/// A reply ends with the end-of-text token of its model, with the mark for the end of a
/// message, and with the token by which Llama 3 ends a turn; any other token goes on,
/// and makes the reply longer by one.
pub proof fn replies_end_with_their_tokens(
    t: TurnState,
    token: u32,
    eos: Option<u32>,
    im_end: Option<u32>,
    bytes: Seq<u8>,
)
    ensures
        is_end(token, Some(token), im_end),
        is_end(token, eos, Some(token)),
        is_end(128009, eos, im_end),
        token != 128009 ==> !is_end(token, None, None),
        eos != Some(token) && im_end != Some(token) && token != 128009 ==> {
            let next = t.taken(token, eos, im_end, bytes);
            &&& next.emitted == t.emitted + 1
            &&& next.reply.bytes == t.reply.bytes + bytes
            &&& next.forwarded == t.forwarded
            &&& next.position() == t.position()
            &&& next.passed().position() == t.position() + 1
        },
        is_end(token, eos, im_end) ==> t.taken(token, eos, im_end, bytes).emitted == t.emitted,
{
}

/// A text without white space at its ends is trimmed already.
proof fn lemma_trimmed_already(s: Seq<char>)
    requires
        s.len() > 0 ==> !is_white(s[0]) && !is_white(s.last()),
    ensures
        trimmed(s) == s,
{
    if s.len() == 0 {
        assert(trimmed(s) =~= s);
    } else {
        assert(leading(s, 0) == 0);
        assert(s.skip(0) =~= s);
        assert(s.take(s.len() as int) =~= s);
        assert(trimmed_end(s) == s);
    }
}

/// What is typed is a command where its first character other than white space is a
/// slash, a message where it is another, and nothing where there is none. A message is
/// sent without the white space around it.
pub proof fn lines_are_told_apart(line: Seq<char>)
    ensures
        all_white(line) <==> typed(line) == Typed::Empty,
        typed(line) matches Typed::Message(s) ==> s == trimmed(line) && s.len() > 0 && s[0] != '/',
        typed(line) matches Typed::Command(s) ==> seq!['/'] + s == trimmed(line),
{
    trimming_takes_white_space(line);
    let t = trimmed(line);
    let (v, w) = choose|v: Seq<char>, w: Seq<char>| #[trigger]
        all_white(v) && #[trigger] all_white(w) && line == v + trimmed(line) + w;
    if t.len() > 0 {
        assert(line[v.len() as int] == t[0]);
        if t[0] == '/' {
            assert(seq!['/'] + t.skip(1) =~= t);
        }
    } else {
        assert(line =~= v + w);
    }
}

/// Only two commands change the conversation: one empties it and takes it back to its
/// start, the other one sets the system prompt.
pub proof fn commands_change_what_they_name(c: Conversation, line: Seq<char>)
    ensures
        first_word(line).0 == "reset"@ ==> c.slashed(line).0 == (Conversation {
            history: Seq::empty(),
            next_pos: 0,
            ..c
        }),
        first_word(line).0 == "sys"@ ==> (Conversation {
            system_prompt: c.system_prompt,
            ..c.slashed(line).0
        }) == c,
        first_word(line).0 != "reset"@ && first_word(line).0 != "sys"@ ==> c.slashed(line).0 == c,
        c.slashed(line).1 == Effect::Quit <==> (first_word(line).0 == "quit"@ || first_word(
            line,
        ).0 == "exit"@ || first_word(line).0 == "q"@),
        c.slashed(line).1 is Save ==> first_word(line).0 == "save"@,
{
    reveal_strlit("quit");
    reveal_strlit("exit");
    reveal_strlit("q");
    reveal_strlit("help");
    reveal_strlit("?");
    reveal_strlit("reset");
    reveal_strlit("history");
    reveal_strlit("save");
    reveal_strlit("sys");
    reveal_strlit("stats");
    assert("reset"@.len() == 5 && "sys"@.len() == 3 && "quit"@.len() == 4 && "exit"@.len() == 4);
    assert("q"@[0] == 'q' && "?"@[0] == '?');
    assert("history"@.len() == 7 && "stats"@.len() == 5 && "stats"@[0] == 's');
    assert("reset"@[0] == 'r' && "save"@[0] == 's' && "help"@[0] == 'h' && "quit"@[0] == 'q'
        && "exit"@[0] == 'e');
}

/// A system prompt that is set is the text behind the command, `off` takes it away, and
/// a transcript goes where the text behind its command says.
pub proof fn commands_take_the_text_behind_them(c: Conversation, text: Seq<char>)
    requires
        text.len() > 0,
        !is_white(text[0]),
        !is_white(text.last()),
    ensures
        text != "off"@ ==> c.slashed("sys"@ + seq![' '] + text).0.system_prompt == Some(text),
        c.slashed("sys"@ + seq![' '] + "off"@).0.system_prompt is None,
        c.slashed("save"@ + seq![' '] + text).1 == Effect::Save(text),
{
    reveal_strlit("quit");
    reveal_strlit("exit");
    reveal_strlit("q");
    reveal_strlit("help");
    reveal_strlit("?");
    reveal_strlit("reset");
    reveal_strlit("history");
    reveal_strlit("save");
    reveal_strlit("sys");
    reveal_strlit("off");
    assert(forall|i: int| 0 <= i < "sys"@.len() ==> !is_white(#[trigger] "sys"@[i]));
    assert(forall|i: int| 0 <= i < "save"@.len() ==> !is_white(#[trigger] "save"@[i]));
    words_in_front_are_first("sys"@, ' ', text);
    words_in_front_are_first("sys"@, ' ', "off"@);
    words_in_front_are_first("save"@, ' ', text);
    lemma_trimmed_already(text);
    lemma_trimmed_already("off"@);
    assert("sys"@.len() == 3 && "save"@.len() == 4 && "off"@.len() == 3);
    assert("save"@[0] == 's' && "quit"@[0] == 'q' && "exit"@[0] == 'e' && "help"@[0] == 'h');
    assert("reset"@.len() == 5 && "history"@.len() == 7 && "q"@.len() == 1 && "?"@.len() == 1);
}

/// A line that is entered is sent as a message where it is one: it goes to the model and
/// to the end of the conversation without the white space around it, the input is empty
/// again, and a reply is awaited.
pub proof fn entered_lines_are_sent(ui: Ui, now: int)
    requires
        !ui.generating,
        trimmed(ui.input).len() > 0,
        trimmed(ui.input)[0] != '/',
    ensures
        ({
            let (after, outcome) = ui.pressed(Key::Enter, now);
            &&& outcome.order == Some(Order::Send(trimmed(ui.input)))
            &&& !outcome.quit
            &&& after.history == ui.history.push(
                Shown { role: Role::User, content: trimmed(ui.input) },
            )
            &&& after.input.len() == 0
            &&& after.streaming.len() == 0
            &&& after.generating
            &&& after.scroll_back == 0
            &&& after.token_position == ui.token_position
        }),
{
}

/// Keys for single characters and for scrolling undo each other, a line of white space
/// does nothing but go away, and leaving is always possible.
pub proof fn keys_do_one_thing(ui: Ui, c: char, now: int)
    requires
        !ui.generating,
        0 <= ui.scroll_back <= u16::MAX,
    ensures
        ui.pressed(Key::Char(c), now).0.input == ui.input.push(c),
        ui.pressed(Key::Char(c), now).0.pressed(Key::Backspace, now).0 == ui,
        ui.scroll_back + 5 <= u16::MAX ==> ui.pressed(Key::PageUp, now).0.pressed(
            Key::PageDown,
            now,
        ).0 == ui,
        ui.pressed(Key::PageUp, now).0.scroll_back >= ui.scroll_back,
        ui.pressed(Key::PageDown, now).0.scroll_back <= ui.scroll_back,
        0 <= ui.pressed(Key::PageDown, now).0.scroll_back,
        ui.pressed(Key::PageUp, now).0.scroll_back <= u16::MAX,
        ui.input.len() == 0 ==> ui.pressed(Key::Backspace, now).0 == ui,
        ui.pressed(Key::Esc, now).1.quit,
        ui.pressed(Key::CtrlC, now).1.quit,
        (Ui { generating: true, ..ui }).pressed(Key::CtrlC, now).1.quit,
        ui.pressed(Key::Other, now).0 == ui,
        trimmed(ui.input).len() == 0 ==> ui.pressed(Key::Enter, now).0 == (Ui {
            input: Seq::empty(),
            ..ui
        }) && ui.pressed(Key::Enter, now).1.order is None && !ui.pressed(Key::Enter, now).1.quit,
{
    assert(ui.input.push(c).drop_last() =~= ui.input);
    assert(ui.pressed(Key::Char(c), now).0.pressed(Key::Backspace, now).0 =~= ui);
    assert(ui.scroll_back + 5 <= u16::MAX ==> ui.pressed(Key::PageUp, now).0.pressed(
        Key::PageDown,
        now,
    ).0 =~= ui);
}

/// Commands on the screen ask the model for one thing each: to start over, or to set or
/// take away the system prompt. One empties the screen; the others change at most what is
/// shown, and none sends a message.
pub proof fn screen_commands_do_one_thing(ui: Ui, cmd: Seq<char>, now: int)
    ensures
        ({
            let (head, rest) = first_word(cmd);
            let (after, outcome) = ui.commanded(cmd, now);
            &&& outcome.quit <==> (head == "quit"@ || head == "exit"@ || head == "q"@)
            &&& outcome.order == Some(Order::Reset) <==> head == "reset"@
            &&& outcome.order is Some ==> head == "reset"@ || head == "sys"@
            &&& head == "sys"@ && rest.len() > 0 && rest != "off"@ ==> outcome.order == Some(
                Order::SetSys(Some(rest)),
            )
            &&& head == "sys"@ && rest == "off"@ ==> outcome.order == Some(Order::SetSys(None))
            &&& head == "sys"@ && rest.len() == 0 ==> outcome.order is None
            &&& head == "clear"@ ==> after == (Ui { history: Seq::empty(), ..ui })
            &&& head != "clear"@ ==> ui.history.len() <= after.history.len()
                && after.history.take(ui.history.len() as int) == ui.history
            &&& after.input == ui.input
            &&& after.streaming == ui.streaming
            &&& after.generating == ui.generating
        }),
{
    reveal_strlit("quit");
    reveal_strlit("exit");
    reveal_strlit("q");
    reveal_strlit("help");
    reveal_strlit("?");
    reveal_strlit("reset");
    reveal_strlit("clear");
    reveal_strlit("sys");
    reveal_strlit("off");
    let (after, outcome) = ui.commanded(cmd, now);
    assert("reset"@.len() == 5 && "clear"@.len() == 5 && "sys"@.len() == 3 && "quit"@.len() == 4
        && "exit"@.len() == 4 && "help"@.len() == 4 && "q"@.len() == 1 && "?"@.len() == 1);
    assert("reset"@[0] == 'r' && "clear"@[0] == 'c' && "off"@.len() == 3);
    assert(first_word(cmd).0 != "clear"@ ==> after.history.take(ui.history.len() as int)
        =~= ui.history);
}

/// A reply that is complete becomes a message of the model, and keys are taken again.
pub proof fn finished_replies_are_kept(ui: Ui, timing: Seq<char>, chars: usize)
    ensures
        ui.finished(timing, chars).history == ui.history.push(
            Shown { role: Role::Bot, content: ui.streaming },
        ),
        ui.finished(timing, chars).streaming.len() == 0,
        !ui.finished(timing, chars).generating,
        ui.finished(timing, chars).last_turn_chars == Some(chars),
        ui.finished(timing, chars).input == ui.input,
        ui.finished(timing, chars).token_position == ui.token_position,
{
}

/// A hint stays for two and a half seconds, and nothing else changes when it goes.
pub proof fn hints_go_in_time(ui: Ui, hint: Seq<char>, shown: int, now: int)
    ensures
        now <= shown + 2500 ==> ui.flashed(hint, shown).settled(now).transient == Some(
            (hint, shown),
        ),
        now > shown + 2500 ==> ui.flashed(hint, shown).settled(now).transient is None,
        (Ui { transient: ui.transient, ..ui.flashed(hint, shown).settled(now) }) == ui,
{
}

} // verus!
