//! Conversations: what is sent, what is shown, and the commands.

use willamette::chat::engine::{ChatEngine, ChatTemplate, WorkerProgress};
use willamette::chat::input_editor::InputEditor;
use willamette::chat::reply::{ends_reply, Reply, ReplyStep, LLAMA3_EOT_ID};
use willamette::chat::slash::{
    handle_slash_command, history_jsonl, read_chat_line, ChatLine, SlashOutcome,
};
use willamette::chat::span::Tint;
use willamette::chat::tui::{render, Key, Role, TokenEvent, UiState, UserCmd};
use willamette::chat::turn::{Turn, TurnStep};
use willamette::model::architecture::ForwardVariant;
use willamette::model::ModelConfig;

fn config() -> ModelConfig {
    ModelConfig {
        architecture: "bitnet-b1.58".to_string(),
        block_count: 3,
        embedding_length: 8,
        feed_forward_length: 16,
        context_length: 32,
        head_count: 4,
        head_count_kv: 2,
        head_dim: 2,
        kv_dim: 4,
        layer_norm_rms_epsilon: 1e-5_f32.to_bits(),
        rope_dimension_count: 2,
        rope_freq_base: 10_000.0_f32.to_bits(),
        vocab_size: 5,
    }
}

fn engine(template: ChatTemplate) -> ChatEngine {
    ChatEngine::new(&config(), 100, template)
}

#[test]
fn fragments_follow_the_template() {
    let mut e = engine(ChatTemplate::Bridge);
    assert_eq!(
        e.build_chat_fragment("hi"),
        ("Human: hi\n\nBITNETAssistant: ".to_string(), true)
    );
    e.set_system_prompt(Some("Be brief.".to_string()));
    assert_eq!(
        e.build_chat_fragment("hi").0,
        "Be brief.\n\nHuman: hi\n\nBITNETAssistant: "
    );
    e.record_turn("hi", "hello");
    assert_eq!(
        e.build_chat_fragment("more"),
        ("\n\nHuman: more\n\nBITNETAssistant: ".to_string(), false)
    );
    e.reset();
    assert_eq!(
        e.build_chat_fragment("hi").0,
        "Be brief.\n\nHuman: hi\n\nBITNETAssistant: "
    );

    let mut m = engine(ChatTemplate::ChatMl);
    m.set_system_prompt(Some("S".to_string()));
    assert_eq!(
        m.build_chat_fragment("u").0,
        "<|im_start|>system\nS<|im_end|>\n<|im_start|>user\nu<|im_end|>\n<|im_start|>assistant\n"
    );
    m.record_turn("u", "v");
    assert_eq!(
        m.build_chat_fragment("w").0,
        "<|im_end|>\n<|im_start|>user\nw<|im_end|>\n<|im_start|>assistant\n"
    );
}

#[test]
fn a_turn_must_fit_the_context() {
    let mut e = engine(ChatTemplate::Bridge);
    assert!(e.check_turn(10, 40, 50).is_ok());
    let text = e.check_turn(10, 40, 51).unwrap_err().message();
    assert!(
        text.contains(
            "chat: context budget exceeded — cache.position=10 + new prompt=40 + max_new_tokens=51 = 101 > max_seq_len=100"
        ),
        "{text}"
    );
    let text = e.check_turn(0, 0, 5).unwrap_err().message();
    assert!(text.contains("chat: user fragment encoded to zero tokens"), "{text}");
    e.advance(7);
    assert_eq!(e.token_position(), 7);
    assert_eq!(e.estimate_kv_cache_bytes(), 3 * 4 * 7 * 4 * 2);
    assert_eq!(e.config_n_layers(), 3);
    assert_eq!(e.config_architecture(), "bitnet-b1.58");
}

#[test]
fn progress_starts_and_ends_with_a_turn() {
    let mut p = WorkerProgress::new();
    p.cancel_requested = true;
    p.begin_turn(64, 123);
    assert_eq!((p.tokens_emitted, p.tokens_cap, p.turn_start_nanos), (0, 64, 123));
    assert!(!p.cancel_requested);
    p.end_turn();
    assert_eq!(p, WorkerProgress::new());
}

#[test]
fn a_reply_holds_back_what_may_become_a_mark() {
    let mut r = Reply::new();
    let mut shown = String::new();
    for part in ["This is a reply that is long enough to be shown. ", "And mo", "re."] {
        match r.feed(part.as_bytes()) {
            ReplyStep::Show(s) => shown.push_str(&s),
            ReplyStep::Stopped => panic!("no mark"),
        }
    }
    let whole = "This is a reply that is long enough to be shown. And more.";
    assert_eq!(shown.len(), whole.len() - 24);
    assert!(whole.starts_with(&shown));
    let end = r.finish();
    assert_eq!(format!("{shown}{}", end.rest), whole);
    assert_eq!(end.text, whole);
    assert!(!end.broken_off);
}

#[test]
fn a_reply_stops_at_a_mark_and_never_shows_it() {
    let mut r = Reply::new();
    let mut shown = String::new();
    let mut stopped = false;
    for part in ["Yes. ", "\n\nHu", "man: what now?"] {
        match r.feed(part.as_bytes()) {
            ReplyStep::Show(s) => shown.push_str(&s),
            ReplyStep::Stopped => {
                stopped = true;
                break;
            }
        }
    }
    assert!(stopped);
    assert!(r.is_stopped());
    let end = r.finish();
    shown.push_str(&end.rest);
    assert!(!shown.contains("Human"), "{shown}");
    assert!(shown.starts_with("Yes."));
}

#[test]
fn a_character_may_arrive_in_pieces() {
    let mut r = Reply::new();
    let bytes = "né".as_bytes();
    r.feed(&bytes[..2]);
    assert!(r.finish().broken_off);
    assert_eq!(r.finish().text, "n\u{fffd}");
    r.feed(&bytes[2..]);
    assert!(!r.finish().broken_off);
    assert_eq!(r.finish().text, "né");
}

#[test]
fn three_tokens_end_a_reply() {
    assert!(ends_reply(2, Some(2), None));
    assert!(ends_reply(7, Some(2), Some(7)));
    assert!(ends_reply(LLAMA3_EOT_ID, None, None));
    assert!(!ends_reply(3, Some(2), Some(7)));
}

fn lines(outcome: SlashOutcome) -> Vec<String> {
    match outcome {
        SlashOutcome::Continue(lines) => lines,
        other => panic!("unexpected {other:?}"),
    }
}

#[test]
fn commands_change_what_they_name() {
    let mut e = engine(ChatTemplate::Bridge);
    e.advance(25);
    e.record_turn("q", "a");
    assert_eq!(
        lines(handle_slash_command("stats", &mut e)),
        ["  position: 25/100 tokens  (25.0% used)", "  turns:    2 messages"]
    );
    assert_eq!(
        lines(handle_slash_command("history", &mut e)),
        ["  [ 0] USR | q", "  [ 1] BOT | a"]
    );
    assert_eq!(
        lines(handle_slash_command("sys  Be kind.", &mut e)),
        ["[system prompt set (8 chars) — takes effect from next /reset]"]
    );
    assert_eq!(e.system_prompt(), Some("Be kind."));
    assert_eq!(
        lines(handle_slash_command("sys off", &mut e)),
        ["[system prompt cleared]"]
    );
    assert_eq!(e.system_prompt(), None);
    assert_eq!(
        lines(handle_slash_command("reset", &mut e)),
        ["[history cleared; KV cache reset]"]
    );
    assert_eq!(e.token_position(), 0);
    assert_eq!(
        lines(handle_slash_command("history", &mut e)),
        ["[history is empty]"]
    );
    assert_eq!(lines(handle_slash_command("save", &mut e)), ["[usage: /save <path>]"]);
    assert!(matches!(
        handle_slash_command("save a b.jsonl", &mut e),
        SlashOutcome::Save(path) if path == "a b.jsonl"
    ));
    assert_eq!(
        lines(handle_slash_command("nope", &mut e)),
        ["[unknown command: /nope — try /help]"]
    );
    assert_eq!(lines(handle_slash_command("?", &mut e)).len(), 9);
    for word in ["quit", "exit", "q"] {
        assert!(matches!(handle_slash_command(word, &mut e), SlashOutcome::Quit));
    }
}

#[test]
fn a_transcript_has_one_line_for_each_message() {
    let mut e = engine(ChatTemplate::Bridge);
    e.record_turn("a \"b\"\n", "c\\d");
    assert_eq!(
        history_jsonl(e.history()),
        "{\"role\":\"user\",\"content\":\"a \\\"b\\\"\\n\"}\n{\"role\":\"assistant\",\"content\":\"c\\\\d\"}\n"
    );
}

#[test]
fn a_transcript_writes_control_characters_by_number() {
    let mut e = engine(ChatTemplate::Bridge);
    e.record_turn("\u{1}\u{8}\u{1f} \u{7f}é", "\t\r");
    assert_eq!(
        history_jsonl(e.history()),
        "{\"role\":\"user\",\"content\":\"\\u0001\\u0008\\u001F \u{7f}é\"}\n{\"role\":\"assistant\",\"content\":\"\\t\\r\"}\n"
    );
}

fn typed(ui: &mut UiState, text: &str) -> Option<UserCmd> {
    for c in text.chars() {
        ui.handle_key(Key::Char(c), 0);
    }
    ui.handle_key(Key::Enter, 0).command
}

#[test]
fn a_message_is_sent_and_answered() {
    let mut ui = UiState::new(2048);
    assert!(matches!(typed(&mut ui, "  hello "), Some(UserCmd::Send(s)) if s == "hello"));
    assert!(ui.generating);
    assert_eq!(ui.history.len(), 1);
    ui.apply_token_event(TokenEvent::Chunk("hi ".to_string()));
    ui.apply_token_event(TokenEvent::Chunk("there".to_string()));
    assert_eq!(ui.streaming, "hi there");
    let screen = render(&ui);
    assert_eq!(screen.input, "  (busy) _");
    assert_eq!(screen.status_color, Tint::Yellow);
    ui.apply_token_event(TokenEvent::Done {
        timing: "1.0s".to_string(),
        chars: 8,
    });
    assert!(!ui.generating);
    assert_eq!(ui.history[1].content, "hi there");
    assert_eq!(ui.status, "idle · last turn 1.0s");
    ui.apply_token_event(TokenEvent::StateChanged { token_position: 512 });
    let screen = render(&ui);
    assert_eq!(
        screen.title,
        " Project Willamette — BitNet b1.58 chat   ·   ctx 512/2048  (25%) "
    );
    assert_eq!(screen.input, "  > _");
}

#[test]
fn keys_wait_while_a_reply_arrives() {
    let mut ui = UiState::new(10);
    typed(&mut ui, "x");
    let r = ui.handle_key(Key::Char('y'), 5);
    assert!(!r.quit && r.command.is_none());
    assert_eq!(ui.input, "");
    ui.handle_key(Key::Esc, 5);
    assert!(ui.transient.is_some());
    ui.clear_transient_if_old(2505);
    assert!(ui.transient.is_some());
    ui.clear_transient_if_old(2506);
    assert!(ui.transient.is_none());
    assert!(ui.handle_key(Key::CtrlC, 6).quit);
    ui.apply_token_event(TokenEvent::Chunk("part".to_string()));
    ui.apply_token_event(TokenEvent::Failed("why".to_string()));
    assert_eq!(ui.history[1].content, "part");
    assert_eq!(ui.history[1].role, Role::Bot);
    assert_eq!(ui.status, "error: why");
    assert!(ui.handle_key(Key::Esc, 7).quit);
}

#[test]
fn screen_commands_and_scrolling() {
    let mut ui = UiState::new(10);
    assert!(matches!(typed(&mut ui, "/reset"), Some(UserCmd::Reset)));
    assert!(matches!(typed(&mut ui, "/sys off"), Some(UserCmd::SetSys(None))));
    assert!(matches!(
        typed(&mut ui, "/sys be nice"),
        Some(UserCmd::SetSys(Some(s))) if s == "be nice"
    ));
    assert!(typed(&mut ui, "/clear").is_none());
    assert!(ui.history.is_empty());
    assert!(typed(&mut ui, "/what").is_none());
    assert_eq!(
        ui.transient,
        Some(("unknown command: /what (try /help)".to_string(), 0))
    );
    ui.handle_key(Key::PageUp, 0);
    ui.handle_key(Key::PageUp, 0);
    ui.handle_key(Key::PageDown, 0);
    assert_eq!(ui.scroll_back, 5);
    ui.handle_key(Key::PageDown, 0);
    ui.handle_key(Key::PageDown, 0);
    assert_eq!(ui.scroll_back, 0);
    ui.scroll_back = u16::MAX - 2;
    ui.handle_key(Key::PageUp, 0);
    assert_eq!(ui.scroll_back, u16::MAX);
    ui.handle_key(Key::Char('é'), 0);
    ui.handle_key(Key::Backspace, 0);
    ui.handle_key(Key::Backspace, 0);
    assert_eq!(ui.input, "");
}

#[test]
fn editing_steps_undo_each_other() {
    let mut e = InputEditor::new();
    e.insert_str("aé");
    e.insert_char('z');
    e.backspace();
    assert_eq!(e.buffer(), "aé");
    let at = e.cursor_byte();
    e.move_left();
    e.move_right();
    assert_eq!(e.cursor_byte(), at);
    e.submit();
    e.insert_str("draft");
    e.history_prev();
    assert_eq!(e.buffer(), "aé");
    e.history_next();
    assert_eq!(e.buffer(), "draft");
    e.begin_search();
    e.search_input('a');
    e.search_cancel();
    assert_eq!(e.buffer(), "draft");
}

#[test]
fn a_turn_ends_where_it_must() {
    let mut t = Turn::begin(2, 10);
    assert!(t.wants_token(false));
    assert!(!t.wants_token(true));
    let long = "A first answer that is longer than what is held back.";
    match t.take(5, Some(2), None, long.as_bytes()) {
        TurnStep::Forward { position, show } => {
            assert_eq!(position, 10);
            assert_eq!(show, long[..long.len() - 24]);
        }
        TurnStep::End => panic!("not the end"),
    }
    assert!(!t.wants_token(false));
    t.passed();
    assert!(t.wants_token(false));
    assert!(matches!(
        t.take(6, Some(2), None, b" More."),
        TurnStep::Forward { position: 11, .. }
    ));
    t.passed();
    assert_eq!(t.emitted(), 2);
    assert!(!t.wants_token(false));
    assert_eq!(t.finish().text, format!("{long} More."));

    let mut ended = Turn::begin(5, 0);
    assert!(matches!(ended.take(2, Some(2), None, b"x"), TurnStep::End));
    assert!(!ended.wants_token(false));
    assert_eq!(ended.finish().text, "");
    assert_eq!(ended.emitted(), 0);

    let mut made_up = Turn::begin(5, 0);
    assert!(matches!(
        made_up.take(9, None, None, b"Yes. User: and now"),
        TurnStep::End
    ));
    assert_eq!(made_up.finish().text, "Yes.");
    assert!(!made_up.wants_token(false));
}

#[test]
fn templates_and_lines_are_told_apart() {
    let im_end = Some(7);
    assert_eq!(
        ChatTemplate::for_model(ForwardVariant::VanillaLlama, im_end),
        ChatTemplate::ChatMl
    );
    assert_eq!(
        ChatTemplate::for_model(ForwardVariant::VanillaLlama, None),
        ChatTemplate::Bridge
    );
    assert_eq!(
        ChatTemplate::for_model(ForwardVariant::BitNetSubNorm, im_end),
        ChatTemplate::Bridge
    );
    assert!(matches!(read_chat_line(" \r\n"), ChatLine::Empty));
    assert!(matches!(read_chat_line(" /sys x \n"), ChatLine::Command(c) if c == "sys x"));
    assert!(matches!(read_chat_line("hi /x\n"), ChatLine::Message(m) if m == "hi /x"));
}

#[test]
fn engines_tell_the_sizes_of_their_model() {
    let e = engine(ChatTemplate::Bridge);
    assert_eq!(e.config_n_embd(), config().embedding_length);
    assert_eq!(e.config_vocab_size(), 5);
}
