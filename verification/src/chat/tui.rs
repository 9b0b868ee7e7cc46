//! The screen of a conversation as a state machine: keys and events change the
//! state, and what is on the screen is made from it.

use crate::chat::markdown::{markdown_of, render_markdown_lines};
use crate::chat::span::{
    badge, joined_line, line1, line2, line_views, plain, push_line, stretch, tinted, SpanStyle,
    Stretch, StyledLine, StyledSpan, Tint,
};
use crate::quotient::{quotient, quotient_text};
use crate::text::{
    cat2, cat3, cat7, dec, decimal, first_word, is_one_of, owned, same_text, split_word, trim,
    trimmed, without_last,
};
use crate::cut::byte_len;
use vstd::prelude::*;
use vstd::utf8::encode_utf8;

verus! {

/// What the screen asks of the model's side.
#[derive(Debug)]
pub enum UserCmd {
    Send(String),
    Reset,
    SetSys(Option<String>),
    Shutdown,
}

/// What the screen asks, as a mathematical object.
pub enum Order {
    Send(Seq<char>),
    Reset,
    SetSys(Option<Seq<char>>),
    Shutdown,
}

impl View for UserCmd {
    type V = Order;

    open spec fn view(&self) -> Order {
        match self {
            UserCmd::Send(s) => Order::Send(s@),
            UserCmd::Reset => Order::Reset,
            UserCmd::SetSys(Some(s)) => Order::SetSys(Some(s@)),
            UserCmd::SetSys(None) => Order::SetSys(None),
            UserCmd::Shutdown => Order::Shutdown,
        }
    }
}

/// What the model's side reports.
#[derive(Debug)]
pub enum TokenEvent {
    /// More of the reply.
    Chunk(String),
    /// The reply is complete; how long it took, in words.
    Done { timing: String, chars: usize },
    Failed(String),
    StateChanged { token_position: u32 },
}

/// Whose message is shown.
#[derive(Debug, Clone, Copy, PartialEq, Eq, Structural)]
pub enum Role {
    User,
    Bot,
    System,
}

/// The label of a role.
pub open spec fn label_of(role: Role) -> Seq<char> {
    match role {
        Role::User => "USR"@,
        Role::Bot => "BOT"@,
        Role::System => "SYS"@,
    }
}

/// The colour of a role.
pub open spec fn color_of(role: Role) -> Tint {
    match role {
        Role::User => Tint::Cyan,
        Role::Bot => Tint::Green,
        Role::System => Tint::Magenta,
    }
}

impl Role {
    /// The label of the role.
    pub fn label(self) -> (r: &'static str)
        ensures
            r@ == label_of(self),
    {
        match self {
            Role::User => "USR",
            Role::Bot => "BOT",
            Role::System => "SYS",
        }
    }

    /// The colour of the role.
    pub fn color(self) -> (r: Tint)
        ensures
            r == color_of(self),
    {
        match self {
            Role::User => Tint::Cyan,
            Role::Bot => Tint::Green,
            Role::System => Tint::Magenta,
        }
    }
}

/// A message on the screen.
#[derive(Debug)]
pub struct DisplayMsg {
    pub role: Role,
    pub content: String,
}

/// A message on the screen, as a mathematical object.
pub struct Shown {
    pub role: Role,
    pub content: Seq<char>,
}

impl View for DisplayMsg {
    type V = Shown;

    open spec fn view(&self) -> Shown {
        Shown { role: self.role, content: self.content@ }
    }
}

/// The messages that a list stands for.
pub open spec fn shown_views(msgs: Seq<DisplayMsg>) -> Seq<Shown> {
    msgs.map_values(|m: DisplayMsg| m@)
}

/// A key that was pressed.
#[derive(Debug, Clone, Copy, PartialEq, Eq, Structural)]
pub enum Key {
    CtrlC,
    Esc,
    Enter,
    Backspace,
    Char(char),
    PageUp,
    PageDown,
    Other,
}

/// The state of the screen.
#[derive(Debug)]
pub struct UiState {
    pub history: Vec<DisplayMsg>,
    /// The reply that is arriving.
    pub streaming: String,
    pub input: String,
    pub status: String,
    /// A reply is arriving.
    pub generating: bool,
    pub token_position: u32,
    pub max_seq_len: usize,
    pub last_turn_chars: Option<usize>,
    pub scroll_back: u16,
    /// A hint, and when it appeared, in milliseconds.
    pub transient: Option<(String, u64)>,
}

/// The state of the screen as a mathematical object.
#[verifier::ext_equal]
pub struct Ui {
    pub history: Seq<Shown>,
    pub streaming: Seq<char>,
    pub input: Seq<char>,
    pub status: Seq<char>,
    pub generating: bool,
    pub token_position: int,
    pub max_seq_len: int,
    pub last_turn_chars: Option<usize>,
    pub scroll_back: int,
    pub transient: Option<(Seq<char>, int)>,
}

impl View for UiState {
    type V = Ui;

    open spec fn view(&self) -> Ui {
        Ui {
            history: shown_views(self.history@),
            streaming: self.streaming@,
            input: self.input@,
            status: self.status@,
            generating: self.generating,
            token_position: self.token_position as int,
            max_seq_len: self.max_seq_len as int,
            last_turn_chars: self.last_turn_chars,
            scroll_back: self.scroll_back as int,
            transient: match self.transient {
                Some((s, t)) => Some((s@, t as int)),
                None => None,
            },
        }
    }
}

/// What follows from a key: whether the program ends, and what is asked of the
/// model's side.
pub struct Outcome {
    pub quit: bool,
    pub order: Option<Order>,
}

/// Nothing follows.
pub open spec fn nothing() -> Outcome {
    Outcome { quit: false, order: None }
}

/// The program ends.
pub open spec fn quitting() -> Outcome {
    Outcome { quit: true, order: None }
}

/// The model's side is asked for something.
pub open spec fn asking(order: Order) -> Outcome {
    Outcome { quit: false, order: Some(order) }
}

/// What follows from a key.
#[derive(Debug)]
pub struct KeyOutcome {
    pub quit: bool,
    pub command: Option<UserCmd>,
}

impl View for KeyOutcome {
    type V = Outcome;

    open spec fn view(&self) -> Outcome {
        Outcome {
            quit: self.quit,
            order: match self.command {
                Some(c) => Some(c@),
                None => None,
            },
        }
    }
}

impl Ui {
    /// A hint appears.
    pub open spec fn flashed(self, s: Seq<char>, now: int) -> Ui {
        Ui { transient: Some((s, now)), ..self }
    }

    /// A message appears.
    pub open spec fn with(self, role: Role, content: Seq<char>) -> Ui {
        Ui { history: self.history.push(Shown { role, content }), ..self }
    }

    /// The reply is complete.
    pub open spec fn finished(self, timing: Seq<char>, chars: usize) -> Ui {
        Ui {
            streaming: Seq::empty(),
            generating: false,
            last_turn_chars: Some(chars),
            status: "idle · last turn "@ + timing,
            ..self.with(Role::Bot, self.streaming)
        }
    }

    /// The reply broke off; what had arrived stays.
    pub open spec fn failed(self, why: Seq<char>) -> Ui {
        let kept = if self.streaming.len() == 0 {
            self
        } else {
            self.with(Role::Bot, self.streaming)
        };
        Ui { streaming: Seq::empty(), generating: false, status: "error: "@ + why, ..kept }
    }

    /// Hints go after two and a half seconds.
    pub open spec fn settled(self, now: int) -> Ui {
        match self.transient {
            Some((_, when)) => if now - when > 2500 {
                Ui { transient: None, ..self }
            } else {
                self
            },
            None => self,
        }
    }

    /// A message is sent.
    pub open spec fn sent(self, line: Seq<char>) -> Ui {
        Ui {
            streaming: Seq::empty(),
            generating: true,
            status: "generating…"@,
            scroll_back: 0,
            ..self.with(Role::User, line)
        }
    }

    /// A command is given.
    pub open spec fn commanded(self, cmd: Seq<char>, now: int) -> (Ui, Outcome) {
        let (head, rest) = first_word(cmd);
        if head == "quit"@ || head == "exit"@ || head == "q"@ {
            (self, quitting())
        } else if head == "help"@ || head == "?"@ {
            (
                self.with(
                    Role::System,
                    "Commands: /help /reset /sys <text|off> /clear /quit  ·  PgUp/PgDn scrolls"@,
                ),
                nothing(),
            )
        } else if head == "reset"@ {
            (
                self.with(Role::System, "[history cleared; KV cache reset]"@),
                asking(Order::Reset),
            )
        } else if head == "clear"@ {
            (Ui { history: Seq::empty(), ..self }, nothing())
        } else if head == "sys"@ {
            if rest.len() == 0 {
                (self.flashed("usage: /sys <text>  or  /sys off"@, now), nothing())
            } else if rest == "off"@ {
                (
                    self.with(Role::System, "[system prompt cleared]"@),
                    asking(Order::SetSys(None)),
                )
            } else {
                (
                    self.with(
                        Role::System,
                        "[system prompt set ("@ + dec(encode_utf8(rest).len() as int)
                            + " chars) — takes effect after next /reset]"@,
                    ),
                    asking(Order::SetSys(Some(rest))),
                )
            }
        } else {
            (
                self.flashed("unknown command: /"@ + head + " (try /help)"@, now),
                nothing(),
            )
        }
    }

    /// The line is entered.
    pub open spec fn entered(self, now: int) -> (Ui, Outcome) {
        let line = trimmed(self.input);
        let cleared = Ui { input: Seq::empty(), ..self };
        if line.len() == 0 {
            (cleared, nothing())
        } else if line[0] == '/' {
            cleared.commanded(line.skip(1), now)
        } else {
            (cleared.sent(line), asking(Order::Send(line)))
        }
    }

    /// A key is pressed.
    pub open spec fn pressed(self, key: Key, now: int) -> (Ui, Outcome) {
        if key == Key::CtrlC {
            (self, quitting())
        } else if self.generating {
            if key == Key::Esc {
                (
                    self.flashed(
                        "(Esc ignored mid-turn — Stage 9-E doesn't support cancel yet)"@,
                        now,
                    ),
                    nothing(),
                )
            } else {
                (self, nothing())
            }
        } else {
            match key {
                Key::Esc => (self, quitting()),
                Key::Enter => self.entered(now),
                Key::Backspace => (
                    Ui {
                        input: if self.input.len() == 0 {
                            self.input
                        } else {
                            self.input.drop_last()
                        },
                        ..self
                    },
                    nothing(),
                ),
                Key::Char(c) => (Ui { input: self.input.push(c), ..self }, nothing()),
                Key::PageUp => (
                    Ui {
                        scroll_back: if self.scroll_back + 5 > u16::MAX {
                            u16::MAX as int
                        } else {
                            self.scroll_back + 5
                        },
                        ..self
                    },
                    nothing(),
                ),
                Key::PageDown => (
                    Ui {
                        scroll_back: if self.scroll_back < 5 {
                            0
                        } else {
                            self.scroll_back - 5
                        },
                        ..self
                    },
                    nothing(),
                ),
                _ => (self, nothing()),
            }
        }
    }
}

/// Nothing follows.
fn no_outcome() -> (r: KeyOutcome)
    ensures
        r@ == nothing(),
{
    KeyOutcome { quit: false, command: None }
}

impl UiState {
    /// The screen before anything was said.
    pub fn new(max_seq_len: usize) -> (u: Self)
        ensures
            u@ == (Ui {
                history: Seq::empty(),
                streaming: Seq::empty(),
                input: Seq::empty(),
                status: "idle · type, then Enter"@,
                generating: false,
                token_position: 0,
                max_seq_len: max_seq_len as int,
                last_turn_chars: None,
                scroll_back: 0,
                transient: None,
            }),
    {
        let u = UiState {
            history: Vec::new(),
            streaming: String::new(),
            input: String::new(),
            status: owned("idle · type, then Enter"),
            generating: false,
            token_position: 0,
            max_seq_len,
            last_turn_chars: None,
            scroll_back: 0,
            transient: None,
        };
        proof {
            assert(u@.history =~= Seq::empty());
            assert(u@.streaming =~= Seq::empty());
            assert(u@.input =~= Seq::empty());
        }
        u
    }

    /// Shows a hint.
    pub fn flash(&mut self, msg: String, now: u64)
        ensures
            final(self)@ == old(self)@.flashed(msg@, now as int),
    {
        self.transient = Some((msg, now));
    }

    /// Shows a message.
    fn show(&mut self, role: Role, content: String)
        ensures
            final(self)@ == old(self)@.with(role, content@),
    {
        let ghost before = self.history@;
        self.history.push(DisplayMsg { role, content });
        proof {
            assert(shown_views(self.history@) =~= shown_views(before).push(
                Shown { role, content: content@ },
            ));
        }
    }

    /// Takes the reply that is arriving.
    fn take_streaming(&mut self) -> (s: String)
        ensures
            s@ == old(self)@.streaming,
            final(self)@ == (Ui { streaming: Seq::empty(), ..old(self)@ }),
    {
        let s = self.streaming.clone();
        self.streaming = String::new();
        proof {
            assert(self@.streaming =~= Seq::empty());
        }
        s
    }

    /// The reply is complete.
    fn finish_bot_turn(&mut self, timing: String, chars: usize)
        ensures
            final(self)@ == old(self)@.finished(timing@, chars),
    {
        let resp = self.take_streaming();
        self.show(Role::Bot, resp);
        self.generating = false;
        self.last_turn_chars = Some(chars);
        self.status = cat2("idle · last turn ", timing.as_str());
    }

    /// The reply broke off.
    fn fail_bot_turn(&mut self, msg: String)
        ensures
            final(self)@ == old(self)@.failed(msg@),
    {
        let partial = self.take_streaming();
        if !partial.as_str().is_empty() {
            self.show(Role::Bot, partial);
        }
        self.generating = false;
        self.status = cat2("error: ", msg.as_str());
    }

    /// An event from the model's side.
    pub fn apply_token_event(&mut self, evt: TokenEvent)
        ensures
            final(self)@ == match evt {
                TokenEvent::Chunk(c) => Ui { streaming: old(self)@.streaming + c@, ..old(self)@ },
                TokenEvent::Done { timing, chars } => old(self)@.finished(timing@, chars),
                TokenEvent::Failed(msg) => old(self)@.failed(msg@),
                TokenEvent::StateChanged { token_position } => Ui {
                    token_position: token_position as int,
                    ..old(self)@
                },
            },
    {
        match evt {
            TokenEvent::Chunk(c) => {
                self.streaming.append(c.as_str());
            },
            TokenEvent::Done { timing, chars } => {
                self.finish_bot_turn(timing, chars);
            },
            TokenEvent::Failed(msg) => {
                self.fail_bot_turn(msg);
            },
            TokenEvent::StateChanged { token_position } => {
                self.token_position = token_position;
            },
        }
    }

    /// Removes a hint that has been shown long enough.
    pub fn clear_transient_if_old(&mut self, now: u64)
        ensures
            final(self)@ == old(self)@.settled(now as int),
    {
        let old_enough = match &self.transient {
            Some((_, when)) => now > *when && now - *when > 2500,
            None => false,
        };
        if old_enough {
            self.transient = None;
        }
    }

    /// A command is given.
    #[verifier::rlimit(40)]
    fn handle_slash(&mut self, cmd: &str, now: u64) -> (r: KeyOutcome)
        ensures
            (final(self)@, r@) == old(self)@.commanded(cmd@, now as int),
    {
        let (head, rest) = split_word(cmd);
        let word = head.as_str();
        if is_one_of(word, "quit", "exit", "q") {
            return KeyOutcome { quit: true, command: None };
        }
        if same_text(word, "help") || same_text(word, "?") {
            self.show(
                Role::System,
                owned("Commands: /help /reset /sys <text|off> /clear /quit  ·  PgUp/PgDn scrolls"),
            );
            return no_outcome();
        }
        if same_text(word, "reset") {
            self.show(Role::System, owned("[history cleared; KV cache reset]"));
            return KeyOutcome { quit: false, command: Some(UserCmd::Reset) };
        }
        if same_text(word, "clear") {
            self.history = Vec::new();
            proof {
                assert(self@.history =~= Seq::empty());
            }
            return no_outcome();
        }
        if same_text(word, "sys") {
            if rest.as_str().is_empty() {
                self.flash(owned("usage: /sys <text>  or  /sys off"), now);
                return no_outcome();
            }
            if same_text(rest.as_str(), "off") {
                self.show(Role::System, owned("[system prompt cleared]"));
                return KeyOutcome { quit: false, command: Some(UserCmd::SetSys(None)) };
            }
            let n = decimal(byte_len(rest.as_str()) as u64);
            self.show(
                Role::System,
                cat3(
                    "[system prompt set (",
                    n.as_str(),
                    " chars) — takes effect after next /reset]",
                ),
            );
            return KeyOutcome { quit: false, command: Some(UserCmd::SetSys(Some(rest))) };
        }
        self.flash(cat3("unknown command: /", word, " (try /help)"), now);
        no_outcome()
    }

    /// The line is entered.
    fn enter(&mut self, now: u64) -> (r: KeyOutcome)
        ensures
            (final(self)@, r@) == old(self)@.entered(now as int),
    {
        let line = trim(self.input.as_str());
        self.input = String::new();
        proof {
            assert(self@.input =~= Seq::empty());
        }
        if line.as_str().is_empty() {
            return no_outcome();
        }
        if line.as_str().get_char(0) == '/' {
            let n: usize = line.as_str().unicode_len();
            let cmd = line.as_str().substring_char(1, n);
            proof {
                assert(cmd@ =~= line@.skip(1));
            }
            return self.handle_slash(cmd, now);
        }
        let copy = line.clone();
        self.show(Role::User, copy);
        self.streaming = String::new();
        self.generating = true;
        self.status = owned("generating…");
        self.scroll_back = 0;
        proof {
            assert(self@.streaming =~= Seq::empty());
        }
        KeyOutcome { quit: false, command: Some(UserCmd::Send(line)) }
    }

    /// A key is pressed.
    pub fn handle_key(&mut self, key: Key, now: u64) -> (r: KeyOutcome)
        ensures
            (final(self)@, r@) == old(self)@.pressed(key, now as int),
    {
        if key == Key::CtrlC {
            return KeyOutcome { quit: true, command: None };
        }
        if self.generating {
            if key == Key::Esc {
                self.flash(
                    owned("(Esc ignored mid-turn — Stage 9-E doesn't support cancel yet)"),
                    now,
                );
            }
            return no_outcome();
        }
        match key {
            Key::Esc => KeyOutcome { quit: true, command: None },
            Key::Enter => self.enter(now),
            Key::Backspace => {
                self.input = without_last(self.input.as_str());
                no_outcome()
            },
            Key::Char(c) => {
                self.input.push(c);
                no_outcome()
            },
            Key::PageUp => {
                self.scroll_back = if self.scroll_back > 65530 {
                    u16::MAX
                } else {
                    self.scroll_back + 5
                };
                no_outcome()
            },
            Key::PageDown => {
                self.scroll_back = if self.scroll_back < 5 {
                    0
                } else {
                    self.scroll_back - 5
                };
                no_outcome()
            },
            _ => no_outcome(),
        }
    }
}

/// The lines of a message, without its badge.
pub open spec fn body_of(role: Role, content: Seq<char>) -> Seq<Seq<Stretch>> {
    if role == Role::Bot {
        markdown_of(content)
    } else {
        seq![seq![stretch(content, plain())]]
    }
}

/// A line of a message: the first one has the badge in front, the others an
/// indent.
pub open spec fn message_line(role: Role, body: Seq<Seq<Stretch>>, i: int) -> Seq<Stretch> {
    if i == 0 {
        seq![
            stretch(" "@ + label_of(role) + " "@, badge(color_of(role))),
            stretch(" "@, plain()),
        ] + body[0]
    } else {
        seq![stretch("      "@, plain())] + body[i]
    }
}

/// The lines of a message.
pub open spec fn message_lines(role: Role, content: Seq<char>) -> Seq<Seq<Stretch>> {
    let body = body_of(role, content);
    Seq::new(body.len(), |i: int| message_line(role, body, i))
}

/// The lines of a reply that is arriving: a cursor stands at the end.
pub open spec fn with_cursor_mark(lines: Seq<Seq<Stretch>>) -> Seq<Seq<Stretch>> {
    lines.drop_last().push(lines.last().push(stretch(" ▌"@, tinted(Tint::Green))))
}

/// A text has at least one line.
proof fn lemma_has_lines(s: Seq<char>)
    ensures
        markdown_of(s).len() >= 1,
{
}

/// Adds the lines of a message.
fn append_message_lines(lines: &mut Vec<StyledLine>, role: Role, content: &str, with_cursor: bool)
    ensures
        line_views(final(lines)@) == line_views(old(lines)@) + if with_cursor {
            with_cursor_mark(message_lines(role, content@))
        } else {
            message_lines(role, content@)
        },
{
    let body = if role == Role::Bot {
        render_markdown_lines(content)
    } else {
        let mut one: Vec<StyledLine> = Vec::new();
        push_line(&mut one, line1(StyledSpan::new(owned(content), SpanStyle::raw())));
        proof {
            assert(line_views(one@) =~= body_of(role, content@));
        }
        one
    };
    proof {
        lemma_has_lines(content@);
    }
    let ghost all = message_lines(role, content@);
    let ghost start = line_views(lines@);
    let ghost parts = body_of(role, content@);
    let n: usize = body.len();
    let mut i: usize = 0;
    proof {
        assert(line_views(body@) == parts);
        assert(start + all.take(0) =~= start);
    }
    while i < n
        invariant
            i <= n,
            n == body@.len(),
            n == all.len(),
            n >= 1,
            line_views(body@) == parts,
            parts == body_of(role, content@),
            all == message_lines(role, content@),
            line_views(lines@) == if with_cursor && i == n {
                start + with_cursor_mark(all)
            } else {
                start + all.take(i as int)
            },
        decreases n - i,
    {
        proof {
            assert(line_views(body@)[i as int] == body@[i as int]@);
        }
        let mut line = if i == 0 {
            let mark = cat3(" ", role.label(), " ");
            let head = line2(
                StyledSpan::new(mark, SpanStyle::badge(role.color())),
                StyledSpan::new(owned(" "), SpanStyle::raw()),
            );
            joined_line(head, &body[i])
        } else {
            let head = line1(StyledSpan::new(owned("      "), SpanStyle::raw()));
            joined_line(head, &body[i])
        };
        let ghost made = line@;
        proof {
            assert(made == all[i as int]);
        }
        if with_cursor && i + 1 == n {
            line.spans.push(StyledSpan::new(owned(" ▌"), SpanStyle::colored(Tint::Green)));
            proof {
                assert(line@ =~= made.push(stretch(" ▌"@, tinted(Tint::Green))));
            }
        }
        let ghost so_far = line_views(lines@);
        push_line(lines, line);
        i = i + 1;
        proof {
            assert(so_far == start + all.take(i - 1));
            if with_cursor && i == n {
                assert(all.take(i - 1) =~= all.drop_last());
                assert(line_views(lines@) =~= start + with_cursor_mark(all));
            } else {
                assert(line_views(lines@) =~= start + all.take(i as int));
            }
        }
    }
    proof {
        assert(all.take(n as int) =~= all);
    }
}

/// The lines of the first `n` messages, with an empty line behind each.
pub open spec fn history_lines(history: Seq<Shown>, n: int) -> Seq<Seq<Stretch>>
    decreases n,
{
    if n <= 0 {
        Seq::empty()
    } else {
        (history_lines(history, n - 1) + message_lines(
            history[n - 1].role,
            history[n - 1].content,
        )).push(seq![stretch(""@, plain())])
    }
}

/// The lines of the conversation.
pub open spec fn conversation_lines(ui: Ui) -> Seq<Seq<Stretch>> {
    let past = history_lines(ui.history, ui.history.len() as int);
    if ui.streaming.len() > 0 || ui.generating {
        past + with_cursor_mark(message_lines(Role::Bot, ui.streaming))
    } else {
        past
    }
}

/// The title of the conversation, with how much of the context is used.
pub open spec fn title_of(ui: Ui) -> Seq<char> {
    " Project Willamette — BitNet b1.58 chat   ·   ctx "@ + dec(ui.token_position) + "/"@ + dec(
        ui.max_seq_len,
    ) + "  ("@ + (if ui.max_seq_len > 0 {
        quotient(100 * ui.token_position, ui.max_seq_len, 0)
    } else {
        "0"@
    }) + "%) "@
}

/// The status line.
pub open spec fn status_of(ui: Ui) -> Seq<char> {
    match ui.transient {
        Some((s, _)) => "  "@ + s,
        None => "  "@ + ui.status + "   ·   /help · Ctrl-C exit · PgUp/PgDn scroll"@,
    }
}

/// The input line.
pub open spec fn input_of(ui: Ui) -> Seq<char> {
    (if ui.generating {
        "  (busy) "@
    } else {
        "  > "@
    }) + ui.input + "_"@
}

/// What is on the screen.
#[derive(Debug)]
pub struct Screen {
    pub lines: Vec<StyledLine>,
    pub title: String,
    pub status: String,
    pub status_color: Tint,
    pub input: String,
}

/// What is on the screen in a state.
pub fn render(ui: &UiState) -> (r: Screen)
    ensures
        line_views(r.lines@) == conversation_lines(ui@),
        r.title@ == title_of(ui@),
        r.status@ == status_of(ui@),
        r.status_color == if ui@.generating {
            Tint::Yellow
        } else {
            Tint::Gray
        },
        r.input@ == input_of(ui@),
{
    let mut lines: Vec<StyledLine> = Vec::new();
    let mut i: usize = 0;
    proof {
        assert(line_views(lines@) =~= history_lines(ui@.history, 0));
    }
    while i < ui.history.len()
        invariant
            i <= ui.history@.len(),
            line_views(lines@) == history_lines(ui@.history, i as int),
        decreases ui.history.len() - i,
    {
        proof {
            assert(ui@.history[i as int] == ui.history@[i as int]@);
        }
        append_message_lines(
            &mut lines,
            ui.history[i].role,
            ui.history[i].content.as_str(),
            false,
        );
        push_line(&mut lines, line1(StyledSpan::new(owned(""), SpanStyle::raw())));
        i = i + 1;
    }
    if !ui.streaming.as_str().is_empty() || ui.generating {
        append_message_lines(&mut lines, Role::Bot, ui.streaming.as_str(), true);
    }
    let share = if ui.max_seq_len > 0 {
        quotient_text(100 * (ui.token_position as u64), ui.max_seq_len as u64, 0)
    } else {
        owned("0")
    };
    let position = decimal(ui.token_position as u64);
    let limit = decimal(ui.max_seq_len as u64);
    let title = cat7(
        " Project Willamette — BitNet b1.58 chat   ·   ctx ",
        position.as_str(),
        "/",
        limit.as_str(),
        "  (",
        share.as_str(),
        "%) ",
    );
    let status = match &ui.transient {
        Some((msg, _)) => cat2("  ", msg.as_str()),
        None => cat3("  ", ui.status.as_str(), "   ·   /help · Ctrl-C exit · PgUp/PgDn scroll"),
    };
    let status_color = if ui.generating {
        Tint::Yellow
    } else {
        Tint::Gray
    };
    let input = if ui.generating {
        cat3("  (busy) ", ui.input.as_str(), "_")
    } else {
        cat3("  > ", ui.input.as_str(), "_")
    };
    Screen { lines, title, status, status_color, input }
}

/// While a reply is arriving no key changes the conversation or the input: only
/// Ctrl-C does anything but show a hint.
pub proof fn keys_wait_for_the_reply(ui: Ui, key: Key, now: int)
    requires
        ui.generating,
        key != Key::CtrlC,
    ensures
        ui.pressed(key, now).1 == nothing(),
        (Ui { transient: ui.transient, ..ui.pressed(key, now).0 }) == ui,
{
}

/// A reply that fails keeps what had arrived, and input is taken again.
pub proof fn failed_replies_are_kept(ui: Ui, why: Seq<char>)
    ensures
        !ui.failed(why).generating,
        ui.streaming.len() > 0 ==> ui.failed(why).history == ui.history.push(
            Shown { role: Role::Bot, content: ui.streaming },
        ),
        ui.streaming.len() == 0 ==> ui.failed(why).history == ui.history,
{
}

} // verus!
