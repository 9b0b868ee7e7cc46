//! What the screen and the listings show of a conversation.

use crate::chat::engine::{Conversation, Role as Speaker, Said};
use crate::chat::reply::safe_chars;
use crate::chat::slash::{json_line, listing, listing_line, stats_lines, used_share};
use crate::chat::span::{plain, stretch};
use crate::chat::stops::{floor_cut, floor_cut_is_last, CHAT_STOP_LOOKAHEAD_BYTES};
use crate::chat::tui::{
    body_of, conversation_lines, history_lines, input_of, message_line, message_lines, status_of,
    title_of, with_cursor_mark, Key, Role, Shown, Ui,
};
use crate::cut::{is_cut, left_of, lemma_cut, lemma_encode_concat, lemma_parts, right_of};
use crate::quotient::{power_of_ten, quotient};
use crate::quotient_laws::exact_quotients_are_exact;
use crate::text::{dec, padded_left};
use vstd::prelude::*;
use vstd::utf8::*;

verus! {

/// The lines of a message are those of its text, one for one. The first has a badge of five
/// characters in front that tells who spoke, and a space; the others are indented by as much.
pub proof fn messages_have_a_badge(role: Role, content: Seq<char>, i: int)
    requires
        0 <= i < body_of(role, content).len(),
    ensures
        message_lines(role, content).len() == body_of(role, content).len(),
        i == 0 ==> {
            let line = message_lines(role, content)[0];
            &&& line.len() == body_of(role, content)[0].len() + 2
            &&& line.skip(2) == body_of(role, content)[0]
            &&& role == Role::User ==> line[0].content == " USR "@
            &&& role == Role::Bot ==> line[0].content == " BOT "@
            &&& role == Role::System ==> line[0].content == " SYS "@
            &&& line[1].content == " "@
        },
        i > 0 ==> {
            let line = message_lines(role, content)[i];
            &&& line.len() == body_of(role, content)[i].len() + 1
            &&& line.skip(1) == body_of(role, content)[i]
            &&& line[0].content.len() == " USR "@.len() + 1
        },
        role != Role::Bot ==> body_of(role, content).len() == 1 && body_of(role, content)[0].len()
            == 1 && body_of(role, content)[0][0].content == content,
{
    let body = body_of(role, content);
    reveal_strlit(" ");
    reveal_strlit("      ");
    reveal_strlit("USR");
    reveal_strlit("BOT");
    reveal_strlit("SYS");
    reveal_strlit(" USR ");
    reveal_strlit(" BOT ");
    reveal_strlit(" SYS ");
    assert(" "@ + "USR"@ + " "@ =~= " USR "@);
    assert(" "@ + "BOT"@ + " "@ =~= " BOT "@);
    assert(" "@ + "SYS"@ + " "@ =~= " SYS "@);
    if i == 0 {
        assert(message_line(role, body, 0).skip(2) =~= body[0]);
    } else {
        assert(message_line(role, body, i).skip(1) =~= body[i]);
    }
}

/// The history of a screen is that of its parts, one after the other, and another message is
/// shown behind the others, with an empty line behind it.
pub proof fn messages_are_shown_in_order(history: Seq<Shown>, m: Shown)
    ensures
        history_lines(history.push(m), history.len() as int + 1) == history_lines(
            history,
            history.len() as int,
        ) + message_lines(m.role, m.content) + seq![seq![stretch(""@, plain())]],
        history_lines(Seq::<Shown>::empty(), 0).len() == 0,
{
    lemma_same_history(history, history.push(m), history.len() as int);
    let past = history_lines(history, history.len() as int) + message_lines(m.role, m.content);
    assert(past.push(seq![stretch(""@, plain())]) =~= past + seq![seq![stretch(""@, plain())]]);
}

proof fn lemma_same_history(a: Seq<Shown>, b: Seq<Shown>, n: int)
    requires
        n <= a.len() <= b.len(),
        forall|i: int| 0 <= i < n ==> #[trigger] a[i] == b[i],
    ensures
        history_lines(a, n) == history_lines(b, n),
    decreases n,
{
    if n > 0 {
        lemma_same_history(a, b, n - 1);
    }
}

/// While a reply arrives it stands behind the history, and a mark shows where it goes on;
/// otherwise the history is all there is.
pub proof fn replies_are_shown_as_they_arrive(ui: Ui)
    requires
        message_lines(Role::Bot, ui.streaming).len() > 0,
    ensures
        !ui.generating && ui.streaming.len() == 0 ==> conversation_lines(ui) == history_lines(
            ui.history,
            ui.history.len() as int,
        ),
        ui.generating || ui.streaming.len() > 0 ==> {
            let past = history_lines(ui.history, ui.history.len() as int);
            let reply = message_lines(Role::Bot, ui.streaming);
            let all = conversation_lines(ui);
            &&& all.len() == past.len() + reply.len()
            &&& forall|i: int| 0 <= i < past.len() ==> #[trigger] all[i] == past[i]
            &&& forall|i: int|
                past.len() <= i < all.len() - 1 ==> #[trigger] all[i] == reply[i - past.len()]
            &&& all.last().drop_last() == reply.last()
            &&& all.last().last().content == " ▌"@
        },
{
    let reply = message_lines(Role::Bot, ui.streaming);
    let marked = with_cursor_mark(reply);
    assert(marked.last().drop_last() =~= reply.last());
}

/// A whole number of percent is shown as such.
proof fn lemma_percent(used: int, all: int, k: int)
    requires
        0 < all < 0x20_0000_0000_0000,
        0 <= k <= 100,
        100 * used == k * all,
        k * all < 0x20_0000_0000_0000,
    ensures
        quotient(100 * used, all, 0) == dec(k),
        quotient(100 * used, all, 1) == dec(k) + ".0"@,
{
    exact_quotients_are_exact(k, all, 0);
    exact_quotients_are_exact(k, all, 1);
    assert(power_of_ten(0) == 1 && power_of_ten(1) == 10);
    reveal_strlit(".");
    reveal_strlit(".0");
    assert(dec(0) =~= seq!['0']);
    assert((k * 10) / 10 == k && (k * 10) % 10 == 0);
    assert(padded_left(dec(0), '0', 1) =~= seq!['0']);
    assert("."@ + seq!['0'] =~= ".0"@);
    assert(quotient(k * all, all, 1) =~= dec(k) + ("."@ + seq!['0']));
}

/// The title and the statistics tell how much of the context is used: the positions taken,
/// all there are, and the share in percent.
pub proof fn used_context_is_shown(ui: Ui, c: Conversation, k: int)
    requires
        0 <= k <= 100,
        0 < ui.max_seq_len < 0x4000_0000_0000,
        0 < c.max_seq_len < 0x4000_0000_0000,
        100 * ui.token_position == k * ui.max_seq_len,
        100 * c.next_pos == k * c.max_seq_len,
    ensures
        title_of(ui) == " Project Willamette — BitNet b1.58 chat   ·   ctx "@ + dec(
            ui.token_position,
        ) + "/"@ + dec(ui.max_seq_len) + "  ("@ + dec(k) + "%) "@,
        used_share(c) == dec(k) + ".0"@,
        stats_lines(c).len() == 2,
{
    assert(k * ui.max_seq_len < 0x20_0000_0000_0000 && k * c.max_seq_len < 0x20_0000_0000_0000)
        by (nonlinear_arith)
        requires
            0 <= k <= 100,
            0 < ui.max_seq_len < 0x4000_0000_0000,
            0 < c.max_seq_len < 0x4000_0000_0000,
    ;
    lemma_percent(ui.token_position, ui.max_seq_len, k);
    lemma_percent(c.next_pos, c.max_seq_len, k);
}

/// What is typed stands in the input line, with a mark behind it; a hint takes the place of
/// the status.
pub proof fn input_is_shown(ui: Ui, c: char)
    ensures
        input_of(ui).last() == '_',
        input_of(Ui { input: ui.input.push(c), ..ui }) == input_of(ui).drop_last().push(c).push(
            '_',
        ),
        input_of(Ui { generating: true, ..ui }) != input_of(Ui { generating: false, ..ui }),
        ui.transient matches Some((hint, _)) ==> status_of(ui) == "  "@ + hint,
        ui.transient is None ==> status_of(ui).subrange(2, 2 + ui.status.len() as int) == ui.status,
{
    reveal_strlit("_");
    reveal_strlit("  > ");
    reveal_strlit("  (busy) ");
    reveal_strlit("  ");
    let more = Ui { input: ui.input.push(c), ..ui };
    assert(input_of(more) =~= input_of(ui).drop_last().push(c).push('_'));
    let busy = input_of(Ui { generating: true, ..ui });
    let free = input_of(Ui { generating: false, ..ui });
    assert(busy.len() == free.len() + 5);
    if ui.transient is None {
        assert(status_of(ui).subrange(2, 2 + ui.status.len() as int) =~= ui.status);
    }
}

/// What was said is listed line by line, with its number and who said it.
pub proof fn messages_are_listed(history: Seq<Said>, i: int)
    requires
        0 <= i < history.len(),
    ensures
        listing(history).len() == history.len(),
        listing(history)[i] == "  ["@ + padded_left(dec(i), ' ', 2) + (match history[i].role {
            Speaker::System => "] SYS | "@,
            Speaker::User => "] USR | "@,
            Speaker::Assistant => "] BOT | "@,
        }) + history[i].content,
{
    reveal_strlit("] ");
    reveal_strlit(" | ");
    reveal_strlit("SYS");
    reveal_strlit("USR");
    reveal_strlit("BOT");
    reveal_strlit("] SYS | ");
    reveal_strlit("] USR | ");
    reveal_strlit("] BOT | ");
    assert("] "@ + "SYS"@ + " | "@ =~= "] SYS | "@);
    assert("] "@ + "USR"@ + " | "@ =~= "] USR | "@);
    assert("] "@ + "BOT"@ + " | "@ =~= "] BOT | "@);
    let label = match history[i].role {
        Speaker::System => "SYS"@,
        Speaker::User => "USR"@,
        Speaker::Assistant => "BOT"@,
    };
    let start = "  ["@ + padded_left(dec(i), ' ', 2);
    assert(listing_line(history, i) =~= start + ("] "@ + label + " | "@) + history[i].content);
}

/// A line of a transcript names who spoke.
pub proof fn transcripts_name_the_speaker(m: Said)
    ensures
        json_line(m) == (match m.role {
            Speaker::System => "{\"role\":\"system\",\"content\":\""@,
            Speaker::User => "{\"role\":\"user\",\"content\":\""@,
            Speaker::Assistant => "{\"role\":\"assistant\",\"content\":\""@,
        }) + crate::chat::slash::escaped(m.content) + "\"}\n"@,
{
    reveal_strlit("{\"role\":\"");
    reveal_strlit("\",\"content\":\"");
    reveal_strlit("system");
    reveal_strlit("user");
    reveal_strlit("assistant");
    reveal_strlit("{\"role\":\"system\",\"content\":\"");
    reveal_strlit("{\"role\":\"user\",\"content\":\"");
    reveal_strlit("{\"role\":\"assistant\",\"content\":\"");
    assert("{\"role\":\""@ + "system"@ + "\",\"content\":\""@
        =~= "{\"role\":\"system\",\"content\":\""@);
    assert("{\"role\":\""@ + "user"@ + "\",\"content\":\""@
        =~= "{\"role\":\"user\",\"content\":\""@);
    assert("{\"role\":\""@ + "assistant"@ + "\",\"content\":\""@
        =~= "{\"role\":\"assistant\",\"content\":\""@);
}

/// Of a text that arrives as much is shown as leaves the bytes that are held back, and not
/// one character less.
pub proof fn shown_text_leaves_what_is_held_back(s: Seq<char>, k: int)
    requires
        0 <= k <= s.len(),
        encode_utf8(s.skip(k)).len() >= CHAT_STOP_LOOKAHEAD_BYTES,
        k < s.len() ==> encode_utf8(s.skip(k + 1)).len() < CHAT_STOP_LOOKAHEAD_BYTES,
    ensures
        safe_chars(s) == k,
{
    let n = encode_utf8(s).len() as int;
    assert(s.take(k) + s.skip(k) =~= s);
    lemma_encode_concat(s.take(k), s.skip(k));
    let limit = n - CHAT_STOP_LOOKAHEAD_BYTES;
    lemma_cut(s.take(k), s.skip(k));
    let at = encode_utf8(s.take(k)).len() as int;
    floor_cut_is_last(s, limit);
    let f = floor_cut(s, limit);
    assert(is_cut(s, at));
    assert(f >= at);
    lemma_parts(s, f);
    let p = left_of(s, f);
    let q = right_of(s, f);
    assert(p =~= s.take(p.len() as int));
    assert(q =~= s.skip(p.len() as int));
    lemma_encode_concat(p, q);
    if p.len() > k {
        let rest = s.skip(k + 1);
        assert(rest =~= s.subrange(k + 1, p.len() as int) + q);
        lemma_encode_concat(s.subrange(k + 1, p.len() as int), q);
        assert(false);
    } else if p.len() < k {
        assert(s.take(k) =~= p + s.subrange(p.len() as int, k));
        lemma_encode_concat(p, s.subrange(p.len() as int, k));
        crate::report_laws::lemma_some_bytes(s.subrange(p.len() as int, k));
        assert(false);
    }
}

/// A page is five rows; the view goes no further down than to the newest row.
pub proof fn pages_are_five_rows(ui: Ui, now: int)
    requires
        !ui.generating,
        0 <= ui.scroll_back,
        ui.scroll_back + 5 <= u16::MAX,
    ensures
        ui.pressed(Key::PageUp, now).0.scroll_back - ui.scroll_back == 5,
        ui.scroll_back >= 5 ==> ui.scroll_back - ui.pressed(Key::PageDown, now).0.scroll_back == 5,
        ui.scroll_back < 5 ==> ui.pressed(Key::PageDown, now).0.scroll_back == 0,
{
}

} // verus!
