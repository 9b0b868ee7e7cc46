//! Ends of turns, pictographs and character boundaries.

use willamette::chat::engine::{
    find_chat_stop_sequence, floor_char_boundary, is_emoji_char, strip_emoji_chars,
    truncate_at_chat_stop_sequence,
};

#[test]
fn no_stop_in_clean_text() {
    assert_eq!(
        find_chat_stop_sequence("Hello! How can I assist you today?"),
        None
    );
}

#[test]
fn detects_bitnet_assistant_template_phrase() {
    let txt = "Sure, here is more.\n\nBITNETAssistant: more answer";
    let idx = find_chat_stop_sequence(txt).expect("must match");
    assert_eq!(
        &txt[idx..idx + "BITNETAssistant:".len()],
        "BITNETAssistant:"
    );
}

#[test]
fn detects_user_marker_without_newline() {
    let txt = "Hello! How can I help? 🖥️User: another question?";
    let idx = find_chat_stop_sequence(txt).expect("must match");
    assert_eq!(&txt[idx..idx + "User:".len()], "User:");
}

#[test]
fn detects_human_marker() {
    let txt = "Reply text here.\nHuman: next turn";
    let idx = find_chat_stop_sequence(txt).expect("must match");
    assert_eq!(&txt[idx..idx + "Human:".len()], "Human:");
}

#[test]
fn detects_ai_assistant_marker() {
    let txt = "Some answer.AI Assistant: more talk";
    let idx = find_chat_stop_sequence(txt).expect("must match");
    assert_eq!(&txt[idx..idx + "AI Assistant:".len()], "AI Assistant:");
}

#[test]
fn picks_earliest_match_when_multiple_present() {
    let txt = "answer text.User: askBITNETAssistant: answer2";
    let idx = find_chat_stop_sequence(txt).expect("must match");
    assert_eq!(idx, 12);
    assert_eq!(&txt[idx..idx + 5], "User:");
}

#[test]
fn matches_at_zero_offset() {
    let txt = "BITNETAssistant: immediate";
    assert_eq!(find_chat_stop_sequence(txt), Some(0));
}

#[test]
fn truncate_removes_boundary_and_following_text() {
    let mut s = "I am here to help.\n\nUser: another".to_string();
    let modified = truncate_at_chat_stop_sequence(&mut s);
    assert!(modified);
    assert_eq!(s, "I am here to help.");
}

#[test]
fn truncate_strips_trailing_whitespace_before_boundary() {
    let mut s = "Answer text.   \n\n   BITNETAssistant:".to_string();
    let modified = truncate_at_chat_stop_sequence(&mut s);
    assert!(modified);
    assert_eq!(s, "Answer text.");
}

#[test]
fn truncate_no_op_on_clean_text() {
    let mut s = "Just a clean reply.".to_string();
    let modified = truncate_at_chat_stop_sequence(&mut s);
    assert!(!modified);
    assert_eq!(s, "Just a clean reply.");
}

#[test]
fn truncate_handles_unicode_correctly() {
    let mut s = "안녕하세요! 무엇을 도와드릴까요?\nUser: 다음".to_string();
    let modified = truncate_at_chat_stop_sequence(&mut s);
    assert!(modified);
    assert_eq!(s, "안녕하세요! 무엇을 도와드릴까요?");
    assert!(std::str::from_utf8(s.as_bytes()).is_ok());
}

#[test]
fn detects_parenthesised_human_variant() {
    let txt = "Tell me more 💡\n  \nHuman (reply): Yes.";
    let idx = find_chat_stop_sequence(txt).expect("must match");
    assert_eq!(&txt[idx..idx + "Human (".len()], "Human (");
}

#[test]
fn detects_question_marker() {
    let txt = "answer one.\nQuestion: another?";
    let idx = find_chat_stop_sequence(txt).expect("must match");
    assert_eq!(&txt[idx..idx + "Question:".len()], "Question:");
}

#[test]
fn does_not_match_substring_humans() {
    assert_eq!(find_chat_stop_sequence("Humans need food"), None);
    assert_eq!(find_chat_stop_sequence("Users of the system"), None);
}


#[test]
fn is_emoji_char_basic_pictographs() {
    assert!(is_emoji_char('\u{1F60A}'));
    assert!(is_emoji_char('\u{1F44D}'));
    assert!(is_emoji_char('\u{1F916}'));
    assert!(is_emoji_char('\u{2728}'));
    assert!(is_emoji_char('\u{1F3FB}'));
    assert!(is_emoji_char('\u{1F1F0}'));
}

#[test]
fn is_emoji_char_leaves_text_alone() {
    assert!(!is_emoji_char('a'));
    assert!(!is_emoji_char('!'));
    assert!(!is_emoji_char('한'));
    assert!(!is_emoji_char('国'));
    assert!(!is_emoji_char('日'));
    assert!(!is_emoji_char('∑'));
    assert!(!is_emoji_char('€'));
}

#[test]
fn strip_emoji_removes_trailing_clutter() {
    let raw = "Hello! How can I assist you today? 😊👍🏻💬📚✨";
    assert_eq!(
        strip_emoji_chars(raw),
        "Hello! How can I assist you today? "
    );
}

#[test]
fn strip_emoji_preserves_korean() {
    let raw = "안녕하세요 👋 친구!";
    assert_eq!(strip_emoji_chars(raw), "안녕하세요  친구!");
}

#[test]
fn strip_emoji_handles_zwj_sequences() {
    let raw = "Hi 👨\u{200D}💻 there";
    assert_eq!(strip_emoji_chars(raw), "Hi  there");
}


#[test]
fn floor_char_boundary_on_ascii_is_identity() {
    let s = "hello";
    assert_eq!(floor_char_boundary(s, 3), 3);
    assert_eq!(floor_char_boundary(s, 0), 0);
    assert_eq!(floor_char_boundary(s, 5), 5);
}

#[test]
fn floor_char_boundary_snaps_back_inside_codepoint() {
    let s = "한국";
    assert_eq!(floor_char_boundary(s, 1), 0);
    assert_eq!(floor_char_boundary(s, 2), 0);
    assert_eq!(floor_char_boundary(s, 3), 3);
    assert_eq!(floor_char_boundary(s, 4), 3);
    assert_eq!(floor_char_boundary(s, 5), 3);
    assert_eq!(floor_char_boundary(s, 6), 6);
}

#[test]
fn real_world_v021_failure_case_is_truncated() {
    let mut s = "I'm just a computer program, so I don't have feelings, but I'm here \
                 and ready to help you! How can I assist you today? 🖥️ 💬👍🤖✨User: \
                 Can you explain what a hash function is?"
        .to_string();
    let modified = truncate_at_chat_stop_sequence(&mut s);
    assert!(modified);
    assert!(s.ends_with("today? 🖥️ 💬👍🤖✨"));
    assert!(!s.contains("User:"));
    assert!(!s.contains("hash function"));
}
