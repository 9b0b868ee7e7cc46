//! The input line.

use willamette::chat::input_editor::{InputEditor, HISTORY_CAP};

#[test]
fn insert_and_cursor_track() {
    let mut e = InputEditor::new();
    e.insert_char('h');
    e.insert_char('i');
    assert_eq!(e.buffer(), "hi");
    assert_eq!(e.cursor_byte(), 2);
    assert_eq!(e.cursor_char(), 2);
}

#[test]
fn move_left_right_basic() {
    let mut e = InputEditor::new();
    e.insert_str("abc");
    assert_eq!(e.cursor_byte(), 3);
    e.move_left();
    assert_eq!(e.cursor_byte(), 2);
    e.move_left();
    e.move_left();
    e.move_left();
    assert_eq!(e.cursor_byte(), 0);
    e.move_right();
    assert_eq!(e.cursor_byte(), 1);
}

#[test]
fn move_left_right_korean_codepoint_atomic() {
    let mut e = InputEditor::new();
    e.insert_str("한글");
    assert_eq!(e.cursor_byte(), 6);
    e.move_left();
    assert_eq!(e.cursor_byte(), 3);
    e.move_left();
    assert_eq!(e.cursor_byte(), 0);
    e.move_right();
    assert_eq!(e.cursor_char(), 1);
}

#[test]
fn home_end() {
    let mut e = InputEditor::new();
    e.insert_str("hello");
    e.move_home();
    assert_eq!(e.cursor_byte(), 0);
    e.move_end();
    assert_eq!(e.cursor_byte(), 5);
}

#[test]
fn backspace_basic() {
    let mut e = InputEditor::new();
    e.insert_str("abc");
    e.backspace();
    assert_eq!(e.buffer(), "ab");
    assert_eq!(e.cursor_byte(), 2);
}

#[test]
fn backspace_korean() {
    let mut e = InputEditor::new();
    e.insert_str("한글");
    e.backspace();
    assert_eq!(e.buffer(), "한");
    assert_eq!(e.cursor_byte(), 3);
}

#[test]
fn delete_forward() {
    let mut e = InputEditor::new();
    e.insert_str("abc");
    e.move_home();
    e.delete();
    assert_eq!(e.buffer(), "bc");
    assert_eq!(e.cursor_byte(), 0);
}

#[test]
fn ctrl_w_deletes_last_word_with_trailing_space() {
    let mut e = InputEditor::new();
    e.insert_str("foo bar");
    e.delete_word_back();
    assert_eq!(e.buffer(), "foo ");
}

#[test]
fn ctrl_w_with_trailing_whitespace() {
    let mut e = InputEditor::new();
    e.insert_str("foo bar   ");
    e.delete_word_back();
    assert_eq!(e.buffer(), "foo ");
}

#[test]
fn ctrl_u_deletes_to_start() {
    let mut e = InputEditor::new();
    e.insert_str("abcdef");
    e.move_left();
    e.move_left();
    e.delete_to_start();
    assert_eq!(e.buffer(), "ef");
    assert_eq!(e.cursor_byte(), 0);
}

#[test]
fn ctrl_k_deletes_to_end() {
    let mut e = InputEditor::new();
    e.insert_str("abcdef");
    e.move_home();
    e.move_right();
    e.move_right();
    e.delete_to_end();
    assert_eq!(e.buffer(), "ab");
    assert_eq!(e.cursor_byte(), 2);
}

#[test]
fn history_prev_next_cycles() {
    let mut e = InputEditor::with_history(vec![
        "newest".to_string(),
        "middle".to_string(),
        "oldest".to_string(),
    ]);
    e.insert_str("typing");
    e.history_prev();
    assert_eq!(e.buffer(), "newest");
    e.history_prev();
    assert_eq!(e.buffer(), "middle");
    e.history_prev();
    assert_eq!(e.buffer(), "oldest");
    e.history_prev();
    assert_eq!(e.buffer(), "oldest");
    e.history_next();
    assert_eq!(e.buffer(), "middle");
    e.history_next();
    assert_eq!(e.buffer(), "newest");
    e.history_next();
    assert_eq!(e.buffer(), "typing");
    e.history_next();
    assert_eq!(e.buffer(), "typing");
}

#[test]
fn submit_pushes_to_history_and_clears_buffer() {
    let mut e = InputEditor::new();
    e.insert_str("hello");
    let line = e.submit();
    assert_eq!(line, "hello");
    assert_eq!(e.buffer(), "");
    assert_eq!(e.cursor_byte(), 0);
    assert_eq!(e.history().front().map(|s| s.as_str()), Some("hello"));
}

#[test]
fn submit_dedupes_consecutive_duplicates() {
    let mut e = InputEditor::new();
    e.insert_str("same");
    e.submit();
    e.insert_str("same");
    e.submit();
    assert_eq!(e.history().len(), 1);
}

#[test]
fn submit_caps_history() {
    let mut e = InputEditor::new();
    for i in 0..(HISTORY_CAP + 50) {
        e.insert_str(&format!("entry-{}", i));
        e.submit();
    }
    assert_eq!(e.history().len(), HISTORY_CAP);
    assert_eq!(
        e.history().front().unwrap().as_str(),
        &format!("entry-{}", HISTORY_CAP + 49)
    );
}

#[test]
fn search_finds_matching_entry() {
    let mut e = InputEditor::with_history(vec![
        "deploy to prod".to_string(),
        "what is the capital of france".to_string(),
        "how are you".to_string(),
    ]);
    e.begin_search();
    e.search_input('c');
    e.search_input('a');
    e.search_input('p');
    let s = e.search().unwrap();
    assert_eq!(s.match_idx, Some(1));
    assert_eq!(
        e.history()[s.match_idx.unwrap()],
        "what is the capital of france"
    );
}

#[test]
fn search_accept_loads_matched_entry() {
    let mut e = InputEditor::with_history(vec!["alpha-bravo".to_string()]);
    e.begin_search();
    e.search_input('b');
    e.search_accept();
    assert!(e.search().is_none());
    assert_eq!(e.buffer(), "alpha-bravo");
}

#[test]
fn search_cancel_does_not_change_buffer() {
    let mut e = InputEditor::new();
    e.insert_str("typing");
    let saved = e.buffer().to_string();
    e.begin_search();
    e.search_input('x');
    e.search_cancel();
    assert!(e.search().is_none());
    assert_eq!(e.buffer(), saved);
}

#[test]
fn editing_after_history_browse_fixes_buffer() {
    let mut e = InputEditor::with_history(vec!["old-prompt".to_string()]);
    e.history_prev();
    assert_eq!(e.buffer(), "old-prompt");
    e.insert_str(" + new");
    assert_eq!(e.buffer(), "old-prompt + new");
    e.history_next();
    assert_eq!(e.buffer(), "old-prompt + new");
}

#[test]
fn search_backspace_widens_the_search() {
    let mut e = InputEditor::with_history(vec!["car".to_string(), "cat".to_string()]);
    e.begin_search();
    e.search_input('a');
    e.search_input('t');
    assert_eq!(e.search().unwrap().match_idx, Some(1));
    e.search_backspace();
    assert_eq!(e.search().unwrap().match_idx, Some(0));
    e.search_cancel();
    e.search_backspace();
    assert!(e.search().is_none());
}

#[test]
fn the_history_has_no_empty_and_no_repeated_lines() {
    let mut e = InputEditor::new();
    for line in ["a", "", "a", "b", "b", "", "a"] {
        e.insert_str(line);
        e.submit();
    }
    let lines: Vec<&str> = e.history().iter().map(String::as_str).collect();
    assert_eq!(lines, ["a", "b", "a"]);
}
