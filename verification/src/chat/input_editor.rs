//! A single input line with a cursor, a history and a search through it.
//!
//! The editor holds data alone: key events become method calls, and what is on
//! the screen is made from the state that the methods leave behind. The cursor
//! moves by characters and never stands inside one.

use crate::cut::{byte_len, cut, is_cut, left_of, lemma_cut, lemma_parts, right_of};
use crate::text::{
    before_space, chars_of, contains, has_part, is_white, is_whitespace, owned, same_text, views,
    without_last,
};
use std::collections::VecDeque;
use vstd::prelude::*;
use vstd::utf8::*;

verus! {

/// Most submitted lines that are kept; older ones go first.
pub const HISTORY_CAP: usize = 1000;

/// A search through the history.
#[derive(Debug, Clone)]
pub struct SearchState {
    /// What was typed to search for.
    pub needle: String,
    /// The line that was found, counted from the newest.
    pub match_idx: Option<usize>,
}

/// A search as a mathematical object.
pub struct Search {
    pub needle: Seq<char>,
    pub found: Option<int>,
}

impl View for SearchState {
    type V = Search;

    open spec fn view(&self) -> Search {
        Search {
            needle: self.needle@,
            found: match self.match_idx {
                Some(i) => Some(i as int),
                None => None,
            },
        }
    }
}

/// The state of the editor as a mathematical object.
#[verifier::ext_equal]
pub struct EditorState {
    /// The characters in front of the cursor.
    pub left: Seq<char>,
    /// The characters behind the cursor.
    pub right: Seq<char>,
    /// The submitted lines, the newest first.
    pub past: Seq<Seq<char>>,
    /// The line of the history that is shown.
    pub browsing: Option<int>,
    /// What was typed before the history was shown.
    pub saved: Option<Seq<char>>,
    pub search: Option<Search>,
}

/// The newest line at or behind `from` that contains `needle`.
pub open spec fn newest_match(past: Seq<Seq<char>>, needle: Seq<char>, from: int) -> Option<int>
    decreases past.len() - from,
{
    if from < 0 || from >= past.len() {
        None
    } else if has_part(past[from], needle) {
        Some(from)
    } else {
        newest_match(past, needle, from + 1)
    }
}

/// How many of the first `n` characters are left when the word at their end is
/// gone.
pub open spec fn before_word(s: Seq<char>, n: int) -> int
    decreases n,
{
    if n > 0 && !is_white(s[n - 1]) {
        before_word(s, n - 1)
    } else {
        n
    }
}

impl EditorState {
    /// The whole line.
    pub open spec fn line(self) -> Seq<char> {
        self.left + self.right
    }

    /// An edit makes the line that is shown the one that is typed.
    pub open spec fn edited(self) -> EditorState {
        if self.browsing is Some {
            EditorState { browsing: None, saved: None, ..self }
        } else {
            self
        }
    }

    /// The line becomes `s`, with the cursor at its end.
    pub open spec fn showing(self, s: Seq<char>) -> EditorState {
        EditorState { left: s, right: Seq::empty(), ..self }
    }

    /// Text appears in front of the cursor.
    pub open spec fn inserted(self, s: Seq<char>) -> EditorState {
        EditorState { left: self.left + s, ..self.edited() }
    }

    /// The character in front of the cursor goes.
    pub open spec fn backspaced(self) -> EditorState {
        if self.left.len() == 0 {
            self.edited()
        } else {
            EditorState { left: self.left.drop_last(), ..self.edited() }
        }
    }

    /// The character behind the cursor goes.
    pub open spec fn deleted(self) -> EditorState {
        if self.right.len() == 0 {
            self.edited()
        } else {
            EditorState { right: self.right.drop_first(), ..self.edited() }
        }
    }

    /// The cursor goes back by one character.
    pub open spec fn moved_left(self) -> EditorState {
        if self.left.len() == 0 {
            self
        } else {
            EditorState {
                left: self.left.drop_last(),
                right: seq![self.left.last()] + self.right,
                ..self
            }
        }
    }

    /// The cursor goes on by one character.
    pub open spec fn moved_right(self) -> EditorState {
        if self.right.len() == 0 {
            self
        } else {
            EditorState {
                left: self.left.push(self.right[0]),
                right: self.right.drop_first(),
                ..self
            }
        }
    }

    /// The cursor goes to the start of the line.
    pub open spec fn moved_home(self) -> EditorState {
        EditorState { left: Seq::empty(), right: self.line(), ..self }
    }

    /// The cursor goes to the end of the line.
    pub open spec fn moved_end(self) -> EditorState {
        self.showing(self.line())
    }

    /// The white space in front of the cursor goes, and the word in front of
    /// that.
    pub open spec fn without_word(self) -> EditorState {
        let n = before_word(self.left, before_space(self.left, self.left.len() as int));
        EditorState { left: self.left.take(n), ..self.edited() }
    }

    /// An older line of the history is shown; the oldest one stays.
    pub open spec fn older(self) -> EditorState {
        if self.past.len() == 0 {
            self
        } else {
            match self.browsing {
                None => EditorState {
                    browsing: Some(0int),
                    saved: Some(self.line()),
                    ..self.showing(self.past[0])
                },
                Some(i) => {
                    let j = if i + 1 < self.past.len() {
                        i + 1
                    } else {
                        i
                    };
                    EditorState { browsing: Some(j), ..self.showing(self.past[j]) }
                },
            }
        }
    }

    /// A newer line of the history is shown, and behind the newest one what was
    /// typed before.
    pub open spec fn newer(self) -> EditorState {
        match self.browsing {
            None => self,
            Some(i) => if i == 0 {
                EditorState {
                    browsing: None,
                    saved: None,
                    ..self.showing(
                        match self.saved {
                            Some(s) => s,
                            None => Seq::empty(),
                        },
                    )
                }
            } else {
                EditorState { browsing: Some(i - 1), ..self.showing(self.past[i - 1]) }
            },
        }
    }

    /// The search looks for `needle`, from the newest line on.
    pub open spec fn searching(self, needle: Seq<char>) -> EditorState {
        EditorState {
            search: Some(
                Search {
                    needle,
                    found: if needle.len() == 0 {
                        None
                    } else {
                        newest_match(self.past, needle, 0)
                    },
                },
            ),
            ..self
        }
    }

    /// A search starts, or goes on behind the line it found.
    pub open spec fn search_begun(self) -> EditorState {
        match self.search {
            None => self.searching(Seq::empty()),
            Some(s) => if s.needle.len() == 0 {
                self
            } else {
                let from = match s.found {
                    Some(i) => i + 1,
                    None => 0,
                };
                EditorState {
                    search: Some(
                        Search { found: newest_match(self.past, s.needle, from), ..s },
                    ),
                    ..self
                }
            },
        }
    }

    /// The search ends, and the line it found is shown.
    pub open spec fn search_accepted(self) -> EditorState {
        let done = EditorState { search: None, ..self };
        match self.search {
            Some(s) => match s.found {
                Some(i) => done.showing(self.past[i]),
                None => done,
            },
            None => done,
        }
    }

    /// The line is submitted.
    pub open spec fn submitted(self) -> EditorState {
        let line = self.line();
        EditorState {
            left: Seq::empty(),
            right: Seq::empty(),
            past: if line.len() == 0 || (self.past.len() > 0 && self.past[0] == line) {
                self.past
            } else if self.past.len() < HISTORY_CAP {
                seq![line] + self.past
            } else {
                seq![line] + self.past.take(HISTORY_CAP - 1)
            },
            browsing: None,
            saved: None,
            search: None,
        }
    }

    /// At most `HISTORY_CAP` lines are kept, and what is shown or was found is
    /// one of them.
    pub open spec fn wf(self) -> bool {
        &&& self.past.len() <= HISTORY_CAP
        &&& self.browsing matches Some(i) ==> 0 <= i < self.past.len()
        &&& self.search matches Some(s) ==> (s.found matches Some(i) ==> 0 <= i
            < self.past.len())
    }

    /// No line of the history is empty, and none stands twice in a row.
    pub open spec fn tidy(self) -> bool {
        &&& forall|i: int| 0 <= i < self.past.len() ==> (#[trigger] self.past[i]).len() > 0
        &&& forall|i: int, j: int|
            0 <= i < self.past.len() && j == i + 1 && j < self.past.len() ==> #[trigger]
            self.past[i] != #[trigger] self.past[j]
    }
}

/// An editor for a single line.
#[derive(Debug, Clone)]
pub struct InputEditor {
    buffer: String,
    /// The byte at which the cursor stands; the start of a character, or the
    /// end of the line.
    cursor_byte: usize,
    /// The submitted lines, the newest first.
    history: VecDeque<String>,
    /// The line of the history that is shown.
    history_cursor: Option<usize>,
    /// What was typed before the history was shown.
    saved_for_history: Option<String>,
    search: Option<SearchState>,
}

impl View for InputEditor {
    type V = EditorState;

    closed spec fn view(&self) -> EditorState {
        EditorState {
            left: left_of(self.buffer@, self.cursor_byte as int),
            right: right_of(self.buffer@, self.cursor_byte as int),
            past: views(self.history@),
            browsing: match self.history_cursor {
                Some(i) => Some(i as int),
                None => None,
            },
            saved: match self.saved_for_history {
                Some(s) => Some(s@),
                None => None,
            },
            search: match self.search {
                Some(s) => Some(s@),
                None => None,
            },
        }
    }
}

impl Default for InputEditor {
    fn default() -> (e: Self)
        ensures
            e.wf(),
            e@.line().len() == 0,
            e@.past.len() == 0,
            e@.browsing is None,
            e@.saved is None,
            e@.search is None,
    {
        InputEditor::new()
    }
}

impl InputEditor {
    /// The cursor stands at the start of a character or at the end of the line.
    pub closed spec fn wf(&self) -> bool {
        is_cut(self.buffer@, self.cursor_byte as int) && self@.wf()
    }

    /// What is shown or was found is a line of the history, which is not too long.
    pub proof fn state_is_sound(&self)
        requires
            self.wf(),
        ensures
            self@.wf(),
    {
    }

    /// An editor without a history.
    pub fn new() -> (e: Self)
        ensures
            e.wf(),
            e@ == (EditorState {
                left: Seq::empty(),
                right: Seq::empty(),
                past: Seq::empty(),
                browsing: None,
                saved: None,
                search: None,
            }),
    {
        let e = InputEditor {
            buffer: String::new(),
            cursor_byte: 0,
            history: VecDeque::with_capacity(HISTORY_CAP),
            history_cursor: None,
            saved_for_history: None,
            search: None,
        };
        proof {
            let none = Seq::<char>::empty();
            lemma_cut(none, none);
            assert(none + none =~= e.buffer@);
            assert(encode_utf8(none) =~= Seq::empty());
            assert(e@.past =~= Seq::empty());
        }
        e
    }

    /// An editor with a history, the newest line first.
    pub fn with_history(history: Vec<String>) -> (e: Self)
        ensures
            e.wf(),
            e@ == (EditorState {
                left: Seq::empty(),
                right: Seq::empty(),
                past: if history@.len() <= HISTORY_CAP {
                    views(history@)
                } else {
                    views(history@).take(HISTORY_CAP as int)
                },
                browsing: None,
                saved: None,
                search: None,
            }),
    {
        let mut e = InputEditor::new();
        let n: usize = if history.len() < HISTORY_CAP { history.len() } else { HISTORY_CAP };
        let mut i: usize = 0;
        while i < n
            invariant
                i <= n <= HISTORY_CAP,
                n <= history@.len(),
                e.wf(),
                e@.left.len() == 0,
                e@.right.len() == 0,
                e@.past == views(history@).take(i as int),
                e@.browsing is None,
                e@.saved is None,
                e@.search is None,
            decreases n - i,
        {
            let ghost before = e@.past;
            e.history.push_back(history[i].clone());
            i = i + 1;
            proof {
                assert(e@.past =~= before.push(history@[i - 1]@));
                assert(views(history@).take(i as int) =~= before.push(history@[i - 1]@));
            }
        }
        proof {
            if history@.len() <= HISTORY_CAP {
                assert(views(history@).take(n as int) =~= views(history@));
            }
            assert(e@.left =~= Seq::empty());
            assert(e@.right =~= Seq::empty());
        }
        e
    }

    /// The line.
    pub fn buffer(&self) -> (r: &str)
        requires
            self.wf(),
        ensures
            r@ == self@.line(),
    {
        proof {
            lemma_parts(self.buffer@, self.cursor_byte as int);
        }
        self.buffer.as_str()
    }

    /// The byte at which the cursor stands.
    pub fn cursor_byte(&self) -> (r: usize)
        requires
            self.wf(),
        ensures
            r == encode_utf8(self@.left).len(),
    {
        proof {
            lemma_parts(self.buffer@, self.cursor_byte as int);
        }
        self.cursor_byte
    }

    /// How many characters stand in front of the cursor.
    pub fn cursor_char(&self) -> (r: usize)
        requires
            self.wf(),
        ensures
            r == self@.left.len(),
    {
        let parts = cut(self.buffer.as_str(), self.cursor_byte);
        parts.0.unicode_len()
    }

    /// Whether the line is empty.
    pub fn is_empty(&self) -> (r: bool)
        requires
            self.wf(),
        ensures
            r == (self@.line().len() == 0),
    {
        proof {
            lemma_parts(self.buffer@, self.cursor_byte as int);
        }
        self.buffer.as_str().is_empty()
    }

    /// The search, if there is one.
    pub fn search(&self) -> (r: Option<&SearchState>)
        ensures
            match r {
                Some(s) => self@.search == Some(s@),
                None => self@.search is None,
            },
    {
        match &self.search {
            Some(s) => Some(s),
            None => None,
        }
    }

    /// The submitted lines, the newest first.
    pub fn history(&self) -> (r: &VecDeque<String>)
        ensures
            views(r@) == self@.past,
    {
        &self.history
    }

    /// Puts a line in place, cut at the cursor.
    fn set_line(&mut self, left: &str, right: &str)
        requires
            old(self)@.wf(),
        ensures
            final(self).wf(),
            final(self)@ == (EditorState { left: left@, right: right@, ..old(self)@ }),
    {
        let at = byte_len(left);
        let mut whole = owned(left);
        whole.append(right);
        proof {
            lemma_cut(left@, right@);
        }
        self.buffer = whole;
        self.cursor_byte = at;
    }

    /// The parts of the line in front of and behind the cursor.
    fn parts(&self) -> (r: (String, String))
        requires
            self.wf(),
        ensures
            r.0@ == self@.left,
            r.1@ == self@.right,
    {
        let parts = cut(self.buffer.as_str(), self.cursor_byte);
        (owned(parts.0), owned(parts.1))
    }

    /// Makes the line that is shown the one that is typed.
    fn exit_history_browse_if_needed(&mut self)
        requires
            old(self).wf(),
        ensures
            final(self).wf(),
            final(self)@ == old(self)@.edited(),
    {
        if self.history_cursor.is_some() {
            self.history_cursor = None;
            self.saved_for_history = None;
        }
    }

    /// A character is typed.
    pub fn insert_char(&mut self, c: char)
        requires
            old(self).wf(),
        ensures
            final(self).wf(),
            final(self)@ == old(self)@.inserted(seq![c]),
    {
        self.exit_history_browse_if_needed();
        let (mut left, right) = self.parts();
        left.push(c);
        self.set_line(left.as_str(), right.as_str());
        proof {
            assert(left@ =~= old(self)@.left + seq![c]);
        }
    }

    /// A text is pasted.
    pub fn insert_str(&mut self, s: &str)
        requires
            old(self).wf(),
        ensures
            final(self).wf(),
            final(self)@ == old(self)@.inserted(s@),
    {
        self.exit_history_browse_if_needed();
        let (mut left, right) = self.parts();
        left.append(s);
        self.set_line(left.as_str(), right.as_str());
    }

    /// Removes the character in front of the cursor.
    pub fn backspace(&mut self)
        requires
            old(self).wf(),
        ensures
            final(self).wf(),
            final(self)@ == old(self)@.backspaced(),
    {
        self.exit_history_browse_if_needed();
        let (left, right) = self.parts();
        if left.as_str().is_empty() {
            return;
        }
        let shorter = without_last(left.as_str());
        self.set_line(shorter.as_str(), right.as_str());
    }

    /// Removes the character behind the cursor.
    pub fn delete(&mut self)
        requires
            old(self).wf(),
        ensures
            final(self).wf(),
            final(self)@ == old(self)@.deleted(),
    {
        self.exit_history_browse_if_needed();
        let (left, right) = self.parts();
        if right.as_str().is_empty() {
            return;
        }
        let n: usize = right.as_str().unicode_len();
        let shorter = right.as_str().substring_char(1, n);
        proof {
            assert(shorter@ =~= right@.drop_first());
        }
        self.set_line(left.as_str(), shorter);
    }

    /// Moves the cursor back by one character.
    pub fn move_left(&mut self)
        requires
            old(self).wf(),
        ensures
            final(self).wf(),
            final(self)@ == old(self)@.moved_left(),
    {
        let (left, right) = self.parts();
        if left.as_str().is_empty() {
            return;
        }
        let n: usize = left.as_str().unicode_len();
        let shorter = left.as_str().substring_char(0, n - 1);
        let mut longer = owned(left.as_str().substring_char(n - 1, n));
        longer.append(right.as_str());
        proof {
            assert(shorter@ =~= left@.drop_last());
            assert(longer@ =~= seq![left@.last()] + right@);
        }
        self.set_line(shorter, longer.as_str());
    }

    /// Moves the cursor on by one character.
    pub fn move_right(&mut self)
        requires
            old(self).wf(),
        ensures
            final(self).wf(),
            final(self)@ == old(self)@.moved_right(),
    {
        let (mut left, right) = self.parts();
        if right.as_str().is_empty() {
            return;
        }
        let n: usize = right.as_str().unicode_len();
        let shorter = right.as_str().substring_char(1, n);
        left.push(right.as_str().get_char(0));
        proof {
            assert(shorter@ =~= right@.drop_first());
        }
        self.set_line(left.as_str(), shorter);
    }

    /// Moves the cursor to the start of the line.
    pub fn move_home(&mut self)
        requires
            old(self).wf(),
        ensures
            final(self).wf(),
            final(self)@ == old(self)@.moved_home(),
    {
        proof {
            lemma_parts(self.buffer@, self.cursor_byte as int);
            lemma_cut(Seq::empty(), self.buffer@);
            assert(Seq::<char>::empty() + self.buffer@ =~= self.buffer@);
            assert(encode_utf8(Seq::<char>::empty()) =~= Seq::empty());
        }
        self.cursor_byte = 0;
    }

    /// Moves the cursor to the end of the line.
    pub fn move_end(&mut self)
        requires
            old(self).wf(),
        ensures
            final(self).wf(),
            final(self)@ == old(self)@.moved_end(),
    {
        proof {
            lemma_parts(self.buffer@, self.cursor_byte as int);
            lemma_cut(self.buffer@, Seq::empty());
            assert(self.buffer@ + Seq::<char>::empty() =~= self.buffer@);
        }
        self.cursor_byte = byte_len(self.buffer.as_str());
    }

    /// Removes the white space in front of the cursor and the word in front of
    /// that.
    pub fn delete_word_back(&mut self)
        requires
            old(self).wf(),
        ensures
            final(self).wf(),
            final(self)@ == old(self)@.without_word(),
    {
        self.exit_history_browse_if_needed();
        let (left, right) = self.parts();
        let chars = chars_of(left.as_str());
        let mut i: usize = chars.len();
        while i > 0 && is_whitespace(chars[i - 1])
            invariant
                i <= chars@.len(),
                before_space(chars@, i as int) == before_space(chars@, chars@.len() as int),
            decreases i,
        {
            i = i - 1;
        }
        let ghost spaced = before_space(chars@, chars@.len() as int);
        proof {
            assert(spaced == i);
        }
        while i > 0 && !is_whitespace(chars[i - 1])
            invariant
                i <= chars@.len(),
                before_word(chars@, i as int) == before_word(chars@, spaced),
            decreases i,
        {
            i = i - 1;
        }
        let kept = left.as_str().substring_char(0, i);
        proof {
            assert(kept@ =~= left@.take(i as int));
        }
        self.set_line(kept, right.as_str());
    }

    /// Removes everything in front of the cursor.
    pub fn delete_to_start(&mut self)
        requires
            old(self).wf(),
        ensures
            final(self).wf(),
            final(self)@ == (EditorState { left: Seq::empty(), ..old(self)@.edited() }),
    {
        self.exit_history_browse_if_needed();
        let (left, right) = self.parts();
        let none = String::new();
        self.set_line(none.as_str(), right.as_str());
        proof {
            assert(none@ =~= Seq::empty());
        }
    }

    /// Removes everything behind the cursor.
    pub fn delete_to_end(&mut self)
        requires
            old(self).wf(),
        ensures
            final(self).wf(),
            final(self)@ == (EditorState { right: Seq::empty(), ..old(self)@.edited() }),
    {
        self.exit_history_browse_if_needed();
        let (left, right) = self.parts();
        let none = String::new();
        self.set_line(left.as_str(), none.as_str());
        proof {
            assert(none@ =~= Seq::empty());
        }
    }

    /// Removes the whole line.
    pub fn clear(&mut self)
        requires
            old(self).wf(),
        ensures
            final(self).wf(),
            final(self)@ == old(self)@.edited().showing(Seq::empty()),
    {
        self.exit_history_browse_if_needed();
        let none = String::new();
        self.set_line(none.as_str(), none.as_str());
        proof {
            assert(none@ =~= Seq::empty());
        }
    }

    /// Shows an older line of the history.
    pub fn history_prev(&mut self)
        requires
            old(self).wf(),
        ensures
            final(self).wf(),
            final(self)@ == old(self)@.older(),
    {
        if self.history.len() == 0 {
            return;
        }
        proof {
            lemma_parts(self.buffer@, self.cursor_byte as int);
        }
        let next: usize = match self.history_cursor {
            None => {
                self.saved_for_history = Some(self.buffer.clone());
                0
            },
            Some(i) => if i + 1 < self.history.len() {
                i + 1
            } else {
                i
            },
        };
        self.history_cursor = Some(next);
        let shown = self.history[next].clone();
        let none = String::new();
        self.set_line(shown.as_str(), none.as_str());
        proof {
            assert(none@ =~= Seq::empty());
        }
    }

    /// Shows a newer line of the history, or what was typed before.
    pub fn history_next(&mut self)
        requires
            old(self).wf(),
        ensures
            final(self).wf(),
            final(self)@ == old(self)@.newer(),
    {
        let current: usize = match self.history_cursor {
            None => {
                return;
            },
            Some(i) => i,
        };
        let none = String::new();
        proof {
            assert(none@ =~= Seq::empty());
        }
        if current == 0 {
            let shown = match &self.saved_for_history {
                Some(s) => s.clone(),
                None => String::new(),
            };
            self.saved_for_history = None;
            self.history_cursor = None;
            self.set_line(shown.as_str(), none.as_str());
            proof {
                assert(shown@ =~= match old(self)@.saved {
                    Some(s) => s,
                    None => Seq::empty(),
                });
            }
        } else {
            let next: usize = current - 1;
            self.history_cursor = Some(next);
            let shown = self.history[next].clone();
            self.set_line(shown.as_str(), none.as_str());
        }
    }

    /// The newest line at or behind `from` that contains `needle`.
    fn find_newest(&self, needle: &str, from: usize) -> (r: Option<usize>)
        ensures
            match r {
                Some(i) => newest_match(self@.past, needle@, from as int) == Some(i as int) && i
                    < self@.past.len(),
                None => newest_match(self@.past, needle@, from as int) is None,
            },
    {
        let mut i: usize = from;
        while i < self.history.len()
            invariant
                from <= i,
                newest_match(self@.past, needle@, from as int) == newest_match(
                    self@.past,
                    needle@,
                    i as int,
                ),
            decreases self.history.len() - i,
        {
            if contains(self.history[i].as_str(), needle) {
                return Some(i);
            }
            i = i + 1;
        }
        None
    }

    /// Searches for `needle` from the newest line on.
    fn search_for(&mut self, needle: String)
        requires
            old(self).wf(),
        ensures
            final(self).wf(),
            final(self)@ == old(self)@.searching(needle@),
    {
        let found = if needle.as_str().is_empty() {
            None
        } else {
            self.find_newest(needle.as_str(), 0)
        };
        self.search = Some(SearchState { needle, match_idx: found });
    }

    /// Starts a search, or goes on to the next older line that matches.
    pub fn begin_search(&mut self)
        requires
            old(self).wf(),
        ensures
            final(self).wf(),
            final(self)@ == old(self)@.search_begun(),
    {
        let (needle, from) = match &self.search {
            None => {
                let none = String::new();
                proof {
                    assert(none@ =~= Seq::empty());
                }
                self.search_for(none);
                return;
            },
            Some(s) => {
                let from: usize = match s.match_idx {
                    Some(i) => i + 1,
                    None => 0,
                };
                (s.needle.clone(), from)
            },
        };
        if needle.as_str().is_empty() {
            return;
        }
        let found = self.find_newest(needle.as_str(), from);
        self.search = Some(SearchState { needle, match_idx: found });
    }

    /// Adds a character to what is searched for.
    pub fn search_input(&mut self, c: char)
        requires
            old(self).wf(),
        ensures
            final(self).wf(),
            final(self)@ == match old(self)@.search {
                Some(s) => old(self)@.searching(s.needle.push(c)),
                None => old(self)@,
            },
    {
        let mut needle = match &self.search {
            None => {
                return;
            },
            Some(s) => s.needle.clone(),
        };
        needle.push(c);
        self.search_for(needle);
    }

    /// Removes the last character from what is searched for.
    pub fn search_backspace(&mut self)
        requires
            old(self).wf(),
        ensures
            final(self).wf(),
            final(self)@ == match old(self)@.search {
                Some(s) => old(self)@.searching(
                    if s.needle.len() == 0 {
                        s.needle
                    } else {
                        s.needle.drop_last()
                    },
                ),
                None => old(self)@,
            },
    {
        let needle = match &self.search {
            None => {
                return;
            },
            Some(s) => without_last(s.needle.as_str()),
        };
        self.search_for(needle);
    }

    /// Ends the search and shows the line that was found.
    pub fn search_accept(&mut self)
        requires
            old(self).wf(),
        ensures
            final(self).wf(),
            final(self)@ == old(self)@.search_accepted(),
    {
        let found = match &self.search {
            None => {
                return;
            },
            Some(s) => s.match_idx,
        };
        self.search = None;
        match found {
            Some(i) => {
                let shown = self.history[i].clone();
                let none = String::new();
                self.set_line(shown.as_str(), none.as_str());
                proof {
                    assert(none@ =~= Seq::empty());
                }
            },
            None => {},
        }
    }

    /// Ends the search.
    pub fn search_cancel(&mut self)
        requires
            old(self).wf(),
        ensures
            final(self).wf(),
            final(self)@ == (EditorState { search: None, ..old(self)@ }),
    {
        self.search = None;
    }

    /// Takes the line, and keeps it in the history unless it is empty or the
    /// newest line there already.
    pub fn submit(&mut self) -> (line: String)
        requires
            old(self).wf(),
        ensures
            final(self).wf(),
            final(self)@ == old(self)@.submitted(),
            line@ == old(self)@.line(),
    {
        proof {
            lemma_parts(self.buffer@, self.cursor_byte as int);
        }
        let line = self.buffer.clone();
        self.search = None;
        self.history_cursor = None;
        self.saved_for_history = None;
        let none = String::new();
        self.set_line(none.as_str(), none.as_str());
        proof {
            assert(none@ =~= Seq::empty());
        }
        let newest = self.history.len() > 0 && same_text(
            self.history[0].as_str(),
            line.as_str(),
        );
        if !line.as_str().is_empty() && !newest {
            let ghost before = self@.past;
            self.history.push_front(line.clone());
            proof {
                assert(views(self.history@) =~= seq![line@] + before);
            }
            if self.history.len() > HISTORY_CAP {
                let oldest = self.history.pop_back();
                proof {
                    assert(views(self.history@) =~= seq![line@] + before.take(HISTORY_CAP - 1));
                }
            }
        }
        line
    }
}

/// Moving on undoes moving back, and the other way round.
pub proof fn moves_undo_each_other(e: EditorState)
    ensures
        e.left.len() > 0 ==> e.moved_left().moved_right() == e,
        e.right.len() > 0 ==> e.moved_right().moved_left() == e,
        e.moved_left().line() == e.line(),
        e.moved_right().line() == e.line(),
{
    if e.left.len() > 0 {
        let m = e.moved_left();
        assert(m.moved_right() =~= e);
        assert(m.line() =~= e.line());
    }
    if e.right.len() > 0 {
        let m = e.moved_right();
        assert(m.moved_left() =~= e);
        assert(m.line() =~= e.line());
    }
}

/// Removing the character that was just typed gives the state before, as an
/// edit leaves it.
pub proof fn backspace_undoes_typing(e: EditorState, c: char)
    ensures
        e.inserted(seq![c]).backspaced() == e.edited(),
{
    assert(e.inserted(seq![c]).backspaced() =~= e.edited());
}

/// Pasting a text is the same as typing its characters one by one.
pub proof fn pasting_is_typing(e: EditorState, s: Seq<char>, c: char)
    ensures
        e.inserted(s).inserted(seq![c]) == e.inserted(s.push(c)),
{
    assert(e.inserted(s).inserted(seq![c]) =~= e.inserted(s.push(c)));
}

/// Going back in the history and on again restores the line that was typed,
/// with the cursor at its end.
pub proof fn history_restores_the_line(e: EditorState)
    requires
        e.browsing is None,
        e.saved is None,
        e.past.len() > 0,
    ensures
        e.older().newer() == e.moved_end(),
{
    assert(e.older().newer() =~= e.moved_end());
}

/// Further back in the history the step on undoes the step back.
pub proof fn history_steps_undo_each_other(e: EditorState)
    requires
        e.browsing matches Some(i) && 0 <= i < e.past.len() - 1,
    ensures
        e.older().newer() == e.showing(e.past[e.browsing->0]),
{
    assert(e.older().newer() =~= e.showing(e.past[e.browsing->0]));
}

/// A submitted line leaves an empty line and no search, is the newest line of
/// the history unless it was empty, and is not kept twice in a row.
pub proof fn submitted_line_is_newest(e: EditorState)
    requires
        e.wf(),
    ensures
        e.submitted().wf(),
        e.submitted().line().len() == 0,
        e.line().len() > 0 ==> e.submitted().past.len() > 0 && e.submitted().past[0] == e.line(),
        e.line().len() > 0 ==> e.submitted().showing(e.line()).submitted() == e.submitted(),
{
    if e.line().len() > 0 {
        let s = e.submitted();
        assert(s.showing(e.line()).line() =~= e.line());
        assert(s.showing(e.line()).submitted() =~= s);
    }
}

/// A history without empty lines and without the same line twice in a row stays
/// so, whatever is typed, moved, shown, searched for or submitted. An empty
/// history is such a history.
pub proof fn history_stays_tidy(e: EditorState, t: Seq<char>)
    ensures
        e.past.len() == 0 ==> e.tidy(),
        e.tidy() ==> {
            &&& e.submitted().tidy()
            &&& e.edited().tidy()
            &&& e.showing(t).tidy()
            &&& e.inserted(t).tidy()
            &&& e.backspaced().tidy()
            &&& e.deleted().tidy()
            &&& e.moved_left().tidy()
            &&& e.moved_right().tidy()
            &&& e.moved_home().tidy()
            &&& e.moved_end().tidy()
            &&& e.without_word().tidy()
            &&& e.older().tidy()
            &&& e.newer().tidy()
            &&& e.searching(t).tidy()
            &&& e.search_begun().tidy()
            &&& e.search_accepted().tidy()
        },
{
    if e.tidy() {
        let line = e.line();
        let kept = if e.past.len() < HISTORY_CAP {
            e.past
        } else {
            e.past.take(HISTORY_CAP - 1)
        };
        let after = e.submitted().past;
        if line.len() > 0 && !(e.past.len() > 0 && e.past[0] == line) {
            assert(after == seq![line] + kept);
            assert forall|i: int| 0 <= i < after.len() implies (#[trigger] after[i]).len() > 0 by {
                if i > 0 {
                    assert(after[i] == e.past[i - 1]);
                }
            }
            assert forall|i: int, j: int|
                0 <= i < after.len() && j == i + 1 && j < after.len() implies #[trigger] after[i]
                != #[trigger] after[j] by {
                assert(after[j] == e.past[j - 1]);
                if i > 0 {
                    assert(after[i] == e.past[i - 1]);
                }
            }
        }
    }
}

/// A search that is cancelled leaves the line, the cursor and the history as
/// they were.
pub proof fn cancelled_search_changes_nothing(e: EditorState, needle: Seq<char>)
    requires
        e.search is None,
    ensures
        (EditorState { search: None, ..e.search_begun().searching(needle) }) == e,
{
}

/// What a search finds contains what was searched for, and no newer line does.
pub proof fn search_finds_the_newest(past: Seq<Seq<char>>, needle: Seq<char>, from: int)
    requires
        0 <= from,
    ensures
        match newest_match(past, needle, from) {
            Some(i) => {
                &&& from <= i < past.len()
                &&& has_part(past[i], needle)
                &&& forall|j: int| from <= j < i ==> !has_part(#[trigger] past[j], needle)
            },
            None => forall|j: int| from <= j < past.len() ==> !has_part(
                #[trigger] past[j],
                needle,
            ),
        },
    decreases past.len() - from,
{
    if from < past.len() && !has_part(past[from], needle) {
        search_finds_the_newest(past, needle, from + 1);
    }
}

} // verus!
