//! What the keys of the input line do to the line as a whole.

use crate::chat::input_editor::{before_word, EditorState};
use crate::text::{before_space, is_white};
use vstd::prelude::*;

verus! {

/// Moving the cursor changes neither the line nor the history; it goes by one character, or
/// all the way.
pub proof fn moves_keep_the_line(e: EditorState)
    ensures
        e.moved_left().line() == e.line(),
        e.moved_right().line() == e.line(),
        e.moved_home().line() == e.line(),
        e.moved_end().line() == e.line(),
        e.left.len() > 0 ==> e.moved_left().left.len() == e.left.len() - 1,
        e.left.len() == 0 ==> e.moved_left().left.len() == 0,
        e.right.len() > 0 ==> e.moved_right().left.len() == e.left.len() + 1,
        e.right.len() == 0 ==> e.moved_right().left.len() == e.left.len(),
        e.moved_home().left.len() == 0,
        e.moved_end().left.len() == e.line().len(),
        e.moved_left().past == e.past && e.moved_right().past == e.past,
        e.moved_home().past == e.past && e.moved_end().past == e.past,
        e.moved_left().search == e.search && e.moved_right().search == e.search,
        e.moved_left().browsing == e.browsing && e.moved_right().browsing == e.browsing,
{
    if e.left.len() > 0 {
        assert(e.moved_left().line() =~= e.line());
    }
    if e.right.len() > 0 {
        assert(e.moved_right().line() =~= e.line());
    }
    assert(e.moved_home().line() =~= e.line());
    assert(e.moved_end().line() =~= e.line());
}

/// Backspace takes the character in front of the cursor out of the line, and delete the one
/// behind it; at the ends of the line they take nothing. What is typed stands in front of
/// the cursor.
pub proof fn edits_take_one_character(e: EditorState, text: Seq<char>)
    ensures
        e.left.len() > 0 ==> e.backspaced().line() == e.line().remove(e.left.len() - 1)
            && e.backspaced().left.len() == e.left.len() - 1,
        e.right.len() > 0 ==> e.deleted().line() == e.line().remove(e.left.len() as int)
            && e.deleted().left == e.left,
        e.left.len() == 0 ==> e.backspaced().line() == e.line(),
        e.right.len() == 0 ==> e.deleted().line() == e.line(),
        e.inserted(text).line() == e.line().take(e.left.len() as int) + text + e.line().skip(
            e.left.len() as int,
        ),
        e.inserted(text).left.len() == e.left.len() + text.len(),
        e.backspaced().past == e.past && e.deleted().past == e.past && e.inserted(text).past
            == e.past,
        e.inserted(text).browsing is None && e.backspaced().browsing is None
            && e.deleted().browsing is None,
{
    let at = e.left.len() as int;
    assert(e.line().take(at) =~= e.left);
    assert(e.line().skip(at) =~= e.right);
    assert(e.inserted(text).line() =~= e.left + text + e.right);
    if e.left.len() > 0 {
        assert(e.backspaced().line() =~= e.line().remove(at - 1));
    }
    if e.right.len() > 0 {
        assert(e.deleted().line() =~= e.line().remove(at));
    }
}

proof fn lemma_before_space(s: Seq<char>, n: int)
    requires
        0 <= n <= s.len(),
    ensures
        0 <= before_space(s, n) <= n,
        forall|i: int| before_space(s, n) <= i < n ==> is_white(#[trigger] s[i]),
        before_space(s, n) > 0 ==> !is_white(s[before_space(s, n) - 1]),
    decreases n,
{
    if n > 0 && is_white(s[n - 1]) {
        lemma_before_space(s, n - 1);
    }
}

proof fn lemma_before_word(s: Seq<char>, n: int)
    requires
        0 <= n <= s.len(),
    ensures
        0 <= before_word(s, n) <= n,
        forall|i: int| before_word(s, n) <= i < n ==> !is_white(#[trigger] s[i]),
        before_word(s, n) > 0 ==> is_white(s[before_word(s, n) - 1]),
    decreases n,
{
    if n > 0 && !is_white(s[n - 1]) {
        lemma_before_word(s, n - 1);
    }
}

/// A word, and white space behind it, are taken away as a whole, and nothing else is: what is
/// left of the line up to the cursor is empty or ends with white space.
pub proof fn words_are_taken_whole(
    e: EditorState,
    start: Seq<char>,
    word: Seq<char>,
    space: Seq<char>,
)
    requires
        e.left == start + word + space,
        start.len() == 0 || is_white(start.last()),
        word.len() > 0,
        forall|i: int| 0 <= i < word.len() ==> !is_white(#[trigger] word[i]),
        forall|i: int| 0 <= i < space.len() ==> is_white(#[trigger] space[i]),
    ensures
        e.without_word().left == start,
        e.without_word().right == e.right,
        e.without_word().past == e.past,
        e.without_word().browsing is None,
{
    let n = e.left.len() as int;
    let m = before_space(e.left, n);
    let k = before_word(e.left, m);
    let a = start.len() as int;
    let b = a + word.len();
    lemma_before_space(e.left, n);
    assert(e.left[b - 1] == word[word.len() - 1]);
    if m > b {
        assert(e.left[m - 1] == space[m - 1 - b]);
    }
    if m < b {
        assert(is_white(e.left[b - 1]));
    }
    assert(m == b);
    lemma_before_word(e.left, m);
    if k > a {
        assert(e.left[k - 1] == word[k - 1 - a]);
    }
    if k < a {
        assert(e.left[a - 1] == start.last());
    }
    assert(k == a);
    assert(e.left.take(a) =~= start);
}

/// Where nothing but white space stands in front of the cursor, all of it goes.
pub proof fn leading_space_is_taken_whole(e: EditorState)
    requires
        forall|i: int| 0 <= i < e.left.len() ==> is_white(#[trigger] e.left[i]),
    ensures
        e.without_word().left.len() == 0,
        e.without_word().right == e.right,
{
    let n = e.left.len() as int;
    lemma_before_space(e.left, n);
    lemma_before_word(e.left, before_space(e.left, n));
}

/// A line that was found, and a line of the history, are shown whole with the cursor at the
/// end; older lines stand further back.
pub proof fn lines_are_shown_whole(e: EditorState)
    requires
        e.wf(),
    ensures
        e.search matches Some(s) ==> (s.found matches Some(i) ==> e.search_accepted().left
            == e.past[i] && e.search_accepted().right.len() == 0),
        e.search_accepted().search is None,
        e.search_accepted().past == e.past,
        e.past.len() > 0 && e.browsing is None ==> e.older().line() == e.past[0],
        e.browsing matches Some(i) ==> (i + 1 < e.past.len() ==> e.older().line() == e.past[i + 1]
            && e.older().browsing == Some(i + 1)),
        e.browsing matches Some(i) ==> (i > 0 ==> e.newer().line() == e.past[i - 1]),
        e.older().right.len() == 0 || e.past.len() == 0,
        e.older().past == e.past && e.newer().past == e.past,
{
    assert forall|s: Seq<char>| s + Seq::<char>::empty() == s by {
        assert(s + Seq::<char>::empty() =~= s);
    }
}

/// A line that is submitted goes in front of the history, whose lines keep their order; the
/// oldest one goes where there would be more than a thousand. An empty line, and one that is
/// the newest already, change nothing.
pub proof fn submitted_lines_go_in_front(e: EditorState, i: int)
    requires
        e.past.len() <= 1000,
    ensures
        e.line().len() == 0 ==> e.submitted().past == e.past,
        e.past.len() > 0 && e.past[0] == e.line() ==> e.submitted().past == e.past,
        e.line().len() > 0 && (e.past.len() == 0 || e.past[0] != e.line()) ==> {
            let after = e.submitted().past;
            &&& after.len() == if e.past.len() < 1000 {
                e.past.len() + 1
            } else {
                1000
            }
            &&& after[0] == e.line()
            &&& 0 < i < after.len() ==> after[i] == e.past[i - 1]
        },
        e.submitted().browsing is None,
        e.submitted().search is None,
{
}

} // verus!
