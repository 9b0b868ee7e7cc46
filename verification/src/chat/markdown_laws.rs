//! What markdown looks like on the screen, and that none of the text is lost.

use crate::chat::markdown::{
    backtick, bold_at, code_at, counter, double_star, inline_from, inline_of, is_digit,
    lemma_backtick, lemma_double_star, lemma_newline, line_of, lines_from, newline, ordinary,
    period,
};
use crate::chat::span::{stretch, SpanStyle, Stretch, Tint};
use crate::text::{is_white, joined, leading, occurs_at};
use crate::text_laws::all_white;
use vstd::prelude::*;

verus! {

/// A stretch of text as it was written: bold text between pairs of stars, text in the
/// colour of code between backticks, and other text as it is.
pub open spec fn written(st: Stretch) -> Seq<char> {
    if st.style.bold {
        seq!['*', '*'] + st.content + seq!['*', '*']
    } else if st.style.fg == Some(Tint::Yellow) {
        seq!['`'] + st.content + seq!['`']
    } else {
        st.content
    }
}

/// Stretches as they were written, one behind the other.
pub open spec fn written_all(list: Seq<Stretch>) -> Seq<char>
    decreases list.len(),
{
    if list.len() == 0 {
        Seq::empty()
    } else {
        written(list[0]) + written_all(list.skip(1))
    }
}

proof fn lemma_written_joins(a: Seq<Stretch>, b: Seq<Stretch>)
    ensures
        written_all(a + b) == written_all(a) + written_all(b),
    decreases a.len(),
{
    if a.len() == 0 {
        assert(a + b =~= b);
        assert(written_all(a) + written_all(b) =~= written_all(b));
    } else {
        lemma_written_joins(a.skip(1), b);
        assert((a + b).skip(1) =~= a.skip(1) + b);
        assert(written_all(a + b) =~= written_all(a) + written_all(b));
    }
}

proof fn lemma_written_one(st: Stretch)
    ensures
        written_all(seq![st]) == written(st),
{
    assert(seq![st].skip(1) =~= Seq::<Stretch>::empty());
    assert(written_all(seq![st].skip(1)) =~= Seq::<char>::empty());
    assert(written(st) + Seq::<char>::empty() =~= written(st));
}

proof fn lemma_written_ordinary(s: Seq<char>)
    ensures
        written_all(ordinary(s)) == s,
{
    if s.len() == 0 {
        assert(written_all(ordinary(s)) =~= s);
    } else {
        lemma_written_one(ordinary(s)[0]);
        assert(ordinary(s) =~= seq![ordinary(s)[0]]);
    }
}

/// What stands at a pair of stars that was found, and not in front of it.
proof fn lemma_stars(s: Seq<char>, from: int)
    requires
        0 <= from,
    ensures
        double_star(s, from) matches Some(k) ==> s[k] == '*' && s[k + 1] == '*' && (forall|j: int|
            from <= j < k ==> !(#[trigger] s[j] == '*' && s[j + 1] == '*')),
        double_star(s, from) is None ==> forall|j: int|
            from <= j < s.len() - 1 ==> !(#[trigger] s[j] == '*' && s[j + 1] == '*'),
    decreases s.len() - from,
{
    if from + 1 < s.len() && !(s[from] == '*' && s[from + 1] == '*') {
        lemma_stars(s, from + 1);
    }
}

/// What stands at a backtick that was found, and not in front of it.
proof fn lemma_ticks(s: Seq<char>, from: int)
    requires
        0 <= from,
    ensures
        backtick(s, from) matches Some(k) ==> s[k] == '`' && (forall|j: int|
            from <= j < k ==> #[trigger] s[j] != '`'),
        backtick(s, from) is None ==> forall|j: int| from <= j < s.len() ==> #[trigger] s[j] != '`',
    decreases s.len() - from,
{
    if from < s.len() && s[from] != '`' {
        lemma_ticks(s, from + 1);
    }
}

/// No text is lost: written with their marks, the stretches of a text are the text.
pub proof fn inline_text_is_kept(s: Seq<char>)
    ensures
        written_all(inline_of(s)) == s,
{
    lemma_inline_is_kept(s, 0, Seq::empty());
    assert(Seq::<char>::empty() + s.skip(0) =~= s);
}

proof fn lemma_inline_is_kept(s: Seq<char>, i: int, pending: Seq<char>)
    requires
        0 <= i <= s.len(),
    ensures
        written_all(inline_from(s, i, pending)) == pending + s.skip(i),
    decreases s.len() - i,
{
    lemma_written_ordinary(pending);
    if i >= s.len() {
        assert(pending + s.skip(i) =~= pending);
    } else {
        match bold_at(s, i) {
            Some(close) => {
                lemma_double_star(s, i + 2);
                lemma_stars(s, i + 2);
                let st = stretch(
                    s.subrange(i + 2, close),
                    SpanStyle { fg: None, bg: None, bold: true },
                );
                let tail = inline_from(s, close + 2, Seq::empty());
                lemma_inline_is_kept(s, close + 2, Seq::empty());
                lemma_written_one(st);
                lemma_written_joins(ordinary(pending), seq![st]);
                lemma_written_joins(ordinary(pending) + seq![st], tail);
                assert(inline_from(s, i, pending) =~= ordinary(pending) + seq![st] + tail);
                assert(pending + s.skip(i) =~= pending + written(st) + (Seq::<char>::empty()
                    + s.skip(close + 2)));
            },
            None => match code_at(s, i) {
                Some(close) => {
                    lemma_backtick(s, i + 1);
                    lemma_ticks(s, i + 1);
                    let st = stretch(
                        s.subrange(i + 1, close),
                        SpanStyle { fg: Some(Tint::Yellow), bg: None, bold: false },
                    );
                    let tail = inline_from(s, close + 1, Seq::empty());
                    lemma_inline_is_kept(s, close + 1, Seq::empty());
                    lemma_written_one(st);
                    lemma_written_joins(ordinary(pending), seq![st]);
                    lemma_written_joins(ordinary(pending) + seq![st], tail);
                    assert(inline_from(s, i, pending) =~= ordinary(pending) + seq![st] + tail);
                    assert(pending + s.skip(i) =~= pending + written(st) + (Seq::<char>::empty()
                        + s.skip(close + 1)));
                },
                None => {
                    lemma_inline_is_kept(s, i + 1, pending.push(s[i]));
                    assert(pending.push(s[i]) + s.skip(i + 1) =~= pending + s.skip(i));
                },
            },
        }
    }
}

/// Searching further on is searching what is left.
proof fn lemma_search_shifts(s: Seq<char>, k: int, i: int)
    requires
        0 <= k <= s.len(),
        0 <= i,
    ensures
        double_star(s, k + i) == match double_star(s.skip(k), i) {
            Some(j) => Some(k + j),
            None => None,
        },
        backtick(s, k + i) == match backtick(s.skip(k), i) {
            Some(j) => Some(k + j),
            None => None,
        },
    decreases s.len() - k - i,
{
    if k + i < s.len() {
        lemma_search_shifts(s, k, i + 1);
    }
}

/// The stretches from a place on are those of what is left.
proof fn lemma_inline_shifts(s: Seq<char>, k: int, i: int, pending: Seq<char>)
    requires
        0 <= k <= s.len(),
        0 <= i,
    ensures
        inline_from(s, k + i, pending) == inline_from(s.skip(k), i, pending),
    decreases s.len() - k - i,
{
    let t = s.skip(k);
    if k + i < s.len() {
        lemma_search_shifts(s, k, i + 2);
        lemma_search_shifts(s, k, i + 1);
        assert(s[k + i] == t[i]);
        match bold_at(t, i) {
            Some(close) => {
                lemma_double_star(t, i + 2);
                assert(bold_at(s, k + i) == Some(k + close));
                lemma_inline_shifts(s, k, close + 2, Seq::empty());
                assert(s.subrange(k + i + 2, k + close) =~= t.subrange(i + 2, close));
            },
            None => {
                assert(bold_at(s, k + i) is None);
                match code_at(t, i) {
                    Some(close) => {
                        lemma_backtick(t, i + 1);
                        assert(code_at(s, k + i) == Some(k + close));
                        lemma_inline_shifts(s, k, close + 1, Seq::empty());
                        assert(s.subrange(k + i + 1, k + close) =~= t.subrange(i + 1, close));
                    },
                    None => {
                        assert(code_at(s, k + i) is None);
                        lemma_inline_shifts(s, k, i + 1, pending.push(t[i]));
                    },
                }
            },
        }
    }
}

/// Text without stars between two pairs of stars is bold and without a colour, whatever
/// follows it; the stars are not shown.
pub proof fn stars_make_bold(text: Seq<char>, tail: Seq<char>)
    requires
        forall|i: int| 0 <= i < text.len() ==> #[trigger] text[i] != '*',
    ensures
        inline_of(seq!['*', '*'] + text + seq!['*', '*'] + tail) == seq![
            stretch(text, SpanStyle { fg: None, bg: None, bold: true }),
        ] + inline_of(tail),
{
    let s = seq!['*', '*'] + text + seq!['*', '*'] + tail;
    let n = text.len() as int;
    lemma_stars(s, 2);
    lemma_double_star(s, 2);
    assert(s[n + 2] == '*' && s[n + 3] == '*');
    let k = double_star(s, 2)->0;
    if k < n + 2 {
        assert(s[k] == text[k - 2]);
    } else if k > n + 2 {
        assert(!(s[n + 2] == '*' && s[n + 3] == '*'));
    }
    assert(k == n + 2);
    assert(s.subrange(2, n + 2) =~= text);
    assert(s.skip(n + 4) =~= tail);
    lemma_inline_shifts(s, n + 4, 0, Seq::empty());
    assert(ordinary(Seq::<char>::empty()) + seq![
        stretch(text, SpanStyle { fg: None, bg: None, bold: true }),
    ] =~= seq![stretch(text, SpanStyle { fg: None, bg: None, bold: true })]);
}

/// Text without backticks between two backticks has the colour of code, whatever
/// follows it; the backticks are not shown.
pub proof fn backticks_make_code(text: Seq<char>, tail: Seq<char>)
    requires
        forall|i: int| 0 <= i < text.len() ==> #[trigger] text[i] != '`',
    ensures
        inline_of(seq!['`'] + text + seq!['`'] + tail) == seq![
            stretch(text, SpanStyle { fg: Some(Tint::Yellow), bg: None, bold: false }),
        ] + inline_of(tail),
{
    let s = seq!['`'] + text + seq!['`'] + tail;
    let n = text.len() as int;
    lemma_ticks(s, 1);
    lemma_backtick(s, 1);
    assert(s[0] == '`');
    assert(s[n + 1] == '`');
    let k = backtick(s, 1)->0;
    if k < n + 1 {
        assert(s[k] == text[k - 1]);
    } else if k > n + 1 {
        assert(s[n + 1] != '`');
    }
    assert(k == n + 1);
    assert(s.subrange(1, n + 1) =~= text);
    assert(s.skip(n + 2) =~= tail);
    lemma_inline_shifts(s, n + 2, 0, Seq::empty());
    assert(ordinary(Seq::<char>::empty()) + seq![
        stretch(text, SpanStyle { fg: Some(Tint::Yellow), bg: None, bold: false }),
    ] =~= seq![stretch(text, SpanStyle { fg: Some(Tint::Yellow), bg: None, bold: false })]);
}

/// The white space in front of a text that starts with none.
proof fn lemma_indent(indent: Seq<char>, rest: Seq<char>, from: int)
    requires
        all_white(indent),
        rest.len() > 0,
        !is_white(rest[0]),
        0 <= from <= indent.len(),
    ensures
        leading(indent + rest, from) == indent.len(),
        (indent + rest).take(indent.len() as int) == indent,
        (indent + rest).skip(indent.len() as int) == rest,
    decreases indent.len() - from,
{
    let s = indent + rest;
    assert(s.take(indent.len() as int) =~= indent);
    assert(s.skip(indent.len() as int) =~= rest);
    if from < indent.len() {
        assert(s[from] == indent[from]);
        lemma_indent(indent, rest, from + 1);
    } else {
        assert(s[from] == rest[0]);
    }
}

/// A line of up to three number signs and a space is a heading: the rest of it is bold
/// in the colour of headings.
pub proof fn number_signs_make_headings(indent: Seq<char>, signs: Seq<char>, title: Seq<char>)
    requires
        all_white(indent),
        1 <= signs.len() <= 3,
        forall|i: int| 0 <= i < signs.len() ==> #[trigger] signs[i] == '#',
    ensures
        line_of(indent + (signs + seq![' '] + title)) == seq![
            stretch(indent, SpanStyle { fg: None, bg: None, bold: false }),
            stretch(title, SpanStyle { fg: Some(Tint::Cyan), bg: None, bold: true }),
        ],
{
    reveal_strlit("# ");
    reveal_strlit("## ");
    reveal_strlit("### ");
    let rest = signs + seq![' '] + title;
    let n = signs.len() as int;
    assert(rest[0] == signs[0]);
    lemma_indent(indent, rest, 0);
    assert(rest[n] == ' ');
    assert(rest.skip(n + 1) =~= title);
    assert(forall|i: int| 0 <= i < n ==> #[trigger] rest[i] == '#');
    if n == 1 {
        assert(rest.subrange(0, 2) =~= "# "@);
        if rest.len() >= 3 {
            assert(rest.subrange(0, 3)[1] == ' ');
        }
        if rest.len() >= 4 {
            assert(rest.subrange(0, 4)[1] == ' ');
        }
    } else if n == 2 {
        assert(rest.subrange(0, 3) =~= "## "@);
        if rest.len() >= 4 {
            assert(rest.subrange(0, 4)[2] == ' ');
        }
    } else {
        assert(rest.subrange(0, 4) =~= "### "@);
    }
}

/// A line of a hyphen or a star and a space is an item of a list: it has a bullet in the
/// colour of marks, and the rest of it is text.
pub proof fn hyphens_and_stars_make_items(indent: Seq<char>, mark: char, text: Seq<char>)
    requires
        all_white(indent),
        mark == '-' || mark == '*',
    ensures
        line_of(indent + (seq![mark, ' '] + text)) == seq![
            stretch(indent, SpanStyle { fg: None, bg: None, bold: false }),
            stretch(seq!['•', ' '], SpanStyle { fg: Some(Tint::Yellow), bg: None, bold: false }),
        ] + inline_of(text),
{
    reveal_strlit("# ");
    reveal_strlit("## ");
    reveal_strlit("### ");
    reveal_strlit("- ");
    reveal_strlit("* ");
    reveal_strlit("• ");
    let rest = seq![mark, ' '] + text;
    lemma_indent(indent, rest, 0);
    assert(rest[0] == mark);
    lemma_no_heading(rest);
    if mark == '-' {
        assert(rest.subrange(0, 2) =~= "- "@);
    } else {
        assert(rest.subrange(0, 2) =~= "* "@);
    }
    assert(rest.skip(2) =~= text);
    assert("• "@ =~= seq!['•', ' ']);
}

/// A text that does not start with a number sign is no heading.
proof fn lemma_no_heading(rest: Seq<char>)
    requires
        rest.len() > 0,
        rest[0] != '#',
    ensures
        !occurs_at(rest, "# "@, 0),
        !occurs_at(rest, "## "@, 0),
        !occurs_at(rest, "### "@, 0),
{
    reveal_strlit("# ");
    reveal_strlit("## ");
    reveal_strlit("### ");
    if occurs_at(rest, "# "@, 0) {
        assert(rest.subrange(0, 2)[0] == '#');
    }
    if occurs_at(rest, "## "@, 0) {
        assert(rest.subrange(0, 3)[0] == '#');
    }
    if occurs_at(rest, "### "@, 0) {
        assert(rest.subrange(0, 4)[0] == '#');
    }
}

/// A text that does not start with a hyphen or a star is no item.
proof fn lemma_no_item(rest: Seq<char>)
    requires
        rest.len() > 0,
        rest[0] != '-',
        rest[0] != '*',
    ensures
        !occurs_at(rest, "- "@, 0),
        !occurs_at(rest, "* "@, 0),
{
    reveal_strlit("- ");
    reveal_strlit("* ");
    if occurs_at(rest, "- "@, 0) {
        assert(rest.subrange(0, 2)[0] == '-');
    }
    if occurs_at(rest, "* "@, 0) {
        assert(rest.subrange(0, 2)[0] == '*');
    }
}

/// The first period with a space behind it.
proof fn lemma_period(s: Seq<char>, from: int)
    requires
        0 <= from,
    ensures
        period(s, from) matches Some(k) ==> from <= k && k + 1 < s.len() && s[k] == '.' && s[k
            + 1] == ' ' && (forall|j: int|
            from <= j < k ==> !(#[trigger] s[j] == '.' && s[j + 1] == ' ')),
        period(s, from) is None ==> forall|j: int|
            from <= j < s.len() - 1 ==> !(#[trigger] s[j] == '.' && s[j + 1] == ' '),
    decreases s.len() - from,
{
    if from + 1 < s.len() && !(s[from] == '.' && s[from + 1] == ' ') {
        lemma_period(s, from + 1);
    }
}

/// A line of a number, a period and a space is an item of a numbered list: the number
/// stays, in the colour of marks, and the rest of the line is text.
pub proof fn numbers_make_items(indent: Seq<char>, number: Seq<char>, text: Seq<char>)
    requires
        all_white(indent),
        number.len() > 0,
        forall|i: int| 0 <= i < number.len() ==> '0' <= #[trigger] number[i] && number[i] <= '9',
    ensures
        line_of(indent + (number + seq!['.', ' '] + text)) == seq![
            stretch(indent, SpanStyle { fg: None, bg: None, bold: false }),
            stretch(
                number + seq!['.', ' '],
                SpanStyle { fg: Some(Tint::Yellow), bg: None, bold: false },
            ),
        ] + inline_of(text),
{
    let rest = number + seq!['.', ' '] + text;
    let n = number.len() as int;
    assert(rest[0] == number[0]);
    lemma_indent(indent, rest, 0);
    lemma_no_heading(rest);
    lemma_no_item(rest);
    lemma_period(rest, 0);
    assert(rest[n] == '.' && rest[n + 1] == ' ');
    let k = period(rest, 0)->0;
    if k < n {
        assert(rest[k] == number[k]);
    } else if k > n {
        assert(!(rest[n] == '.' && rest[n + 1] == ' '));
    }
    assert(k == n);
    assert forall|i: int| 0 <= i < n implies is_digit(#[trigger] rest[i]) by {
        assert(rest[i] == number[i]);
    }
    assert(counter(rest) == Some(n));
    assert(rest.take(n) =~= number);
    assert(rest.skip(n + 2) =~= text);
    reveal_strlit(". ");
    assert(". "@ =~= seq!['.', ' ']);
}

/// Any other line is text behind its indent: one that starts with no number sign, no
/// hyphen, no star and no figure.
pub proof fn other_lines_are_text(indent: Seq<char>, rest: Seq<char>)
    requires
        all_white(indent),
        rest.len() > 0,
        !is_white(rest[0]),
        rest[0] != '#',
        rest[0] != '-',
        rest[0] != '*',
        rest[0] < '0' || rest[0] > '9',
    ensures
        line_of(indent + rest) == seq![
            stretch(indent, SpanStyle { fg: None, bg: None, bold: false }),
        ] + inline_of(rest),
{
    lemma_indent(indent, rest, 0);
    lemma_no_heading(rest);
    lemma_no_item(rest);
    lemma_period(rest, 0);
    if counter(rest) is Some {
        assert(is_digit(rest[0]));
    }
}

/// The lines of a text, joined by newlines, are the text, and none of them has a newline
/// in it.
pub proof fn lines_make_up_the_text(s: Seq<char>)
    ensures
        joined(lines_from(s, 0), seq!['\n']) == s,
        forall|i: int, j: int|
            0 <= i < lines_from(s, 0).len() && 0 <= j < lines_from(s, 0)[i].len() ==> #[trigger]
                lines_from(s, 0)[i][j] != '\n',
{
    lemma_lines(s, 0);
    assert(s.skip(0) =~= s);
}

proof fn lemma_lines(s: Seq<char>, from: int)
    requires
        0 <= from <= s.len(),
    ensures
        joined(lines_from(s, from), seq!['\n']) == s.skip(from),
        lines_from(s, from).len() > 0,
        forall|i: int, j: int|
            0 <= i < lines_from(s, from).len() && 0 <= j < lines_from(s, from)[i].len()
                ==> #[trigger] lines_from(s, from)[i][j] != '\n',
    decreases s.len() - from,
{
    let k = newline(s, from);
    lemma_newline(s, from);
    lemma_no_newline(s, from);
    let all = lines_from(s, from);
    if k < s.len() {
        lemma_lines(s, k + 1);
        let line = s.subrange(from, k);
        let later = lines_from(s, k + 1);
        assert(all =~= seq![line] + later);
        crate::text_laws::joining_works_by_parts(seq![line], later, seq!['\n']);
        assert(s.skip(from) =~= line + seq!['\n'] + s.skip(k + 1));
        assert forall|i: int, j: int| 0 <= i < all.len() && 0 <= j < all[i].len() implies #[trigger]
            all[i][j] != '\n' by {
            if i > 0 {
                assert(all[i] == later[i - 1]);
                assert(later[i - 1][j] != '\n');
            } else {
                assert(all[i][j] == s[from + j]);
            }
        }
    } else {
        assert(all =~= seq![s.skip(from)]);
        assert forall|i: int, j: int| 0 <= i < all.len() && 0 <= j < all[i].len() implies #[trigger]
            all[i][j] != '\n' by {
            assert(all[i][j] == s[from + j]);
        }
    }
}

proof fn lemma_no_newline(s: Seq<char>, from: int)
    requires
        0 <= from <= s.len(),
    ensures
        forall|i: int| from <= i < newline(s, from) ==> #[trigger] s[i] != '\n',
    decreases s.len() - from,
{
    if from < s.len() && s[from] != '\n' {
        lemma_no_newline(s, from + 1);
    }
}

} // verus!
