//! The light markdown that models write, as lines of styled text.
//!
//! Headings, bullets, numbered items, bold text and inline code are known; all
//! else is shown as it stands. Leading white space is kept.

use crate::chat::span::{
    heading, line1, line2, line_views, plain, stretch, stretches, strong, tinted, SpanStyle,
    Stretch, StyledLine, StyledSpan, Tint,
};
use crate::text::{cat2, chars_of, count_leading, leading, occurs_at, owned, stands_at, text_of};
use vstd::prelude::*;
use vstd::slice::slice_subrange;

verus! {

/// The first place at or behind `from` where two stars stand.
pub open spec fn double_star(s: Seq<char>, from: int) -> Option<int>
    decreases s.len() - from,
{
    if from < 0 || from + 1 >= s.len() {
        None
    } else if s[from] == '*' && s[from + 1] == '*' {
        Some(from)
    } else {
        double_star(s, from + 1)
    }
}

/// The first place at or behind `from` where a backtick stands.
pub open spec fn backtick(s: Seq<char>, from: int) -> Option<int>
    decreases s.len() - from,
{
    if from < 0 || from >= s.len() {
        None
    } else if s[from] == '`' {
        Some(from)
    } else {
        backtick(s, from + 1)
    }
}

/// Two stars open at a place, and two stars close them further on.
pub open spec fn bold_at(s: Seq<char>, i: int) -> Option<int> {
    if i + 1 < s.len() && s[i] == '*' && s[i + 1] == '*' {
        double_star(s, i + 2)
    } else {
        None
    }
}

/// A backtick opens at a place, and another one closes it further on.
pub open spec fn code_at(s: Seq<char>, i: int) -> Option<int> {
    if s[i] == '`' {
        backtick(s, i + 1)
    } else {
        None
    }
}

/// Ordinary text in front of something marked; nothing where there is none.
pub open spec fn ordinary(s: Seq<char>) -> Seq<Stretch> {
    if s.len() == 0 {
        Seq::empty()
    } else {
        seq![stretch(s, plain())]
    }
}

/// The two stars that close are behind those that open.
pub proof fn lemma_double_star(s: Seq<char>, from: int)
    ensures
        double_star(s, from) matches Some(k) ==> from <= k && k + 1 < s.len(),
    decreases s.len() - from,
{
    if 0 <= from && from + 1 < s.len() && !(s[from] == '*' && s[from + 1] == '*') {
        lemma_double_star(s, from + 1);
    }
}

/// The backtick that closes is behind the one that opens.
pub proof fn lemma_backtick(s: Seq<char>, from: int)
    ensures
        backtick(s, from) matches Some(k) ==> from <= k < s.len(),
    decreases s.len() - from,
{
    if 0 <= from < s.len() && s[from] != '`' {
        lemma_backtick(s, from + 1);
    }
}

/// The stretches of a text from character `i` on, behind the ordinary text
/// `pending` that has not been given out yet.
pub open spec fn inline_from(s: Seq<char>, i: int, pending: Seq<char>) -> Seq<Stretch>
    decreases s.len() - i,
{
    if i < 0 || i >= s.len() {
        ordinary(pending)
    } else {
        match bold_at(s, i) {
            Some(close) => {
                proof {
                    lemma_double_star(s, i + 2);
                }
                ordinary(pending) + seq![stretch(s.subrange(i + 2, close), strong())]
                    + inline_from(s, close + 2, Seq::empty())
            },
            None => match code_at(s, i) {
                Some(close) => {
                    proof {
                        lemma_backtick(s, i + 1);
                    }
                    ordinary(pending) + seq![
                        stretch(s.subrange(i + 1, close), tinted(Tint::Yellow)),
                    ] + inline_from(s, close + 1, Seq::empty())
                },
                None => inline_from(s, i + 1, pending.push(s[i])),
            },
        }
    }
}

/// The stretches of a text: bold between pairs of stars, code between
/// backticks, and what lies between those.
pub open spec fn inline_of(s: Seq<char>) -> Seq<Stretch> {
    inline_from(s, 0, Seq::empty())
}

/// The first place at or behind `from` where a period and a space stand.
pub open spec fn period(s: Seq<char>, from: int) -> Option<int>
    decreases s.len() - from,
{
    if from < 0 || from + 1 >= s.len() {
        None
    } else if s[from] == '.' && s[from + 1] == ' ' {
        Some(from)
    } else {
        period(s, from + 1)
    }
}

/// A decimal digit.
pub open spec fn is_digit(c: char) -> bool {
    '0' <= c <= '9'
}

/// How long the number is that a text starts with, if a period and a space
/// follow it.
pub open spec fn counter(s: Seq<char>) -> Option<int> {
    match period(s, 0) {
        Some(k) => if k > 0 && (forall|i: int| 0 <= i < k ==> is_digit(#[trigger] s[i])) {
            Some(k)
        } else {
            None
        },
        None => None,
    }
}

/// A line of markdown as a line of styled text.
pub open spec fn line_of(s: Seq<char>) -> Seq<Stretch> {
    let n = leading(s, 0);
    let indent = stretch(s.take(n), plain());
    let rest = s.skip(n);
    if occurs_at(rest, "### "@, 0) {
        seq![indent, stretch(rest.skip(4), heading())]
    } else if occurs_at(rest, "## "@, 0) {
        seq![indent, stretch(rest.skip(3), heading())]
    } else if occurs_at(rest, "# "@, 0) {
        seq![indent, stretch(rest.skip(2), heading())]
    } else if occurs_at(rest, "- "@, 0) || occurs_at(rest, "* "@, 0) {
        seq![indent, stretch("• "@, tinted(Tint::Yellow))] + inline_of(rest.skip(2))
    } else {
        match counter(rest) {
            Some(k) => seq![
                indent,
                stretch(rest.take(k) + ". "@, tinted(Tint::Yellow)),
            ] + inline_of(rest.skip(k + 2)),
            None => seq![indent] + inline_of(rest),
        }
    }
}

/// The first newline at or behind `from`, or the end.
pub open spec fn newline(s: Seq<char>, from: int) -> int
    decreases s.len() - from,
{
    if 0 <= from < s.len() && s[from] != '\n' {
        newline(s, from + 1)
    } else {
        from
    }
}

/// The first newline is no earlier than where the search starts.
pub proof fn lemma_newline(s: Seq<char>, from: int)
    requires
        0 <= from <= s.len(),
    ensures
        from <= newline(s, from) <= s.len(),
        newline(s, from) < s.len() ==> s[newline(s, from)] == '\n',
    decreases s.len() - from,
{
    if from < s.len() && s[from] != '\n' {
        lemma_newline(s, from + 1);
    }
}

/// The lines of a text from character `from` on.
pub open spec fn lines_from(s: Seq<char>, from: int) -> Seq<Seq<char>>
    decreases s.len() - from,
{
    let k = newline(s, from);
    if from < 0 || from > s.len() || k >= s.len() || k < from {
        seq![s.skip(from)]
    } else {
        seq![s.subrange(from, k)] + lines_from(s, k + 1)
    }
}

/// The styled lines of a text.
pub open spec fn markdown_of(s: Seq<char>) -> Seq<Seq<Stretch>> {
    lines_from(s, 0).map_values(|l: Seq<char>| line_of(l))
}

/// Where two stars close.
pub fn find_double_star(chars: &[char], from: usize) -> (r: Option<usize>)
    ensures
        match r {
            Some(k) => double_star(chars@, from as int) == Some(k as int),
            None => double_star(chars@, from as int) is None,
        },
{
    let n: usize = chars.len();
    let mut i: usize = from;
    while i < n && n - i > 1
        invariant
            from <= i,
            n == chars@.len(),
            double_star(chars@, i as int) == double_star(chars@, from as int),
        decreases n - i,
    {
        if chars[i] == '*' && chars[i + 1] == '*' {
            return Some(i);
        }
        i = i + 1;
    }
    None
}

/// Where a backtick closes.
fn find_backtick(chars: &[char], from: usize) -> (r: Option<usize>)
    ensures
        match r {
            Some(k) => backtick(chars@, from as int) == Some(k as int),
            None => backtick(chars@, from as int) is None,
        },
{
    let mut i: usize = from;
    while i < chars.len()
        invariant
            from <= i,
            backtick(chars@, i as int) == backtick(chars@, from as int),
        decreases chars.len() - i,
    {
        if chars[i] == '`' {
            return Some(i);
        }
        i = i + 1;
    }
    None
}

/// Gives out ordinary text, if there is any.
fn flush_buf(buf: &mut Vec<char>, spans: &mut Vec<StyledSpan>)
    ensures
        final(buf)@.len() == 0,
        stretches(final(spans)@) == stretches(old(spans)@) + ordinary(old(buf)@),
{
    if buf.len() > 0 {
        let span = StyledSpan::new(text_of(buf), SpanStyle::raw());
        spans.push(span);
        *buf = Vec::new();
        proof {
            assert(stretches(spans@) =~= stretches(old(spans)@) + ordinary(old(buf)@));
        }
    } else {
        proof {
            assert(stretches(spans@) =~= stretches(old(spans)@) + ordinary(old(buf)@));
        }
    }
}

/// The stretches of a text.
#[verifier::rlimit(30)]
fn parse_inline(text: &[char]) -> (r: Vec<StyledSpan>)
    ensures
        stretches(r@) == inline_of(text@),
{
    let mut spans: Vec<StyledSpan> = Vec::new();
    let mut buf: Vec<char> = Vec::new();
    let mut i: usize = 0;
    let n: usize = text.len();
    proof {
        assert(stretches(spans@) + inline_from(text@, 0, Seq::empty()) =~= inline_of(text@));
        assert(buf@ =~= Seq::empty());
    }
    while i < n
        invariant
            i <= n,
            n == text@.len(),
            stretches(spans@) + inline_from(text@, i as int, buf@) == inline_of(text@),
        decreases n - i,
    {
        let ghost before = stretches(spans@);
        let ghost held = buf@;
        let ghost here = i as int;
        if text[i] == '*' && n - i > 1 && text[i + 1] == '*' && n - i > 2 {
            match find_double_star(text, i + 2) {
                Some(close) => {
                    proof {
                        lemma_double_star(text@, i + 2);
                    }
                    flush_buf(&mut buf, &mut spans);
                    let body = text_of(slice_subrange(text, i + 2, close));
                    let ghost mid = stretches(spans@);
                    spans.push(StyledSpan::new(body, SpanStyle::bold()));
                    i = close + 2;
                    proof {
                        let piece = stretch(text@.subrange(here + 2, close as int), strong());
                        let rest = inline_from(text@, i as int, Seq::empty());
                        assert(buf@ =~= Seq::empty());
                        assert(stretches(spans@) =~= mid.push(piece));
                        assert(stretches(spans@) + rest =~= before + (ordinary(held) + seq![piece]
                            + rest));
                    }
                    continue ;
                },
                None => {},
            }
        }
        proof {
            assert(bold_at(text@, here) is None);
        }
        if text[i] == '`' {
            match find_backtick(text, i + 1) {
                Some(close) => {
                    proof {
                        lemma_backtick(text@, i + 1);
                    }
                    flush_buf(&mut buf, &mut spans);
                    let body = text_of(slice_subrange(text, i + 1, close));
                    let ghost mid = stretches(spans@);
                    spans.push(StyledSpan::new(body, SpanStyle::colored(Tint::Yellow)));
                    i = close + 1;
                    proof {
                        let piece = stretch(
                            text@.subrange(here + 1, close as int),
                            tinted(Tint::Yellow),
                        );
                        let rest = inline_from(text@, i as int, Seq::empty());
                        assert(buf@ =~= Seq::empty());
                        assert(stretches(spans@) =~= mid.push(piece));
                        assert(stretches(spans@) + rest =~= before + (ordinary(held) + seq![piece]
                            + rest));
                    }
                    continue ;
                },
                None => {},
            }
        }
        buf.push(text[i]);
        i = i + 1;
    }
    flush_buf(&mut buf, &mut spans);
    spans
}

/// How long the number is that a text starts with, if a period and a space
/// follow it.
fn count_counter(chars: &[char]) -> (r: Option<usize>)
    ensures
        match r {
            Some(k) => counter(chars@) == Some(k as int) && k + 2 <= chars@.len(),
            None => counter(chars@) is None,
        },
{
    let n: usize = chars.len();
    let mut i: usize = 0;
    while i < n && n - i > 1 && !(chars[i] == '.' && chars[i + 1] == ' ')
        invariant
            i <= n,
            n == chars@.len(),
            period(chars@, i as int) == period(chars@, 0),
        decreases n - i,
    {
        i = i + 1;
    }
    if n - i <= 1 {
        return None;
    }
    let k: usize = i;
    if k == 0 {
        return None;
    }
    let mut j: usize = 0;
    while j < k
        invariant
            j <= k < n,
            n == chars@.len(),
            period(chars@, 0) == Some(k as int),
            forall|a: int| 0 <= a < j ==> is_digit(#[trigger] chars@[a]),
        decreases k - j,
    {
        if !('0' <= chars[j] && chars[j] <= '9') {
            proof {
                assert(!is_digit(chars@[j as int]));
            }
            return None;
        }
        j = j + 1;
    }
    Some(k)
}

/// Whether a text starts with another.
fn starts(chars: &[char], prefix: &str) -> (b: bool)
    ensures
        b == occurs_at(chars@, prefix@, 0),
{
    let part = chars_of(prefix);
    stands_at(chars, &part, 0)
}

/// A line whose inline stretches follow others.
fn with_inline(head: StyledLine, rest: &[char]) -> (l: StyledLine)
    ensures
        l@ == head@ + inline_of(rest@),
{
    let ghost before = head@;
    let mut spans = head.spans;
    let mut more = parse_inline(rest);
    let ghost first = spans@;
    let ghost second = more@;
    spans.append(&mut more);
    let l = StyledLine { spans };
    proof {
        assert(l.spans@ =~= first + second);
        assert(l@ =~= stretches(first) + stretches(second));
    }
    l
}

/// A line of markdown as a line of styled text.
fn parse_line(line: &[char]) -> (l: StyledLine)
    ensures
        l@ == line_of(line@),
{
    let n = count_leading(line);
    let len: usize = line.len();
    let blank = slice_subrange(line, 0, n);
    let rest = slice_subrange(line, n, len);
    let size: usize = rest.len();
    let indent = StyledSpan::new(text_of(blank), SpanStyle::raw());
    proof {
        reveal_strlit("### ");
        reveal_strlit("## ");
        reveal_strlit("# ");
        reveal_strlit("- ");
        reveal_strlit("* ");
        assert(blank@ =~= line@.take(n as int));
        assert(rest@ =~= line@.skip(n as int));
    }
    if starts(rest, "### ") {
        let body = slice_subrange(rest, 4, size);
        proof {
            assert(body@ =~= rest@.skip(4));
        }
        return line2(indent, StyledSpan::new(text_of(body), SpanStyle::heading()));
    }
    if starts(rest, "## ") {
        let body = slice_subrange(rest, 3, size);
        proof {
            assert(body@ =~= rest@.skip(3));
        }
        return line2(indent, StyledSpan::new(text_of(body), SpanStyle::heading()));
    }
    if starts(rest, "# ") {
        let body = slice_subrange(rest, 2, size);
        proof {
            assert(body@ =~= rest@.skip(2));
        }
        return line2(indent, StyledSpan::new(text_of(body), SpanStyle::heading()));
    }
    if starts(rest, "- ") || starts(rest, "* ") {
        let body = slice_subrange(rest, 2, size);
        proof {
            assert(body@ =~= rest@.skip(2));
        }
        let bullet = StyledSpan::new(owned("• "), SpanStyle::colored(Tint::Yellow));
        return with_inline(line2(indent, bullet), body);
    }
    match count_counter(rest) {
        Some(k) => {
            let number = text_of(slice_subrange(rest, 0, k));
            let body = slice_subrange(rest, k + 2, size);
            proof {
                assert(number@ =~= rest@.take(k as int));
                assert(body@ =~= rest@.skip(k + 2));
            }
            let label = StyledSpan::new(
                cat2(number.as_str(), ". "),
                SpanStyle::colored(Tint::Yellow),
            );
            with_inline(line2(indent, label), body)
        },
        None => with_inline(line1(indent), rest),
    }
}

/// A text in light markdown as lines of styled text, one for each line of the
/// text.
pub fn render_markdown_lines(text: &str) -> (r: Vec<StyledLine>)
    ensures
        line_views(r@) == markdown_of(text@),
{
    let chars = chars_of(text);
    let n: usize = chars.len();
    let mut out: Vec<StyledLine> = Vec::new();
    let mut from: usize = 0;
    let mut i: usize = 0;
    let ghost f = |l: Seq<char>| line_of(l);
    proof {
        assert(line_views(out@) + lines_from(text@, 0).map_values(f) =~= markdown_of(text@));
    }
    while i < n
        invariant
            from <= i <= n,
            n == chars@.len(),
            chars@ == text@,
            f == (|l: Seq<char>| line_of(l)),
            newline(text@, i as int) == newline(text@, from as int),
            line_views(out@) + lines_from(text@, from as int).map_values(f) == markdown_of(text@),
        decreases n - i,
    {
        if chars[i] == '\n' {
            let piece = slice_subrange(&chars, from, i);
            let ghost before = line_views(out@);
            out.push(parse_line(piece));
            proof {
                let rest = lines_from(text@, i + 1);
                assert(lines_from(text@, from as int) == seq![piece@] + rest);
                assert(lines_from(text@, from as int).map_values(f) =~= seq![line_of(piece@)]
                    + rest.map_values(f));
                assert(line_views(out@) =~= before.push(line_of(piece@)));
                assert(line_views(out@) + rest.map_values(f) =~= before + (seq![line_of(piece@)]
                    + rest.map_values(f)));
            }
            from = i + 1;
        }
        i = i + 1;
    }
    let piece = slice_subrange(&chars, from, n);
    let ghost before = line_views(out@);
    out.push(parse_line(piece));
    proof {
        assert(piece@ =~= text@.skip(from as int));
        assert(lines_from(text@, from as int).map_values(f) =~= seq![line_of(piece@)]);
        assert(line_views(out@) =~= before + seq![line_of(piece@)]);
    }
    out
}

/// Text without stars and backticks is one stretch of ordinary text.
pub proof fn unmarked_text_stays(s: Seq<char>)
    requires
        forall|i: int| 0 <= i < s.len() ==> #[trigger] s[i] != '*' && s[i] != '`',
    ensures
        inline_of(s) == ordinary(s),
{
    lemma_unmarked(s, 0);
    assert(s.take(0) =~= Seq::empty());
}

/// The same from character `i` on.
proof fn lemma_unmarked(s: Seq<char>, i: int)
    requires
        forall|k: int| 0 <= k < s.len() ==> #[trigger] s[k] != '*' && s[k] != '`',
        0 <= i <= s.len(),
    ensures
        inline_from(s, i, s.take(i)) == ordinary(s),
    decreases s.len() - i,
{
    if i < s.len() {
        lemma_unmarked(s, i + 1);
        assert(s[i] != '*' && s[i] != '`');
        assert(s.take(i).push(s[i]) =~= s.take(i + 1));
    } else {
        assert(s.take(i) =~= s);
    }
}

/// A text has one line more than it has newlines.
pub proof fn lines_are_counted_by_newlines(s: Seq<char>, from: int)
    requires
        0 <= from <= s.len(),
    ensures
        lines_from(s, from).len() == 1 + newlines(s, from),
    decreases s.len() - from,
{
    let k = newline(s, from);
    lemma_newline(s, from);
    lemma_newlines_skip(s, from);
    if k < s.len() {
        lines_are_counted_by_newlines(s, k + 1);
    }
}

/// How many newlines stand at or behind `from`.
pub open spec fn newlines(s: Seq<char>, from: int) -> int
    decreases s.len() - from,
{
    if 0 <= from < s.len() {
        newlines(s, from + 1) + if s[from] == '\n' {
            1int
        } else {
            0int
        }
    } else {
        0
    }
}

/// No newline stands in front of the first one.
proof fn lemma_newlines_skip(s: Seq<char>, from: int)
    requires
        0 <= from <= s.len(),
    ensures
        newlines(s, from) == newlines(s, newline(s, from)),
    decreases s.len() - from,
{
    if from < s.len() && s[from] != '\n' {
        lemma_newlines_skip(s, from + 1);
    }
}

} // verus!
