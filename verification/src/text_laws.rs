//! What numerals, lists and trimmed texts say, read from the outside.

use crate::text::{
    before_space, dec, digit, first_word, hex, is_white, joined, leading, padded_left,
    padded_right, signed_dec, trimmed, trimmed_end, white_from,
};
use vstd::prelude::*;

verus! {

/// The value of a digit: figures first, and then upper-case letters.
pub open spec fn digit_value(c: char) -> int {
    if '0' <= c && c <= '9' {
        c as int - '0' as int
    } else {
        c as int - 'A' as int + 10
    }
}

/// The number that the digits of a numeral give.
pub open spec fn number_of(s: Seq<char>, base: int) -> int
    decreases s.len(),
{
    if s.len() == 0 {
        0
    } else {
        number_of(s.drop_last(), base) * base + digit_value(s.last())
    }
}

/// A digit has its value, and is a figure below ten.
proof fn lemma_digit(d: int)
    requires
        0 <= d < 16,
    ensures
        digit_value(digit(d)) == d,
        d < 10 ==> '0' <= digit(d) && digit(d) <= '9',
        d != 0 ==> digit(d) != '0',
        d >= 10 ==> 'A' <= digit(d) && digit(d) <= 'F',
{
}

/// A numeral stands for its number, is made of figures alone, and starts with no zero
/// unless the number is zero.
pub proof fn numerals_read_back(n: int)
    requires
        0 <= n,
    ensures
        number_of(dec(n), 10) == n,
        dec(n).len() > 0,
        forall|i: int| 0 <= i < dec(n).len() ==> '0' <= #[trigger] dec(n)[i] && dec(n)[i] <= '9',
        n > 0 ==> dec(n)[0] != '0',
        n == 0 ==> dec(n).len() == 1,
    decreases n,
{
    lemma_digit(n % 10);
    if n < 10 {
        lemma_digit(n);
        assert(dec(n).drop_last() =~= Seq::<char>::empty());
        assert(number_of(Seq::<char>::empty(), 10) == 0);
    } else {
        numerals_read_back(n / 10);
        assert(dec(n).drop_last() =~= dec(n / 10));
    }
}

/// Different numbers have different numerals.
pub proof fn numerals_differ(m: int, n: int)
    requires
        0 <= m,
        0 <= n,
        dec(m) == dec(n),
    ensures
        m == n,
{
    numerals_read_back(m);
    numerals_read_back(n);
}

/// A negative number has a minus sign in front of the numeral of its size.
pub proof fn signed_numerals_read_back(n: int)
    ensures
        n >= 0 ==> number_of(signed_dec(n), 10) == n,
        n < 0 ==> signed_dec(n)[0] == '-' && number_of(signed_dec(n).skip(1), 10) == -n,
{
    if n < 0 {
        numerals_read_back(-n);
        assert(signed_dec(n).skip(1) =~= dec(-n));
    } else {
        numerals_read_back(n);
    }
}

/// A hexadecimal numeral stands for its number and starts with no zero unless the
/// number is zero.
pub proof fn hexadecimal_numerals_read_back(n: int)
    requires
        0 <= n,
    ensures
        number_of(hex(n), 16) == n,
        hex(n).len() > 0,
        n > 0 ==> hex(n)[0] != '0',
        n == 0 ==> hex(n).len() == 1,
        forall|i: int|
            0 <= i < hex(n).len() ==> ('0' <= #[trigger] hex(n)[i] && hex(n)[i] <= '9') || ('A'
                <= hex(n)[i] && hex(n)[i] <= 'F'),
    decreases n,
{
    lemma_digit(n % 16);
    if n < 16 {
        lemma_digit(n);
        assert(hex(n).drop_last() =~= Seq::<char>::empty());
        assert(number_of(Seq::<char>::empty(), 16) == 0);
    } else {
        hexadecimal_numerals_read_back(n / 16);
        assert(hex(n).drop_last() =~= hex(n / 16));
    }
}

/// Padding reaches the width where the text is shorter, adds nothing where it is not,
/// and keeps the text at its end or at its start.
pub proof fn padding_reaches_the_width(s: Seq<char>, c: char, width: int)
    ensures
        s.len() < width ==> padded_left(s, c, width).len() == width && padded_right(
            s,
            width,
        ).len() == width,
        s.len() >= width ==> padded_left(s, c, width) == s && padded_right(s, width) == s,
        padded_left(s, c, width).skip(padded_left(s, c, width).len() - s.len()) == s,
        padded_right(s, width).take(s.len() as int) == s,
        forall|i: int|
            0 <= i < padded_left(s, c, width).len() - s.len() ==> #[trigger] padded_left(
                s,
                c,
                width,
            )[i] == c,
        forall|i: int|
            s.len() <= i < padded_right(s, width).len() ==> #[trigger] padded_right(s, width)[i]
                == ' ',
{
    let a = padded_left(s, c, width);
    let b = padded_right(s, width);
    assert(a.skip(a.len() - s.len()) =~= s);
    assert(b.take(s.len() as int) =~= s);
    if s.len() >= width {
        assert(a =~= s);
        assert(b =~= s);
    }
}

/// Lists that are joined one behind the other have the separator between them once.
pub proof fn joining_works_by_parts(a: Seq<Seq<char>>, b: Seq<Seq<char>>, separator: Seq<char>)
    requires
        a.len() > 0,
        b.len() > 0,
    ensures
        joined(a + b, separator) == joined(a, separator) + separator + joined(b, separator),
        a.len() == 1 ==> joined(a, separator) == a[0],
    decreases b.len(),
{
    let s = a + b;
    assert(s.drop_last() =~= a + b.drop_last());
    assert(s.last() == b.last());
    if b.len() == 1 {
        assert(a + b.drop_last() =~= a);
        assert(joined(b, separator) =~= b[0]);
    } else {
        joining_works_by_parts(a, b.drop_last(), separator);
        assert(joined(s, separator) =~= joined(a, separator) + separator + joined(b, separator));
    }
}

/// White space is what separates words in any script: the blanks, line ends and
/// separators, and none of the characters between them.
pub proof fn white_space_separates_words(c: char)
    ensures
        c == ' ' || c == '\t' || c == '\n' || c == '\r' ==> is_white(c),
        c == '\u{b}' || c == '\u{c}' || c == '\u{85}' || c == '\u{a0}' ==> is_white(c),
        c == '\u{1680}' || c == '\u{2028}' || c == '\u{2029}' || c == '\u{202f}' ==> is_white(c),
        c == '\u{205f}' || c == '\u{3000}' ==> is_white(c),
        '\u{2000}' <= c && c <= '\u{200a}' ==> is_white(c),
        c < '\t' ==> !is_white(c),
        '\r' < c && c < ' ' ==> !is_white(c),
        ' ' < c && c < '\u{85}' ==> !is_white(c),
        '\u{85}' < c && c < '\u{a0}' ==> !is_white(c),
        '\u{a0}' < c && c < '\u{1680}' ==> !is_white(c),
        '\u{1680}' < c && c < '\u{2000}' ==> !is_white(c),
        '\u{200a}' < c && c < '\u{2028}' ==> !is_white(c),
        '\u{2029}' < c && c < '\u{202f}' ==> !is_white(c),
        '\u{202f}' < c && c < '\u{205f}' ==> !is_white(c),
        '\u{205f}' < c && c < '\u{3000}' ==> !is_white(c),
        '\u{3000}' < c ==> !is_white(c),
{
}

/// All characters of a text are white space.
pub open spec fn all_white(s: Seq<char>) -> bool {
    forall|i: int| 0 <= i < s.len() ==> is_white(#[trigger] s[i])
}

/// What is left behind the run of white space at the end.
proof fn lemma_before_space(s: Seq<char>, n: int)
    requires
        0 <= n <= s.len(),
    ensures
        0 <= before_space(s, n) <= n,
        before_space(s, n) > 0 ==> !is_white(s[before_space(s, n) - 1]),
        forall|i: int| before_space(s, n) <= i < n ==> is_white(#[trigger] s[i]),
    decreases n,
{
    if n > 0 && is_white(s[n - 1]) {
        lemma_before_space(s, n - 1);
    }
}

/// Trimming the end takes away white space alone, and all of it.
pub proof fn trimming_the_end_takes_white_space(s: Seq<char>)
    ensures
        exists|w: Seq<char>| #[trigger] all_white(w) && s == trimmed_end(s) + w,
        trimmed_end(s).len() > 0 ==> !is_white(trimmed_end(s).last()),
{
    let n = before_space(s, s.len() as int);
    lemma_before_space(s, s.len() as int);
    let w = s.skip(n);
    assert(all_white(w));
    assert(s =~= trimmed_end(s) + w);
}

/// Where the white space at the start ends.
proof fn lemma_leading(s: Seq<char>, from: int)
    requires
        0 <= from <= s.len(),
    ensures
        from <= leading(s, from) <= s.len(),
        leading(s, from) < s.len() ==> !is_white(s[leading(s, from)]),
        forall|i: int| from <= i < leading(s, from) ==> is_white(#[trigger] s[i]),
    decreases s.len() - from,
{
    if from < s.len() && is_white(s[from]) {
        lemma_leading(s, from + 1);
    }
}

/// Trimming takes away white space alone, and all of it on both sides.
pub proof fn trimming_takes_white_space(s: Seq<char>)
    ensures
        exists|v: Seq<char>, w: Seq<char>| #[trigger]
            all_white(v) && #[trigger] all_white(w) && s == v + trimmed(s) + w,
        trimmed(s).len() > 0 ==> !is_white(trimmed(s)[0]) && !is_white(trimmed(s).last()),
{
    let n = leading(s, 0);
    lemma_leading(s, 0);
    let t = s.skip(n);
    trimming_the_end_takes_white_space(t);
    let v = s.take(n);
    let w = choose|w: Seq<char>| #[trigger] all_white(w) && t == trimmed_end(t) + w;
    assert(all_white(v));
    assert(s =~= v + t);
    assert(v + (trimmed_end(t) + w) =~= v + trimmed_end(t) + w);
    if trimmed(s).len() > 0 {
        assert(trimmed(s)[0] == t[0]);
        assert(t[0] == s[n]);
    }
}

/// Where the first word ends.
proof fn lemma_white_from(s: Seq<char>, from: int)
    requires
        0 <= from <= s.len(),
    ensures
        from <= white_from(s, from) <= s.len(),
        white_from(s, from) < s.len() ==> is_white(s[white_from(s, from)]),
        forall|i: int| from <= i < white_from(s, from) ==> !is_white(#[trigger] s[i]),
    decreases s.len() - from,
{
    if from < s.len() && !is_white(s[from]) {
        lemma_white_from(s, from + 1);
    }
}

/// The first word has no white space in it, and together with what follows it and the
/// white space around that it makes up the text.
pub proof fn first_words_are_words(s: Seq<char>)
    ensures
        ({
            let (head, rest) = first_word(s);
            &&& forall|i: int| 0 <= i < head.len() ==> !is_white(#[trigger] head[i])
            &&& rest.len() > 0 ==> !is_white(rest[0]) && !is_white(rest.last())
            &&& s == head ==> rest.len() == 0
            &&& s != head ==> exists|v: Seq<char>, w: Seq<char>|
                v.len() > 0 && #[trigger] all_white(v) && #[trigger] all_white(w) && s == head + v
                    + rest + w
        }),
{
    let n = white_from(s, 0);
    lemma_white_from(s, 0);
    let (head, rest) = first_word(s);
    if n < s.len() {
        let t = s.skip(n + 1);
        trimming_takes_white_space(t);
        let (v, w) = choose|v: Seq<char>, w: Seq<char>| #[trigger]
            all_white(v) && #[trigger] all_white(w) && t == v + trimmed(t) + w;
        let x = seq![s[n]] + v;
        assert(all_white(x));
        assert(s =~= s.take(n) + seq![s[n]] + t);
        assert(s =~= head + x + rest + w);
        assert(head.len() < s.len());
    }
}

/// A text without white space is its own first word, and a word in front of white space
/// is the first one whatever follows.
pub proof fn words_in_front_are_first(word: Seq<char>, c: char, tail: Seq<char>)
    requires
        forall|i: int| 0 <= i < word.len() ==> !is_white(#[trigger] word[i]),
        is_white(c),
    ensures
        first_word(word) == (word, Seq::<char>::empty()),
        first_word(word + seq![c] + tail) == (word, trimmed(tail)),
{
    lemma_white_from(word, 0);
    if white_from(word, 0) < word.len() {
        assert(is_white(word[white_from(word, 0)]));
    }
    let s = word + seq![c] + tail;
    let n = white_from(s, 0);
    lemma_white_from(s, 0);
    if n < word.len() {
        assert(s[n] == word[n]);
    }
    if n > word.len() {
        assert(s[word.len() as int] == c);
    }
    assert(s.take(n) =~= word);
    assert(s.skip(n + 1) =~= tail);
}

} // verus!
