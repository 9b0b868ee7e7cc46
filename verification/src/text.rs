//! Text as sequences of characters: decimal and hexadecimal numerals,
//! concatenation, padding, and the few string operations of std that the
//! rest of the library needs.

use vstd::prelude::*;
use vstd::utf8::*;

verus! {

/// The character that stands for a digit value below sixteen.
pub open spec fn digit(d: int) -> char {
    if d == 0 { '0' } else if d == 1 { '1' } else if d == 2 { '2' } else if d == 3 { '3' }
    else if d == 4 { '4' } else if d == 5 { '5' } else if d == 6 { '6' } else if d == 7 { '7' }
    else if d == 8 { '8' } else if d == 9 { '9' } else if d == 10 { 'A' } else if d == 11 { 'B' }
    else if d == 12 { 'C' } else if d == 13 { 'D' } else if d == 14 { 'E' } else { 'F' }
}

/// The decimal numeral of `n`, without leading zeros.
pub open spec fn dec(n: int) -> Seq<char>
    decreases n,
{
    if n < 10 {
        seq![digit(n)]
    } else {
        dec(n / 10).push(digit(n % 10))
    }
}

/// The decimal numeral of a possibly negative number.
pub open spec fn signed_dec(n: int) -> Seq<char> {
    if n < 0 {
        seq!['-'] + dec(-n)
    } else {
        dec(n)
    }
}

/// The upper-case hexadecimal numeral of `n`, without leading zeros.
pub open spec fn hex(n: int) -> Seq<char>
    decreases n,
{
    if n < 16 {
        seq![digit(n)]
    } else {
        hex(n / 16).push(digit(n % 16))
    }
}

/// `count` copies of `c`.
pub open spec fn repeated(c: char, count: int) -> Seq<char> {
    Seq::new(if count > 0 { count as nat } else { 0 }, |i: int| c)
}

/// `s` followed by as many spaces as reach `width` characters.
pub open spec fn padded_right(s: Seq<char>, width: int) -> Seq<char> {
    s + repeated(' ', width - s.len())
}

/// `s` preceded by as many copies of `c` as reach `width` characters.
pub open spec fn padded_left(s: Seq<char>, c: char, width: int) -> Seq<char> {
    repeated(c, width - s.len()) + s
}

/// The items of `parts` with `separator` between neighbours.
pub open spec fn joined(parts: Seq<Seq<char>>, separator: Seq<char>) -> Seq<char>
    decreases parts.len(),
{
    if parts.len() == 0 {
        Seq::empty()
    } else if parts.len() == 1 {
        parts[0]
    } else {
        joined(parts.drop_last(), separator) + separator + parts.last()
    }
}

/// The characters of each string in a slice.
pub open spec fn views(strings: Seq<String>) -> Seq<Seq<char>> {
    strings.map_values(|s: String| s@)
}

/// The numerals of a list of numbers.
pub open spec fn numerals(values: Seq<u64>) -> Seq<Seq<char>> {
    values.map_values(|v: u64| dec(v as int))
}

/// A list of numbers as `[a, b, c]`.
pub open spec fn bracketed(values: Seq<u64>) -> Seq<char> {
    "["@ + joined(numerals(values), ", "@) + "]"@
}

/// What std's `Debug` formatting writes for a string: the text in double
/// quotes, with special characters escaped.
pub uninterp spec fn quoted(s: Seq<char>) -> Seq<char>;

/// What std's `Utf8Error` says of bytes that are not valid UTF-8.
pub uninterp spec fn utf8_fault(bytes: Seq<u8>) -> Seq<char>;

/// `String::push` appends one character.
pub assume_specification[ std::string::String::push ](s: &mut std::string::String, c: char)
    ensures
        final(s)@ == old(s)@.push(c),
;

/// `u64::is_power_of_two` holds exactly of the powers of two.
pub assume_specification[ u64::is_power_of_two ](n: u64) -> (b: bool)
    ensures
        b == power_of_two(n as int),
;

/// `n` is two to some power.
pub open spec fn power_of_two(n: int) -> bool {
    exists|k: nat| n == #[trigger] vstd::arithmetic::power2::pow2(k)
}

/// Formats with std's `Debug` for `str`; the result is a function of the text.
#[verifier::external_body]
pub(crate) fn quote(s: &str) -> (r: String)
    ensures
        r@ == quoted(s@),
{
    format!("{:?}", s)
}

/// Calls `String::from_utf8`: valid UTF-8 becomes the text it encodes, and
/// other bytes give the text of the error.
#[verifier::external_body]
pub(crate) fn utf8_text(bytes: Vec<u8>) -> (r: Result<String, String>)
    ensures
        r matches Ok(s) ==> valid_utf8(bytes@) && s@ == decode_utf8(bytes@),
        r matches Err(e) ==> !valid_utf8(bytes@) && e@ == utf8_fault(bytes@),
{
    match String::from_utf8(bytes) {
        Ok(s) => Ok(s),
        Err(e) => Err(format!("{}", e)),
    }
}

/// The character for a digit value.
pub fn digit_char(d: u64) -> (c: char)
    requires
        d < 16,
    ensures
        c == digit(d as int),
{
    if d == 0 { '0' } else if d == 1 { '1' } else if d == 2 { '2' } else if d == 3 { '3' }
    else if d == 4 { '4' } else if d == 5 { '5' } else if d == 6 { '6' } else if d == 7 { '7' }
    else if d == 8 { '8' } else if d == 9 { '9' } else if d == 10 { 'A' } else if d == 11 { 'B' }
    else if d == 12 { 'C' } else if d == 13 { 'D' } else if d == 14 { 'E' } else { 'F' }
}

/// Writes a number in decimal.
pub fn decimal(n: u64) -> (s: String)
    ensures
        s@ == dec(n as int),
    decreases n,
{
    let mut s = if n < 10 {
        String::new()
    } else {
        decimal(n / 10)
    };
    s.push(digit_char(n % 10));
    proof {
        if n < 10 {
            assert(Seq::<char>::empty().push(digit(n as int)) =~= seq![digit(n as int)]);
        }
    }
    s
}

/// Writes a signed number in decimal.
pub fn signed_decimal(n: i64) -> (s: String)
    ensures
        s@ == signed_dec(n as int),
{
    if n < 0 {
        let magnitude: u64 = if n == i64::MIN { 0x8000_0000_0000_0000u64 } else { (-n) as u64 };
        let mut s = String::new();
        s.push('-');
        proof {
            assert(Seq::<char>::empty().push('-') =~= seq!['-']);
        }
        s.append(decimal(magnitude).as_str());
        s
    } else {
        decimal(n as u64)
    }
}

/// Writes a number in upper-case hexadecimal.
pub fn hexadecimal(n: u64) -> (s: String)
    ensures
        s@ == hex(n as int),
    decreases n,
{
    let mut s = if n < 16 {
        String::new()
    } else {
        hexadecimal(n / 16)
    };
    s.push(digit_char(n % 16));
    proof {
        if n < 16 {
            assert(Seq::<char>::empty().push(digit(n as int)) =~= seq![digit(n as int)]);
        }
    }
    s
}

/// `count` copies of a character.
pub fn repeat_char(c: char, count: usize) -> (s: String)
    ensures
        s@ == repeated(c, count as int),
{
    let mut s = String::new();
    let mut i: usize = 0;
    while i < count
        invariant
            i <= count,
            s@ =~= repeated(c, i as int),
        decreases count - i,
    {
        s.push(c);
        i = i + 1;
    }
    s
}

/// Pads with spaces on the right.
pub fn pad_right(s: &str, width: usize) -> (r: String)
    ensures
        r@ == padded_right(s@, width as int),
{
    let n: usize = s.unicode_len();
    let mut r = String::from_str(s);
    if n < width {
        r.append(repeat_char(' ', width - n).as_str());
    } else {
        assert(s@ + repeated(' ', width - s@.len()) =~= s@);
    }
    r
}

/// Pads with a character on the left.
pub fn pad_left(s: &str, c: char, width: usize) -> (r: String)
    ensures
        r@ == padded_left(s@, c, width as int),
{
    let n: usize = s.unicode_len();
    if n < width {
        let mut r = repeat_char(c, width - n);
        r.append(s);
        r
    } else {
        assert(repeated(c, width - s@.len()) + s@ =~= s@);
        String::from_str(s)
    }
}

/// Two texts, one after the other.
pub fn cat2(a: &str, b: &str) -> (r: String)
    ensures
        r@ == a@ + b@,
{
    let mut r = String::from_str(a);
    r.append(b);
    r
}

/// Three texts, one after the other.
pub fn cat3(a: &str, b: &str, c: &str) -> (r: String)
    ensures
        r@ == a@ + b@ + c@,
{
    let mut r = cat2(a, b);
    r.append(c);
    r
}

/// Four texts, one after the other.
pub fn cat4(a: &str, b: &str, c: &str, d: &str) -> (r: String)
    ensures
        r@ == a@ + b@ + c@ + d@,
{
    let mut r = cat3(a, b, c);
    r.append(d);
    r
}

/// Five texts, one after the other.
pub fn cat5(a: &str, b: &str, c: &str, d: &str, e: &str) -> (r: String)
    ensures
        r@ == a@ + b@ + c@ + d@ + e@,
{
    let mut r = cat4(a, b, c, d);
    r.append(e);
    r
}

/// Six texts, one after the other.
pub fn cat6(a: &str, b: &str, c: &str, d: &str, e: &str, f: &str) -> (r: String)
    ensures
        r@ == a@ + b@ + c@ + d@ + e@ + f@,
{
    let mut r = cat5(a, b, c, d, e);
    r.append(f);
    r
}

/// Seven texts, one after the other.
pub fn cat7(a: &str, b: &str, c: &str, d: &str, e: &str, f: &str, g: &str) -> (r: String)
    ensures
        r@ == a@ + b@ + c@ + d@ + e@ + f@ + g@,
{
    let mut r = cat6(a, b, c, d, e, f);
    r.append(g);
    r
}

/// Eight texts, one after the other.
pub fn cat8(
    a: &str,
    b: &str,
    c: &str,
    d: &str,
    e: &str,
    f: &str,
    g: &str,
    h: &str,
) -> (r: String)
    ensures
        r@ == a@ + b@ + c@ + d@ + e@ + f@ + g@ + h@,
{
    let mut r = cat7(a, b, c, d, e, f, g);
    r.append(h);
    r
}

/// Joins strings with a separator.
pub fn join(parts: &Vec<String>, separator: &str) -> (r: String)
    ensures
        r@ == joined(views(parts@), separator@),
{
    let mut r = String::new();
    let mut i: usize = 0;
    while i < parts.len()
        invariant
            i <= parts.len(),
            r@ =~= joined(views(parts@.take(i as int)), separator@),
        decreases parts.len() - i,
    {
        let ghost before = views(parts@.take(i as int));
        let ghost after = views(parts@.take(i + 1));
        proof {
            assert(after.drop_last() =~= before);
            assert(after.last() == parts@[i as int]@);
        }
        if i > 0 {
            r.append(separator);
        }
        r.append(parts[i].as_str());
        proof {
            if i == 0 {
                assert(after[0] == parts@[0]@);
                assert(Seq::<char>::empty() + parts@[0]@ =~= parts@[0]@);
            }
        }
        i = i + 1;
    }
    proof {
        assert(parts@.take(parts@.len() as int) =~= parts@);
    }
    r
}

/// Writes a list of numbers as `[a, b, c]`.
pub fn bracket(values: &[u64]) -> (r: String)
    ensures
        r@ == bracketed(values@),
{
    let mut parts: Vec<String> = Vec::new();
    let mut i: usize = 0;
    while i < values.len()
        invariant
            i <= values.len(),
            parts@.len() == i,
            views(parts@) =~= numerals(values@.take(i as int)),
        decreases values.len() - i,
    {
        let ghost earlier = parts@;
        parts.push(decimal(values[i]));
        proof {
            assert(views(parts@) =~= views(earlier).push(dec(values@[i as int] as int)));
            assert(numerals(values@.take(i + 1)) =~= numerals(values@.take(i as int)).push(
                dec(values@[i as int] as int),
            ));
        }
        i = i + 1;
    }
    proof {
        assert(values@.take(values@.len() as int) =~= values@);
    }
    let inner = join(&parts, ", ");
    cat3("[", inner.as_str(), "]")
}

/// Whether two texts have the same characters.
pub fn same_text(a: &str, b: &str) -> (r: bool)
    ensures
        r == (a@ == b@),
{
    let x = a.as_bytes();
    let y = b.as_bytes();
    proof {
        encode_utf8_decode_utf8(a@);
        encode_utf8_decode_utf8(b@);
    }
    if x.len() != y.len() {
        return false;
    }
    let mut i: usize = 0;
    while i < x.len()
        invariant
            i <= x.len(),
            x.len() == y.len(),
            x@ == encode_utf8(a@),
            y@ == encode_utf8(b@),
            forall|j: int| 0 <= j < i ==> x@[j] == y@[j],
        decreases x.len() - i,
    {
        if x[i] != y[i] {
            return false;
        }
        i = i + 1;
    }
    proof {
        assert(x@ =~= y@);
    }
    true
}

/// The characters of a text, one by one.
pub fn chars_of(s: &str) -> (r: Vec<char>)
    ensures
        r@ == s@,
{
    let mut r: Vec<char> = Vec::new();
    for c in it: s.chars()
        invariant
            r@ =~= it.seq().take(it.index() as int),
            it.seq() == s@,
    {
        r.push(c);
    }
    proof {
        assert(s@.take(s@.len() as int) =~= s@);
    }
    r
}

/// A text made of characters.
pub fn text_of(chars: &[char]) -> (r: String)
    ensures
        r@ == chars@,
{
    let mut r = String::new();
    let mut i: usize = 0;
    while i < chars.len()
        invariant
            i <= chars.len(),
            r@ =~= chars@.take(i as int),
        decreases chars.len() - i,
    {
        r.push(chars[i]);
        i = i + 1;
    }
    proof {
        assert(chars@.take(chars@.len() as int) =~= chars@);
    }
    r
}

/// `part` stands in `whole` at character `at`.
pub open spec fn occurs_at(whole: Seq<char>, part: Seq<char>, at: int) -> bool {
    0 <= at && at + part.len() <= whole.len() && whole.subrange(at, at + part.len()) == part
}

/// Whether `part` stands in `whole` at a character.
pub fn stands_at(whole: &[char], part: &[char], at: usize) -> (b: bool)
    ensures
        b == occurs_at(whole@, part@, at as int),
{
    if at > whole.len() || part.len() > whole.len() - at {
        return false;
    }
    let mut i: usize = 0;
    while i < part.len()
        invariant
            i <= part.len(),
            at + part.len() <= whole.len(),
            forall|k: int| 0 <= k < i ==> whole@[at + k] == part@[k],
        decreases part.len() - i,
    {
        if whole[at + i] != part[i] {
            proof {
                assert(whole@.subrange(at as int, at + part@.len())[i as int] != part@[i as int]);
            }
            return false;
        }
        i = i + 1;
    }
    proof {
        assert(whole@.subrange(at as int, at + part@.len()) =~= part@);
    }
    true
}

/// Whether a text starts with another.
pub fn begins_with(s: &str, prefix: &str) -> (b: bool)
    ensures
        b == occurs_at(s@, prefix@, 0),
{
    let whole = chars_of(s);
    let part = chars_of(prefix);
    stands_at(whole.as_slice(), part.as_slice(), 0)
}

/// `s` ends with `suffix`.
pub open spec fn has_suffix(s: Seq<char>, suffix: Seq<char>) -> bool {
    occurs_at(s, suffix, s.len() - suffix.len())
}

/// Whether a text ends with another.
pub fn finishes_with(s: &str, suffix: &str) -> (b: bool)
    ensures
        b == has_suffix(s@, suffix@),
{
    let whole = chars_of(s);
    let part = chars_of(suffix);
    if part.len() > whole.len() {
        return false;
    }
    stands_at(whole.as_slice(), part.as_slice(), whole.len() - part.len())
}

/// A copy of a text slice.
pub fn owned(s: &str) -> (r: String)
    ensures
        r@ == s@,
{
    String::from_str(s)
}

/// Whether a text contains another.
pub open spec fn has_part(s: Seq<char>, part: Seq<char>) -> bool {
    exists|at: int| #[trigger] occurs_at(s, part, at)
}

/// Whether a text contains another.
pub fn contains(s: &str, part: &str) -> (b: bool)
    ensures
        b == has_part(s@, part@),
{
    let whole = chars_of(s);
    let needle = chars_of(part);
    if needle.len() > whole.len() {
        return false;
    }
    let last: usize = whole.len() - needle.len();
    let mut at: usize = 0;
    loop
        invariant
            last + needle@.len() == whole@.len(),
            at <= last,
            whole@ == s@,
            needle@ == part@,
            forall|i: int| 0 <= i < at ==> !#[trigger] occurs_at(s@, part@, i),
        decreases last - at,
    {
        if stands_at(&whole, &needle, at) {
            return true;
        }
        if at == last {
            return false;
        }
        at = at + 1;
    }
}

/// Characters that separate words: those with the Unicode property
/// `White_Space`.
pub open spec fn is_white(c: char) -> bool {
    let v = c as u32;
    ||| 0x9 <= v <= 0xd
    ||| v == 0x20
    ||| v == 0x85
    ||| v == 0xa0
    ||| v == 0x1680
    ||| 0x2000 <= v <= 0x200a
    ||| v == 0x2028
    ||| v == 0x2029
    ||| v == 0x202f
    ||| v == 0x205f
    ||| v == 0x3000
}

/// Whether a character separates words.
pub fn is_whitespace(c: char) -> (b: bool)
    ensures
        b == is_white(c),
{
    let v: u32 = c as u32;
    (0x9 <= v && v <= 0xd) || v == 0x20 || v == 0x85 || v == 0xa0 || v == 0x1680 || (0x2000 <= v
        && v <= 0x200a) || v == 0x2028 || v == 0x2029 || v == 0x202f || v == 0x205f || v == 0x3000
}

/// A text without its last character.
pub fn without_last(s: &str) -> (r: String)
    ensures
        r@ == if s@.len() == 0 {
            s@
        } else {
            s@.drop_last()
        },
{
    let mut chars = chars_of(s);
    if chars.len() > 0 {
        chars.truncate(chars.len() - 1);
    }
    let r = text_of(&chars);
    proof {
        if s@.len() > 0 {
            assert(r@ =~= s@.drop_last());
        }
    }
    r
}

/// How many of the first `n` characters are left when the run of white space at
/// their end is gone.
pub open spec fn before_space(s: Seq<char>, n: int) -> int
    decreases n,
{
    if n > 0 && is_white(s[n - 1]) {
        before_space(s, n - 1)
    } else {
        n
    }
}

/// A text without the white space at its end.
pub open spec fn trimmed_end(s: Seq<char>) -> Seq<char> {
    s.take(before_space(s, s.len() as int))
}

/// A text without the white space at its end.
pub fn trim_end(s: &str) -> (r: String)
    ensures
        r@ == trimmed_end(s@),
{
    let chars = chars_of(s);
    let mut n: usize = chars.len();
    while n > 0 && is_whitespace(chars[n - 1])
        invariant
            n <= chars@.len(),
            chars@ == s@,
            before_space(s@, n as int) == before_space(s@, s@.len() as int),
        decreases n,
    {
        n = n - 1;
    }
    let r = s.substring_char(0, n);
    proof {
        assert(r@ =~= trimmed_end(s@));
    }
    String::from_str(r)
}

/// How many characters of white space a text starts with.
pub open spec fn leading(s: Seq<char>, from: int) -> int
    decreases s.len() - from,
{
    if 0 <= from < s.len() && is_white(s[from]) {
        leading(s, from + 1)
    } else {
        from
    }
}

/// How many characters of white space a text starts with.
pub fn count_leading(chars: &[char]) -> (n: usize)
    ensures
        n == leading(chars@, 0),
        n <= chars@.len(),
{
    let mut i: usize = 0;
    while i < chars.len() && is_whitespace(chars[i])
        invariant
            i <= chars@.len(),
            leading(chars@, i as int) == leading(chars@, 0),
        decreases chars.len() - i,
    {
        i = i + 1;
    }
    i
}

/// A text without the white space at its start and at its end.
pub open spec fn trimmed(s: Seq<char>) -> Seq<char> {
    trimmed_end(s.skip(leading(s, 0)))
}

/// A text without the white space at its start and at its end.
pub fn trim(s: &str) -> (r: String)
    ensures
        r@ == trimmed(s@),
{
    let chars = chars_of(s);
    let from = count_leading(&chars);
    let rest = s.substring_char(from, chars.len());
    proof {
        assert(rest@ =~= s@.skip(from as int));
    }
    trim_end(rest)
}

/// The first white space at or behind `from`, or the end.
pub open spec fn white_from(s: Seq<char>, from: int) -> int
    decreases s.len() - from,
{
    if 0 <= from < s.len() && !is_white(s[from]) {
        white_from(s, from + 1)
    } else {
        from
    }
}

/// The first word of a text, and what follows it without the white space around
/// it.
pub open spec fn first_word(s: Seq<char>) -> (Seq<char>, Seq<char>) {
    let n = white_from(s, 0);
    if n < s.len() {
        (s.take(n), trimmed(s.skip(n + 1)))
    } else {
        (s, Seq::empty())
    }
}

/// The first word of a text, and what follows it without the white space around
/// it.
pub fn split_word(s: &str) -> (r: (String, String))
    ensures
        r.0@ == first_word(s@).0,
        r.1@ == first_word(s@).1,
{
    let chars = chars_of(s);
    let mut n: usize = 0;
    while n < chars.len() && !is_whitespace(chars[n])
        invariant
            n <= chars@.len(),
            white_from(chars@, n as int) == white_from(chars@, 0),
        decreases chars.len() - n,
    {
        n = n + 1;
    }
    if n < chars.len() {
        let head = s.substring_char(0, n);
        let rest = s.substring_char(n + 1, chars.len());
        proof {
            assert(head@ =~= s@.take(n as int));
            assert(rest@ =~= s@.skip(n + 1));
        }
        (String::from_str(head), trim(rest))
    } else {
        let none = String::new();
        proof {
            assert(none@ =~= Seq::empty());
        }
        (String::from_str(s), none)
    }
}

/// Whether a text is one of three.
pub fn is_one_of(s: &str, a: &str, b: &str, c: &str) -> (r: bool)
    ensures
        r == (s@ == a@ || s@ == b@ || s@ == c@),
{
    same_text(s, a) || same_text(s, b) || same_text(s, c)
}

} // verus!
