//! What listings keep of the values they list.

use crate::chat::stops::{floor_cut, floor_cut_is_last};
use crate::cut::{is_cut, left_of, lemma_cut, lemma_encode_concat, lemma_parts, right_of};
use crate::gguf::value::GgufValue;
use crate::report::{
    compact_text, cut_off, group_of, precedes, prefix_within, value_text, KeyGroup,
};
use crate::text::{dec, occurs_at};
use crate::text_laws::{number_of, numerals_read_back, signed_numerals_read_back};
use vstd::prelude::*;
use vstd::utf8::*;

verus! {

/// A text that is listed up to a number of bytes keeps as many of its first characters as
/// that many bytes hold, and not one more.
pub proof fn texts_keep_what_has_room(s: Seq<char>, max_bytes: int, k: int)
    requires
        0 <= max_bytes,
        0 <= k <= s.len(),
        encode_utf8(s.take(k)).len() <= max_bytes,
        k < s.len() ==> encode_utf8(s.take(k + 1)).len() > max_bytes,
    ensures
        prefix_within(s, max_bytes) == s.take(k),
{
    if k == s.len() {
        assert(s.take(k) =~= s);
    } else {
        let a = s.take(k);
        let b = s.take(k + 1);
        assert(a + s.skip(k) =~= s);
        assert(b + s.skip(k + 1) =~= s);
        lemma_cut(a, s.skip(k));
        lemma_cut(b, s.skip(k + 1));
        lemma_encode_concat(b, s.skip(k + 1));
        floor_cut_is_last(s, max_bytes);
        let f = floor_cut(s, max_bytes);
        let at = encode_utf8(a).len() as int;
        assert(is_cut(s, at));
        assert(f >= at);
        lemma_parts(s, f);
        let p = left_of(s, f);
        let q = right_of(s, f);
        if p.len() > k {
            assert(b =~= p.take(k + 1));
            assert(p.take(k + 1) + p.skip(k + 1) =~= p);
            lemma_encode_concat(b, p.skip(k + 1));
            assert(false);
        } else if p.len() < k {
            assert(a =~= p + a.skip(p.len() as int));
            lemma_encode_concat(p, a.skip(p.len() as int));
            lemma_some_bytes(a.skip(p.len() as int));
            assert(false);
        }
        assert(p =~= a);
    }
}

/// Every character takes a byte at least.
pub(crate) proof fn lemma_some_bytes(s: Seq<char>)
    requires
        s.len() > 0,
    ensures
        encode_utf8(s).len() > 0,
{
    encode_utf8_decode_utf8(s);
    if encode_utf8(s).len() == 0 {
        assert(encode_utf8(s) =~= Seq::empty());
        encode_utf8_decode_utf8(Seq::<char>::empty());
        assert(encode_utf8(Seq::<char>::empty()) =~= Seq::empty());
    }
}

/// A text that is cut off has as many characters as it may have, the last of them an
/// ellipsis and the others its first ones; one that is short enough stays.
pub proof fn cut_texts_fill_their_place(s: Seq<char>, max: int)
    requires
        0 < max,
    ensures
        s.len() <= max ==> cut_off(s, max) == s,
        s.len() > max ==> {
            &&& cut_off(s, max).len() == max
            &&& cut_off(s, max).last() == '…'
            &&& cut_off(s, max).drop_last() == s.take(max - 1)
        },
{
    reveal_strlit("…");
    if s.len() > max {
        assert(cut_off(s, max).drop_last() =~= s.take(max - 1));
    }
}

/// An integer is listed as its numeral, behind a label of five characters where its type is
/// listed too.
pub proof fn listed_integers_read_back(n: int)
    ensures
        0 <= n <= u8::MAX ==> number_of(compact_text(GgufValue::Uint8(n as u8)), 10) == n,
        0 <= n <= u16::MAX ==> number_of(compact_text(GgufValue::Uint16(n as u16)), 10) == n,
        0 <= n <= u32::MAX ==> number_of(compact_text(GgufValue::Uint32(n as u32)), 10) == n,
        0 <= n <= u64::MAX ==> number_of(compact_text(GgufValue::Uint64(n as u64)), 10) == n,
        0 <= n <= i8::MAX ==> number_of(compact_text(GgufValue::Int8(n as i8)), 10) == n,
        0 <= n <= i16::MAX ==> number_of(compact_text(GgufValue::Int16(n as i16)), 10) == n,
        0 <= n <= i32::MAX ==> number_of(compact_text(GgufValue::Int32(n as i32)), 10) == n,
        0 <= n <= i64::MAX ==> number_of(compact_text(GgufValue::Int64(n as i64)), 10) == n,
        i8::MIN <= n < 0 ==> compact_text(GgufValue::Int8(n as i8)) == seq!['-'] + dec(-n),
        i16::MIN <= n < 0 ==> compact_text(GgufValue::Int16(n as i16)) == seq!['-'] + dec(-n),
        i32::MIN <= n < 0 ==> compact_text(GgufValue::Int32(n as i32)) == seq!['-'] + dec(-n),
        i64::MIN <= n < 0 ==> compact_text(GgufValue::Int64(n as i64)) == seq!['-'] + dec(-n),
{
    if n >= 0 {
        numerals_read_back(n);
    }
    signed_numerals_read_back(n);
}

/// A value of a fixed size is listed with its type as it is listed without, behind a label
/// of five characters.
pub proof fn labels_take_five_characters(v: GgufValue)
    requires
        !(v is Str),
        !(v is Array),
    ensures
        value_text(v).len() >= 5,
        value_text(v).skip(5) == compact_text(v),
        v is Uint8 || v is Uint16 || v is Uint32 || v is Uint64 ==> value_text(v)[0] == 'u',
        v is Int8 || v is Int16 || v is Int32 || v is Int64 ==> value_text(v)[0] == 'i',
        v is Float32 || v is Float64 ==> value_text(v)[0] == 'f',
        v is Bool ==> value_text(v)[0] == 'b',
        v is Uint8 || v is Int8 ==> value_text(v)[1] == '8',
        v is Uint16 || v is Int16 ==> value_text(v)[1] == '1' && value_text(v)[2] == '6',
        v is Uint32 || v is Int32 || v is Float32 ==> value_text(v)[1] == '3' && value_text(v)[2]
            == '2',
        v is Uint64 || v is Int64 || v is Float64 ==> value_text(v)[1] == '6' && value_text(v)[2]
            == '4',
{
    reveal_strlit("u8   ");
    reveal_strlit("i8   ");
    reveal_strlit("u16  ");
    reveal_strlit("i16  ");
    reveal_strlit("u32  ");
    reveal_strlit("i32  ");
    reveal_strlit("f32  ");
    reveal_strlit("bool ");
    reveal_strlit("u64  ");
    reveal_strlit("i64  ");
    reveal_strlit("f64  ");
    reveal_strlit("true");
    reveal_strlit("false");
    assert(value_text(v).skip(5) =~= compact_text(v));
}

/// Keys are grouped by what stands in front of their first full stop.
pub proof fn keys_are_grouped_by_their_beginning(rest: Seq<char>, key: Seq<char>)
    ensures
        group_of("general."@ + rest) == KeyGroup::General,
        group_of("tokenizer."@ + rest) == KeyGroup::Tokenizer,
        key.len() == 0 || (key[0] != 'g' && key[0] != 't') ==> group_of(key) == KeyGroup::Other,
{
    reveal_strlit("general.");
    reveal_strlit("tokenizer.");
    let g = "general."@ + rest;
    let t = "tokenizer."@ + rest;
    assert(g.subrange(0, 8) =~= "general."@);
    assert(t.subrange(0, 10) =~= "tokenizer."@);
    assert(t[0] == 't' && "general."@[0] == 'g');
    if occurs_at(t, "general."@, 0) {
        assert(t.subrange(0, 8)[0] == 'g');
    }
    if occurs_at(key, "general."@, 0) {
        assert(key.subrange(0, 8)[0] == 'g');
    }
    if occurs_at(key, "tokenizer."@, 0) {
        assert(key.subrange(0, 10)[0] == 't');
    }
}

/// A beginning comes before what it is a beginning of, and otherwise the first characters
/// that differ decide.
pub proof fn first_difference_decides(
    start: Seq<char>,
    a: char,
    b: char,
    rest: Seq<char>,
    other: Seq<char>,
)
    ensures
        precedes(start, start.push(a) + rest),
        a < b ==> precedes(start.push(a) + rest, start.push(b) + other),
    decreases start.len(),
{
    let x = start.push(a) + rest;
    let y = start.push(b) + other;
    if start.len() > 0 {
        let s = start.drop_first();
        first_difference_decides(s, a, b, rest, other);
        assert(x.drop_first() =~= s.push(a) + rest);
        assert(y.drop_first() =~= s.push(b) + other);
        assert(x[0] == start[0] && y[0] == start[0]);
    } else {
        assert(x[0] == a && y[0] == b);
    }
}

} // verus!
