//! Texts that are cut in two at a byte offset.

use vstd::prelude::*;
use vstd::utf8::*;

verus! {

/// The characters in front of a byte offset.
pub open spec fn left_of(s: Seq<char>, at: int) -> Seq<char> {
    decode_utf8(encode_utf8(s).subrange(0, at))
}

/// The characters from a byte offset on.
pub open spec fn right_of(s: Seq<char>, at: int) -> Seq<char> {
    decode_utf8(encode_utf8(s).subrange(at, encode_utf8(s).len() as int))
}

/// A byte offset at which a text can be cut.
pub open spec fn is_cut(s: Seq<char>, at: int) -> bool {
    is_char_boundary(encode_utf8(s), at)
}

/// The bytes of a text are those of its parts, one after the other.
pub proof fn lemma_encode_concat(a: Seq<char>, b: Seq<char>)
    ensures
        encode_utf8(a + b) == encode_utf8(a) + encode_utf8(b),
    decreases a.len(),
{
    if a.len() == 0 {
        assert(a + b =~= b);
        assert(encode_utf8(a) =~= Seq::empty());
    } else {
        lemma_encode_concat(a.drop_first(), b);
        assert((a + b).drop_first() =~= a.drop_first() + b);
        assert(encode_utf8(a + b) =~= encode_utf8(a) + encode_utf8(b));
    }
}

/// A text can be cut behind each of its characters.
proof fn lemma_boundary(a: Seq<char>, b: Seq<char>)
    ensures
        is_cut(a + b, encode_utf8(a).len() as int),
    decreases a.len(),
{
    let s = a + b;
    encode_utf8_valid_utf8(s);
    if a.len() == 0 {
        assert(encode_utf8(a) =~= Seq::empty());
        is_char_boundary_start_end_of_seq(encode_utf8(s));
    } else {
        lemma_boundary(a.drop_first(), b);
        lemma_encode_concat(a, b);
        assert(s.drop_first() =~= a.drop_first() + b);
        encode_utf8_first_scalar(s);
        let bytes = encode_utf8(s);
        let n = length_of_first_scalar(bytes);
        assert(encode_utf8(a).len() == n + encode_utf8(a.drop_first()).len());
        assert(pop_first_scalar(bytes) =~= encode_utf8(s.drop_first()));
        reveal_with_fuel(is_char_boundary, 2);
    }
}

/// Cutting `a + b` behind `a` gives `a` and `b`.
pub proof fn lemma_cut(a: Seq<char>, b: Seq<char>)
    ensures
        is_cut(a + b, encode_utf8(a).len() as int),
        left_of(a + b, encode_utf8(a).len() as int) == a,
        right_of(a + b, encode_utf8(a).len() as int) == b,
{
    let s = a + b;
    let at = encode_utf8(a).len() as int;
    lemma_encode_concat(a, b);
    lemma_boundary(a, b);
    assert(encode_utf8(s).subrange(0, at) =~= encode_utf8(a));
    assert(encode_utf8(s).subrange(at, encode_utf8(s).len() as int) =~= encode_utf8(b));
    encode_utf8_decode_utf8(a);
    encode_utf8_decode_utf8(b);
}

/// The parts of a text make up the text.
pub proof fn lemma_parts(s: Seq<char>, at: int)
    requires
        is_cut(s, at),
    ensures
        left_of(s, at) + right_of(s, at) == s,
        encode_utf8(left_of(s, at)).len() == at,
        0 <= at <= encode_utf8(s).len(),
{
    encode_utf8_valid_utf8(s);
    encode_utf8_decode_utf8(s);
    valid_utf8_split(encode_utf8(s), at);
    decode_utf8_split(encode_utf8(s), at);
    lemma_boundary_in_bounds(encode_utf8(s), at);
    decode_utf8_encode_utf8(encode_utf8(s).subrange(0, at));
}

/// A boundary lies in the bytes.
proof fn lemma_boundary_in_bounds(bytes: Seq<u8>, at: int)
    requires
        valid_utf8(bytes),
        is_char_boundary(bytes, at),
    ensures
        0 <= at <= bytes.len(),
    decreases bytes.len(),
{
    reveal_with_fuel(is_char_boundary, 2);
    if at != 0 && bytes.len() > 0 {
        let rest = pop_first_scalar(bytes);
        lemma_boundary_in_bounds(rest, at - length_of_first_scalar(bytes));
    }
}

/// The number of bytes of a text.
pub fn byte_len(s: &str) -> (n: usize)
    ensures
        n == encode_utf8(s@).len(),
{
    s.as_bytes().len()
}

/// Cuts a text at a byte offset.
pub fn cut(s: &str, at: usize) -> (r: (&str, &str))
    requires
        is_cut(s@, at as int),
    ensures
        r.0@ == left_of(s@, at as int),
        r.1@ == right_of(s@, at as int),
{
    let r = s.split_at(at);
    proof {
        encode_utf8_decode_utf8(r.0@);
        encode_utf8_decode_utf8(r.1@);
    }
    r
}

} // verus!
