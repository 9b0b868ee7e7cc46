//! The file format from the outside: what was written in it reads back.

use crate::gguf::artifact::{le_bytes4, le_bytes8};
use crate::gguf::bytes::{le16, le32, le64, string_at, string_end};
use crate::gguf::layout::{key_of_entry, last_entry, next_above, tensor_bytes, TensorRecord};
use crate::gguf::metadata::{value_as_f32, value_as_u64};
use crate::gguf::tensor::{product, products_fit};
use crate::gguf::types::{type_of_raw, value_type_of_raw, GgufMetadataValueType};
use crate::gguf::value::{scalar_value, scalar_width, GgufValue};
use vstd::prelude::*;
use vstd::utf8::*;

verus! {

/// A number of `n` bytes stands in a list of bytes, its lowest byte first.
pub open spec fn holds_number(b: Seq<u8>, v: int, n: nat) -> bool
    decreases n,
{
    n > 0 ==> b.len() > 0 && b[0] == v % 256 && holds_number(b.skip(1), v / 256, (n - 1) as nat)
}

/// Numbers of two, four and eight bytes read back.
pub proof fn written_numbers_read_back(b: Seq<u8>, v: int)
    requires
        0 <= v,
    ensures
        v < 0x1_0000 && holds_number(b, v, 2) ==> le16(b) == v,
        v < 0x1_0000_0000 && holds_number(b, v, 4) ==> le32(b) == v,
        v < 0x1_0000_0000_0000_0000 && holds_number(b, v, 8) ==> le64(b) == v,
{
    if v < 0x1_0000 && holds_number(b, v, 2) {
        reveal_with_fuel(holds_number, 3);
        assert(b.skip(1)[0] == b[1]);
    }
    if v < 0x1_0000_0000 && holds_number(b, v, 4) {
        lemma_four(b, v);
    }
    if v < 0x1_0000_0000_0000_0000 && holds_number(b, v, 8) {
        lemma_eight(b, v);
    }
}

proof fn lemma_four(b: Seq<u8>, v: int)
    requires
        0 <= v < 0x1_0000_0000,
        holds_number(b, v, 4),
    ensures
        le32(b) == v,
{
    let c = b.skip(1);
    let d = c.skip(1);
    let e = d.skip(1);
    assert(holds_number(c, v / 256, 3));
    assert(holds_number(d, v / 256 / 256, 2));
    assert(holds_number(e, v / 256 / 256 / 256, 1));
    assert(c[0] == b[1] && d[0] == b[2] && e[0] == b[3]);
}

proof fn lemma_eight(b: Seq<u8>, v: int)
    requires
        0 <= v < 0x1_0000_0000_0000_0000,
        holds_number(b, v, 8),
    ensures
        le64(b) == v,
{
    let low = v % 0x1_0000_0000;
    let high = v / 0x1_0000_0000;
    let w = v / 256 / 256 / 256 / 256;
    assert(w == high);
    let t = b.skip(1).skip(1).skip(1).skip(1);
    assert(holds_number(b.skip(1), v / 256, 7));
    assert(holds_number(b.skip(1).skip(1), v / 256 / 256, 6));
    assert(holds_number(b.skip(1).skip(1).skip(1), v / 256 / 256 / 256, 5));
    assert(holds_number(t, w, 4));
    assert(t =~= b.skip(4));
    lemma_four(t, high);
    let c = b.skip(1);
    let d = c.skip(1);
    let e = d.skip(1);
    assert(c[0] == b[1] && d[0] == b[2] && e[0] == b[3]);
    assert(b[0] == v % 256 && b[1] == v / 256 % 256 && b[2] == v / 256 / 256 % 256 && b[3] == v
        / 256 / 256 / 256 % 256);
    assert(le32(b) == low);
}

/// The bytes that are written for a number stand for it.
pub proof fn written_bytes_hold_their_number(v: int)
    requires
        0 <= v,
    ensures
        v < 0x1_0000_0000 ==> le_bytes4(v).len() == 4 && holds_number(le_bytes4(v), v, 4),
        v < 0x1_0000_0000_0000_0000 ==> le_bytes8(v).len() == 8 && le64(le_bytes8(v)) == v,
{
    if v < 0x1_0000_0000 {
        lemma_bytes4(v);
    }
    if v < 0x1_0000_0000_0000_0000 {
        let low = v % 0x1_0000_0000;
        let high = v / 0x1_0000_0000;
        lemma_bytes4(low);
        lemma_bytes4(high);
        lemma_four(le_bytes4(low), low);
        lemma_four(le_bytes4(high), high);
        let b = le_bytes8(v);
        let x = le_bytes4(low);
        let y = le_bytes4(high);
        assert(b[0] == x[0] && b[1] == x[1] && b[2] == x[2] && b[3] == x[3]);
        assert(b.skip(4) =~= y);
    }
}

proof fn lemma_bytes4(v: int)
    requires
        0 <= v < 0x1_0000_0000,
    ensures
        le_bytes4(v).len() == 4,
        holds_number(le_bytes4(v), v, 4),
{
    let b = le_bytes4(v);
    let c = b.skip(1);
    let d = c.skip(1);
    let e = d.skip(1);
    assert(c[0] == b[1] && d[0] == b[2] && e[0] == b[3]);
    assert(v / 256 / 256 / 256 % 256 == v / 0x100_0000 % 0x100);
    assert(v / 256 / 256 % 256 == v / 0x1_0000 % 0x100);
    assert(holds_number(e.skip(1), v / 256 / 256 / 256 / 256, 0));
    assert(holds_number(e, v / 256 / 256 / 256, 1));
    assert(holds_number(d, v / 256 / 256, 2));
    assert(holds_number(c, v / 256, 3));
}

/// A text that was written behind the number of its bytes reads back, and what follows it
/// starts where its bytes end. Texts of more than a mebibyte are refused.
pub proof fn written_texts_read_back(data: Seq<u8>, pos: int, text: Seq<char>)
    requires
        0 <= pos,
        encode_utf8(text).len() < 0x1_0000_0000_0000_0000,
        pos + 8 + encode_utf8(text).len() <= data.len(),
        holds_number(data.skip(pos), encode_utf8(text).len() as int, 8),
        data.subrange(pos + 8, pos + 8 + encode_utf8(text).len()) == encode_utf8(text),
    ensures
        encode_utf8(text).len() <= 1024 * 1024 ==> string_end(data, pos) == Ok::<int, Seq<char>>(
            pos + 8 + encode_utf8(text).len(),
        ),
        encode_utf8(text).len() > 1024 * 1024 ==> string_end(data, pos) is Err,
        string_at(data, pos) == text,
{
    written_numbers_read_back(data.skip(pos), encode_utf8(text).len() as int);
    encode_utf8_valid_utf8(text);
    encode_utf8_decode_utf8(text);
}

/// Signed numbers of every size read back, negative ones among them, and so do flags and
/// the patterns of floating-point numbers.
pub proof fn written_values_read_back(b: Seq<u8>, v: int)
    ensures
        -0x80 <= v < 0x80 && holds_number(b, v % 0x100, 1) ==> scalar_value(
            GgufMetadataValueType::Int8,
            b,
        ) == GgufValue::Int8(v as i8),
        0 <= v < 0x100 && holds_number(b, v, 1) ==> scalar_value(GgufMetadataValueType::Uint8, b)
            == GgufValue::Uint8(v as u8),
        0 <= v < 0x100 && holds_number(b, v, 1) ==> scalar_value(GgufMetadataValueType::Bool, b)
            == GgufValue::Bool(v != 0),
        -0x8000 <= v < 0x8000 && holds_number(b, v % 0x1_0000, 2) ==> scalar_value(
            GgufMetadataValueType::Int16,
            b,
        ) == GgufValue::Int16(v as i16),
        0 <= v < 0x1_0000 && holds_number(b, v, 2) ==> scalar_value(
            GgufMetadataValueType::Uint16,
            b,
        ) == GgufValue::Uint16(v as u16),
        -0x8000_0000 <= v < 0x8000_0000 && holds_number(b, v % 0x1_0000_0000, 4) ==> scalar_value(
            GgufMetadataValueType::Int32,
            b,
        ) == GgufValue::Int32(v as i32),
        0 <= v < 0x1_0000_0000 && holds_number(b, v, 4) ==> scalar_value(
            GgufMetadataValueType::Uint32,
            b,
        ) == GgufValue::Uint32(v as u32) && scalar_value(GgufMetadataValueType::Float32, b)
            == GgufValue::Float32(v as u32),
        -0x8000_0000_0000_0000 <= v < 0x8000_0000_0000_0000 && holds_number(
            b,
            v % 0x1_0000_0000_0000_0000,
            8,
        ) ==> scalar_value(GgufMetadataValueType::Int64, b) == GgufValue::Int64(v as i64),
        0 <= v < 0x1_0000_0000_0000_0000 && holds_number(b, v, 8) ==> scalar_value(
            GgufMetadataValueType::Uint64,
            b,
        ) == GgufValue::Uint64(v as u64) && scalar_value(GgufMetadataValueType::Float64, b)
            == GgufValue::Float64(v as u64),
{
    written_numbers_read_back(b, v % 0x1_0000);
    written_numbers_read_back(b, v % 0x1_0000_0000);
    written_numbers_read_back(b, v % 0x1_0000_0000_0000_0000);
}

/// The tags of values: the first six are the unsigned and signed numbers of one, two and
/// four bytes in turn, the tenth and eleventh those of eight bytes, and the sixth and the
/// twelfth floating-point numbers of four and of eight bytes.
pub proof fn tags_follow_the_widths(raw: u32)
    ensures
        raw < 6 ==> scalar_width(value_type_of_raw(raw)) == if raw / 2 == 0 {
            1int
        } else {
            2 * (raw / 2) as int
        },
        10 <= raw <= 12 ==> scalar_width(value_type_of_raw(raw)) == 8,
        raw == 6 ==> scalar_width(value_type_of_raw(raw)) == 4,
        raw == 7 ==> scalar_width(value_type_of_raw(raw)) == 1,
        raw == 8 || raw == 9 || raw > 12 ==> scalar_width(value_type_of_raw(raw)) == 0,
        raw > 12 ==> value_type_of_raw(raw) == GgufMetadataValueType::Unknown(raw),
        forall|b: Seq<u8>|
            (raw == 0 || raw == 2 || raw == 4 || raw == 10) ==> value_as_u64(
                #[trigger] scalar_value(value_type_of_raw(raw), b),
            ) is Some,
        forall|b: Seq<u8>|
            (raw == 6 || raw == 12) ==> value_as_f32(
                #[trigger] scalar_value(value_type_of_raw(raw), b),
            ) is Some,
        raw == 7 ==> value_type_of_raw(raw) is Bool,
        raw == 8 ==> value_type_of_raw(raw) is String,
        raw == 9 ==> value_type_of_raw(raw) is Array,
        raw == 1 ==> value_type_of_raw(raw) is Int8,
        raw == 3 ==> value_type_of_raw(raw) is Int16,
        raw == 5 ==> value_type_of_raw(raw) is Int32,
        raw == 11 ==> value_type_of_raw(raw) is Int64,
{
}

/// A count is taken from any integer that is not negative, as the number that it is; from
/// small signed ones and from everything else none is taken.
pub proof fn counts_are_the_numbers(v: GgufValue, n: int)
    ensures
        v == GgufValue::Uint8(n as u8) && 0 <= n <= u8::MAX ==> value_as_u64(v) == Some(n as u64),
        v == GgufValue::Uint16(n as u16) && 0 <= n <= u16::MAX ==> value_as_u64(v) == Some(
            n as u64,
        ),
        v == GgufValue::Uint32(n as u32) && 0 <= n <= u32::MAX ==> value_as_u64(v) == Some(
            n as u64,
        ),
        v == GgufValue::Uint64(n as u64) && 0 <= n <= u64::MAX ==> value_as_u64(v) == Some(
            n as u64,
        ),
        v == GgufValue::Int32(n as i32) && 0 <= n <= i32::MAX ==> value_as_u64(v) == Some(
            n as u64,
        ),
        v == GgufValue::Int64(n as i64) && 0 <= n <= i64::MAX ==> value_as_u64(v) == Some(
            n as u64,
        ),
        v == GgufValue::Int32(n as i32) && i32::MIN <= n < 0 ==> value_as_u64(v) is None,
        v == GgufValue::Int64(n as i64) && i64::MIN <= n < 0 ==> value_as_u64(v) is None,
        v is Int8 || v is Int16 || v is Bool || v is Str || v is Array || v is Float32
            || v is Float64 ==> value_as_u64(v) is None,
        value_as_f32(v) is Some <==> v is Float32 || v is Float64,
{
}

/// The product of a shape does not depend on how its dimensions are grouped.
pub proof fn products_multiply_by_parts(a: Seq<u64>, b: Seq<u64>)
    ensures
        product(a + b) == product(a) * product(b),
        product(Seq::<u64>::empty()) == 1,
        a.len() == 1 ==> product(a) == a[0],
    decreases b.len(),
{
    if a.len() == 1 {
        assert(a.drop_last() =~= Seq::<u64>::empty());
        assert(product(a.drop_last()) == 1);
        assert(1 * a[0] == a[0]);
    }
    if b.len() == 0 {
        assert(a + b =~= a);
        assert(product(a) * 1 == product(a));
    } else {
        products_multiply_by_parts(a, b.drop_last());
        assert((a + b).drop_last() =~= a + b.drop_last());
        let x = product(a);
        let y = product(b.drop_last());
        let z = b.last() as int;
        assert(x * y * z == x * (y * z)) by (nonlinear_arith);
    }
}

/// A block of `weights` weights of `bits` bits each, with `scales` bytes of scales and
/// minimums: how many weights it has, and how many bytes it takes.
pub open spec fn block_of(weights: int, bits: int, scales: int) -> Option<(int, int)> {
    Some((weights, scales + weights * bits / 8))
}

/// What a block of a type is made of, by the number of the type.
pub open spec fn block_parts(raw: u32) -> Option<(int, int)> {
    if raw == 0 || raw == 26 {
        block_of(1, 32, 0)
    } else if raw == 1 || raw == 25 || raw == 30 {
        block_of(1, 16, 0)
    } else if raw == 27 || raw == 28 {
        block_of(1, 64, 0)
    } else if raw == 24 || raw == 37 {
        block_of(1, 8, 0)
    } else if raw == 2 {
        block_of(32, 4, 2)
    } else if raw == 3 {
        block_of(32, 4, 4)
    } else if raw == 6 {
        block_of(32, 5, 2)
    } else if raw == 7 {
        block_of(32, 5, 4)
    } else if raw == 8 {
        block_of(32, 8, 2)
    } else if raw == 9 {
        block_of(32, 8, 8)
    } else if raw == 10 {
        block_of(256, 2, 20)
    } else if raw == 11 {
        block_of(256, 3, 14)
    } else if raw == 12 {
        block_of(256, 4, 16)
    } else if raw == 13 {
        block_of(256, 5, 16)
    } else if raw == 14 {
        block_of(256, 6, 18)
    } else if raw == 15 {
        block_of(256, 8, 36)
    } else if raw == 36 {
        block_of(128, 2, 0)
    } else {
        None
    }
}

/// A tensor of whole blocks takes the bytes of the parts of its blocks. Where the makeup of
/// a type is not known its tensors have no known length.
pub proof fn tensors_take_whole_blocks(raw: u32, shape: Seq<u64>, blocks: int)
    requires
        shape.len() > 0,
        products_fit(shape),
        0 < blocks,
        block_parts(raw) matches Some((weights, bytes)) ==> {
            &&& shape[0] as int % weights == 0
            &&& product(shape) == weights * blocks
            &&& blocks * bytes <= u64::MAX
        },
    ensures
        tensor_bytes(shape, type_of_raw(raw)) == match block_parts(raw) {
            Some((weights, bytes)) => Ok::<Option<int>, Seq<char>>(Some(blocks * bytes)),
            None => Ok(None),
        },
{
    if block_parts(raw) is Some {
        let (weights, bytes) = block_parts(raw)->0;
        vstd::arithmetic::div_mod::lemma_div_multiples_vanish(blocks, weights);
        assert(product(shape) / weights == blocks);
        vstd::arithmetic::div_mod::lemma_mod_multiples_basic(blocks, weights);
        assert(blocks * weights == weights * blocks) by (nonlinear_arith);
        assert(product(shape) % weights == 0);
        assert(product(shape) > 0) by (nonlinear_arith)
            requires
                product(shape) == weights * blocks,
                weights > 0,
                blocks > 0,
        ;
    }
}

/// The entry that counts for a key is the last one with it: no entry behind it has the key,
/// and where no entry has it there is none.
pub proof fn last_entries_count(data: Seq<u8>, pos: int, n: int, key: Seq<char>)
    requires
        0 <= n,
    ensures
        match last_entry(data, pos, n, key) {
            Some(i) => {
                &&& 0 <= i < n
                &&& key_of_entry(data, pos, i) == key
                &&& forall|j: int| i < j < n ==> #[trigger] key_of_entry(data, pos, j) != key
            },
            None => forall|j: int| 0 <= j < n ==> #[trigger] key_of_entry(data, pos, j) != key,
        },
    decreases n,
{
    if n > 0 {
        last_entries_count(data, pos, n - 1, key);
    }
}

/// The next offset above another is the offset of a tensor, lies above it, and no tensor
/// lies between the two.
pub proof fn next_offsets_are_nearest(records: Seq<TensorRecord>, x: u64, n: int)
    requires
        0 <= n <= records.len(),
    ensures
        match next_above(records, x, n) {
            Some(o) => {
                &&& o > x
                &&& exists|i: int| 0 <= i < n && (#[trigger] records[i]).relative_offset == o
                &&& forall|i: int|
                    0 <= i < n && (#[trigger] records[i]).relative_offset > x
                        ==> records[i].relative_offset >= o
            },
            None => forall|i: int|
                0 <= i < n ==> (#[trigger] records[i]).relative_offset <= x,
        },
    decreases n,
{
    if n > 0 {
        next_offsets_are_nearest(records, x, n - 1);
        let o = records[n - 1].relative_offset;
        if next_above(records, x, n) == Some(o) && o > x {
            assert(records[n - 1].relative_offset == o);
        }
    }
}

} // verus!
