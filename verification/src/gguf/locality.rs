//! What is read at a position depends on the bytes there alone.

use crate::gguf::bytes::{le32, le64, string_at, string_end};
use crate::gguf::laws::{
    lemma_elements_advance, lemma_entries_advance, lemma_outer_advance, lemma_string_advances,
    lemma_typed_advances, lemma_value_advances,
};
use crate::gguf::layout::{
    alignment_of, dtype_place, entries_end, key_of_entry, kv_count_of, last_entry, name_stop,
    record_at, record_end, value_of_entry,
};
use crate::gguf::metadata::u64_at;
use crate::gguf::types::{value_type_of_raw, GgufMetadataValueType};
use crate::gguf::value::{
    array_fault, element_minimum, elements_end, encodes, holds_value, lemma_le_bounds,
    outer_elements_end, scalar_value, scalar_width, typed_end, value_end, GgufValue,
};
use vstd::prelude::*;

verus! {

/// Two buffers hold the same bytes from one position to another.
pub open spec fn same_between(a: Seq<u8>, b: Seq<u8>, from: int, to: int) -> bool {
    &&& to <= a.len()
    &&& to <= b.len()
    &&& forall|i: int| #![trigger b[i]] from <= i < to ==> a[i] == b[i]
}

/// Four equal bytes give the same number.
pub(crate) proof fn lemma_le32_local(a: Seq<u8>, b: Seq<u8>, pos: int)
    requires
        0 <= pos,
        same_between(a, b, pos, pos + 4),
    ensures
        le32(a.skip(pos)) == le32(b.skip(pos)),
{
    assert(b.skip(pos)[0] == b[pos] && b.skip(pos)[1] == b[pos + 1] && b.skip(pos)[2] == b[pos + 2]
        && b.skip(pos)[3] == b[pos + 3]);
}

/// Eight equal bytes give the same number.
pub(crate) proof fn lemma_le64_local(a: Seq<u8>, b: Seq<u8>, pos: int)
    requires
        0 <= pos,
        same_between(a, b, pos, pos + 8),
    ensures
        le64(a.skip(pos)) == le64(b.skip(pos)),
{
    lemma_le32_local(a, b, pos);
    lemma_le32_local(a, b, pos + 4);
    assert(a.skip(pos).skip(4) =~= a.skip(pos + 4));
    assert(b.skip(pos).skip(4) =~= b.skip(pos + 4));
}

/// A string reads the same in both buffers.
proof fn lemma_string_local(a: Seq<u8>, b: Seq<u8>, pos: int)
    requires
        0 <= pos <= a.len(),
        string_end(a, pos) is Ok,
        same_between(a, b, pos, string_end(a, pos)->Ok_0),
    ensures
        string_end(b, pos) == string_end(a, pos),
        string_at(b, pos) == string_at(a, pos),
{
    lemma_string_advances(a, pos);
    lemma_le64_local(a, b, pos);
    let n = le64(a.skip(pos));
    lemma_le_bounds(a.skip(pos));
    assert(a.subrange(pos + 8, pos + 8 + n) =~= b.subrange(pos + 8, pos + 8 + n));
}

/// A value takes at least the bytes that its type asks for.
proof fn lemma_typed_takes(a: Seq<u8>, pos: int, ty: GgufMetadataValueType, depth: int)
    requires
        0 <= pos <= a.len(),
        typed_end(a, pos, ty, depth) is Ok,
    ensures
        pos + element_minimum(ty) <= typed_end(a, pos, ty, depth)->Ok_0,
{
    match ty {
        GgufMetadataValueType::String => lemma_string_advances(a, pos),
        GgufMetadataValueType::Array => {
            let element = value_type_of_raw(le32(a.skip(pos)) as u32);
            let count = le64(a.skip(pos + 4));
            lemma_elements_advance(a, pos + 12, element, count, depth + 1);
        },
        _ => {},
    }
}

/// So do values that follow one another.
proof fn lemma_elements_take(
    a: Seq<u8>,
    pos: int,
    ty: GgufMetadataValueType,
    n: int,
    depth: int,
)
    requires
        0 <= pos <= a.len(),
        0 <= n,
        elements_end(a, pos, ty, n, depth) is Ok,
    ensures
        pos + n * element_minimum(ty) <= elements_end(a, pos, ty, n, depth)->Ok_0,
    decreases n,
{
    if n > 0 {
        lemma_elements_take(a, pos, ty, n - 1, depth);
        lemma_elements_advance(a, pos, ty, n - 1, depth);
        lemma_typed_takes(a, elements_end(a, pos, ty, n - 1, depth)->Ok_0, ty, depth);
        let m = element_minimum(ty);
        assert(n * m == (n - 1) * m + m) by (nonlinear_arith);
    }
}

/// And the elements of an outermost array.
proof fn lemma_outer_take(a: Seq<u8>, pos: int, ty: GgufMetadataValueType, n: int)
    requires
        0 <= pos <= a.len(),
        0 <= n,
        outer_elements_end(a, pos, ty, n) is Ok,
    ensures
        pos + n * element_minimum(ty) <= outer_elements_end(a, pos, ty, n)->Ok_0,
    decreases n,
{
    if n > 0 {
        lemma_outer_take(a, pos, ty, n - 1);
        lemma_outer_advance(a, pos, ty, n - 1);
        lemma_typed_takes(a, outer_elements_end(a, pos, ty, n - 1)->Ok_0, ty, 1);
        let m = element_minimum(ty);
        assert(n * m == (n - 1) * m + m) by (nonlinear_arith);
    }
}

/// A value ends at the same place in both buffers.
proof fn lemma_typed_local(
    a: Seq<u8>,
    b: Seq<u8>,
    pos: int,
    ty: GgufMetadataValueType,
    depth: int,
)
    requires
        0 <= pos <= a.len(),
        typed_end(a, pos, ty, depth) is Ok,
        same_between(a, b, pos, typed_end(a, pos, ty, depth)->Ok_0),
    ensures
        typed_end(b, pos, ty, depth) == typed_end(a, pos, ty, depth),
    decreases 17 - depth, 0int,
{
    match ty {
        GgufMetadataValueType::String => lemma_string_local(a, b, pos),
        GgufMetadataValueType::Array => {
            let element = value_type_of_raw(le32(a.skip(pos)) as u32);
            let count = le64(a.skip(pos + 4));
            lemma_le_bounds(a.skip(pos + 4));
            lemma_elements_advance(a, pos + 12, element, count, depth + 1);
            lemma_elements_take(a, pos + 12, element, count, depth + 1);
            lemma_le32_local(a, b, pos);
            lemma_le64_local(a, b, pos + 4);
            lemma_elements_local(a, b, pos + 12, element, count, depth + 1);
            assert(array_fault(element, count, depth + 1, b.len() - (pos + 12)) is None);
        },
        _ => {},
    }
}

/// Values that follow one another end at the same place in both buffers.
proof fn lemma_elements_local(
    a: Seq<u8>,
    b: Seq<u8>,
    pos: int,
    ty: GgufMetadataValueType,
    n: int,
    depth: int,
)
    requires
        0 <= pos <= a.len(),
        elements_end(a, pos, ty, n, depth) is Ok,
        same_between(a, b, pos, elements_end(a, pos, ty, n, depth)->Ok_0),
    ensures
        elements_end(b, pos, ty, n, depth) == elements_end(a, pos, ty, n, depth),
    decreases 17 - depth, n,
{
    if n > 0 {
        lemma_elements_advance(a, pos, ty, n - 1, depth);
        let p = elements_end(a, pos, ty, n - 1, depth)->Ok_0;
        lemma_typed_advances(a, p, ty, depth);
        lemma_elements_local(a, b, pos, ty, n - 1, depth);
        lemma_typed_local(a, b, p, ty, depth);
    }
}

/// So do the elements of an outermost array.
proof fn lemma_outer_local(
    a: Seq<u8>,
    b: Seq<u8>,
    pos: int,
    ty: GgufMetadataValueType,
    n: int,
)
    requires
        0 <= pos <= a.len(),
        outer_elements_end(a, pos, ty, n) is Ok,
        same_between(a, b, pos, outer_elements_end(a, pos, ty, n)->Ok_0),
    ensures
        outer_elements_end(b, pos, ty, n) == outer_elements_end(a, pos, ty, n),
    decreases n,
{
    if n > 0 {
        lemma_outer_advance(a, pos, ty, n - 1);
        let p = outer_elements_end(a, pos, ty, n - 1)->Ok_0;
        lemma_typed_advances(a, p, ty, 1);
        lemma_outer_local(a, b, pos, ty, n - 1);
        lemma_typed_local(a, b, p, ty, 1);
    }
}

/// A tagged value ends at the same place in both buffers, and gives the same
/// count.
proof fn lemma_value_local(a: Seq<u8>, b: Seq<u8>, pos: int)
    requires
        0 <= pos <= a.len(),
        value_end(a, pos) is Ok,
        same_between(a, b, pos, value_end(a, pos)->Ok_0),
    ensures
        value_end(b, pos) == value_end(a, pos),
        u64_at(b, pos) == u64_at(a, pos),
{
    lemma_value_advances(a, pos);
    lemma_le32_local(a, b, pos);
    match value_type_of_raw(le32(a.skip(pos)) as u32) {
        GgufMetadataValueType::String => lemma_string_local(a, b, pos + 4),
        GgufMetadataValueType::Array => {
            let element = value_type_of_raw(le32(a.skip(pos + 4)) as u32);
            let count = le64(a.skip(pos + 8));
            lemma_le_bounds(a.skip(pos + 8));
            lemma_outer_advance(a, pos + 16, element, count);
            lemma_outer_take(a, pos + 16, element, count);
            lemma_le32_local(a, b, pos + 4);
            lemma_le64_local(a, b, pos + 8);
            lemma_outer_local(a, b, pos + 16, element, count);
            assert(array_fault(element, count, 1, b.len() - (pos + 16)) is None);
        },
        GgufMetadataValueType::Uint64 => lemma_le64_local(a, b, pos + 4),
        GgufMetadataValueType::Int64 => lemma_le64_local(a, b, pos + 4),
        GgufMetadataValueType::Uint32 => lemma_le32_local(a, b, pos + 4),
        GgufMetadataValueType::Int32 => lemma_le32_local(a, b, pos + 4),
        GgufMetadataValueType::Uint16 => {
            assert(b.skip(pos + 4)[0] == b[pos + 4] && b.skip(pos + 4)[1] == b[pos + 5]);
        },
        GgufMetadataValueType::Uint8 => {
            assert(b.skip(pos + 4)[0] == b[pos + 4]);
        },
        _ => {},
    }
}

/// The elements of an outermost array end where elements one array deep end.
proof fn lemma_outer_is_elements(a: Seq<u8>, pos: int, ty: GgufMetadataValueType, n: int)
    requires
        outer_elements_end(a, pos, ty, n) is Ok,
    ensures
        elements_end(a, pos, ty, n, 1) == outer_elements_end(a, pos, ty, n),
    decreases n,
{
    if n > 0 {
        lemma_outer_is_elements(a, pos, ty, n - 1);
    }
}

/// Where values that follow one another can all be read, the first ones can, and
/// they end no later.
proof fn lemma_fewer_elements(
    a: Seq<u8>,
    pos: int,
    ty: GgufMetadataValueType,
    n: int,
    m: int,
    depth: int,
)
    requires
        0 <= pos <= a.len(),
        0 <= n <= m,
        elements_end(a, pos, ty, m, depth) is Ok,
    ensures
        elements_end(a, pos, ty, n, depth) is Ok,
        pos <= elements_end(a, pos, ty, n, depth)->Ok_0 <= elements_end(
            a,
            pos,
            ty,
            m,
            depth,
        )->Ok_0 <= a.len(),
    decreases m - n,
{
    lemma_elements_advance(a, pos, ty, m, depth);
    if n < m {
        lemma_elements_advance(a, pos, ty, m - 1, depth);
        lemma_typed_advances(a, elements_end(a, pos, ty, m - 1, depth)->Ok_0, ty, depth);
        lemma_fewer_elements(a, pos, ty, n, m - 1, depth);
    }
}

/// A value of a fixed size is the same in both buffers.
proof fn lemma_scalar_local(a: Seq<u8>, b: Seq<u8>, pos: int, ty: GgufMetadataValueType)
    requires
        0 <= pos,
        !(ty is String || ty is Array || ty is Unknown),
        same_between(a, b, pos, pos + scalar_width(ty)),
    ensures
        scalar_value(ty, b.skip(pos)) == scalar_value(ty, a.skip(pos)),
{
    assert(b.skip(pos)[0] == b[pos]);
    if scalar_width(ty) == 2 {
        assert(b.skip(pos)[1] == b[pos + 1]);
    } else if scalar_width(ty) == 4 {
        lemma_le32_local(a, b, pos);
    } else if scalar_width(ty) == 8 {
        lemma_le64_local(a, b, pos);
    }
}

/// A value that stands in one buffer stands in the other too, where that one holds
/// the same bytes.
proof fn lemma_encoded_local(
    v: GgufValue,
    a: Seq<u8>,
    b: Seq<u8>,
    pos: int,
    ty: GgufMetadataValueType,
    depth: int,
)
    requires
        0 <= pos <= a.len(),
        typed_end(a, pos, ty, depth) is Ok,
        same_between(a, b, pos, typed_end(a, pos, ty, depth)->Ok_0),
        encodes(v, b, pos, ty, depth),
    ensures
        encodes(v, a, pos, ty, depth),
    decreases v,
{
    match ty {
        GgufMetadataValueType::String => lemma_string_local(a, b, pos),
        GgufMetadataValueType::Array => {
            let element = value_type_of_raw(le32(a.skip(pos)) as u32);
            let count = le64(a.skip(pos + 4));
            lemma_le_bounds(a.skip(pos + 4));
            lemma_elements_advance(a, pos + 12, element, count, depth + 1);
            lemma_le32_local(a, b, pos);
            lemma_le64_local(a, b, pos + 4);
            let items = v->Array_0@;
            assert forall|i: int| 0 <= i < items.len() implies encodes(
                #[trigger] items[i],
                a,
                elements_end(a, pos + 12, element, i, depth + 1)->Ok_0,
                element,
                depth + 1,
            ) by {
                lemma_fewer_elements(a, pos + 12, element, i + 1, count, depth + 1);
                lemma_fewer_elements(a, pos + 12, element, i, i + 1, depth + 1);
                lemma_elements_local(a, b, pos + 12, element, i, depth + 1);
                let p = elements_end(a, pos + 12, element, i, depth + 1)->Ok_0;
                assert(encodes(items[i], b, p, element, depth + 1));
                lemma_encoded_local(items[i], a, b, p, element, depth + 1);
            }
        },
        GgufMetadataValueType::Unknown(_) => {},
        _ => lemma_scalar_local(a, b, pos, ty),
    }
}

/// A tagged value that stands in one buffer stands in the other too.
pub(crate) proof fn lemma_held_local(v: GgufValue, a: Seq<u8>, b: Seq<u8>, pos: int)
    requires
        0 <= pos <= a.len(),
        value_end(a, pos) is Ok,
        same_between(a, b, pos, value_end(a, pos)->Ok_0),
        holds_value(v, b, pos),
    ensures
        holds_value(v, a, pos),
{
    let ty = value_type_of_raw(le32(a.skip(pos)) as u32);
    lemma_value_advances(a, pos);
    lemma_le32_local(a, b, pos);
    if ty is Array {
        let element = value_type_of_raw(le32(a.skip(pos + 4)) as u32);
        lemma_outer_is_elements(a, pos + 16, element, le64(a.skip(pos + 8)));
    }
    lemma_encoded_local(v, a, b, pos + 4, ty, 0);
}

/// Where all entries can be read, the first ones can, and they end no later.
pub(crate) proof fn lemma_fewer_entries(a: Seq<u8>, pos: int, n: int, m: int)
    requires
        0 <= pos <= a.len(),
        0 <= n <= m,
        entries_end(a, pos, m) is Ok,
    ensures
        entries_end(a, pos, n) is Ok,
        pos <= entries_end(a, pos, n)->Ok_0 <= entries_end(a, pos, m)->Ok_0 <= a.len(),
    decreases m - n,
{
    lemma_entries_advance(a, pos, m);
    if n < m {
        lemma_entries_advance(a, pos, m - 1);
        lemma_fewer_entries(a, pos, n, m - 1);
        let p = entries_end(a, pos, m - 1)->Ok_0;
        lemma_string_advances(a, p);
        lemma_value_advances(a, string_end(a, p)->Ok_0);
    }
}

/// The metadata ends at the same place in both buffers.
pub(crate) proof fn lemma_entries_local(a: Seq<u8>, b: Seq<u8>, pos: int, n: int)
    requires
        0 <= pos <= a.len(),
        entries_end(a, pos, n) is Ok,
        same_between(a, b, pos, entries_end(a, pos, n)->Ok_0),
    ensures
        entries_end(b, pos, n) == entries_end(a, pos, n),
    decreases n,
{
    if n > 0 {
        lemma_fewer_entries(a, pos, n - 1, n);
        let p = entries_end(a, pos, n - 1)->Ok_0;
        let q = string_end(a, p)->Ok_0;
        lemma_string_advances(a, p);
        lemma_value_advances(a, q);
        lemma_entries_local(a, b, pos, n - 1);
        lemma_string_local(a, b, p);
        lemma_value_local(a, b, q);
    }
}

/// A metadata entry has the same key and gives the same count in both buffers.
pub(crate) proof fn lemma_entry_local(a: Seq<u8>, b: Seq<u8>, pos: int, n: int, i: int)
    requires
        0 <= pos <= a.len(),
        0 <= i < n,
        entries_end(a, pos, n) is Ok,
        same_between(a, b, pos, entries_end(a, pos, n)->Ok_0),
    ensures
        key_of_entry(b, pos, i) == key_of_entry(a, pos, i),
        value_of_entry(b, pos, i) == value_of_entry(a, pos, i),
        u64_at(b, value_of_entry(b, pos, i)) == u64_at(a, value_of_entry(a, pos, i)),
{
    lemma_fewer_entries(a, pos, i + 1, n);
    lemma_fewer_entries(a, pos, i, i + 1);
    let p = entries_end(a, pos, i)->Ok_0;
    let q = string_end(a, p)->Ok_0;
    lemma_entries_local(a, b, pos, i);
    lemma_string_advances(a, p);
    lemma_value_advances(a, q);
    lemma_string_local(a, b, p);
    lemma_value_local(a, b, q);
}

/// The last entry with a key is the same one in both buffers.
pub(crate) proof fn lemma_last_entry_local(
    a: Seq<u8>,
    b: Seq<u8>,
    pos: int,
    n: int,
    m: int,
    key: Seq<char>,
)
    requires
        0 <= pos <= a.len(),
        0 <= m <= n,
        entries_end(a, pos, n) is Ok,
        same_between(a, b, pos, entries_end(a, pos, n)->Ok_0),
    ensures
        last_entry(b, pos, m, key) == last_entry(a, pos, m, key),
        last_entry(a, pos, m, key) matches Some(i) ==> 0 <= i < m,
    decreases m,
{
    if m > 0 {
        lemma_entry_local(a, b, pos, n, m - 1);
        lemma_last_entry_local(a, b, pos, n, m - 1, key);
    }
}

/// Both buffers name the same alignment.
pub(crate) proof fn lemma_alignment_local(a: Seq<u8>, b: Seq<u8>)
    requires
        24 <= a.len(),
        kv_count_of(a) == kv_count_of(b),
        entries_end(a, 24, kv_count_of(a)) is Ok,
        same_between(a, b, 24, entries_end(a, 24, kv_count_of(a))->Ok_0),
    ensures
        alignment_of(b) == alignment_of(a),
{
    let n = kv_count_of(a);
    lemma_le_bounds(a.skip(16));
    lemma_last_entry_local(a, b, 24, n, n, "general.alignment"@);
    match last_entry(a, 24, n, "general.alignment"@) {
        Some(i) => lemma_entry_local(a, b, 24, n, i),
        None => {},
    }
}

/// A directory entry whose name and shape are the same in both buffers ends at
/// the same place, and differs in its type and offset alone.
pub(crate) proof fn lemma_record_local(a: Seq<u8>, b: Seq<u8>, pos: int, i: int)
    requires
        0 <= pos <= a.len(),
        record_end(a, pos, i) is Ok,
        same_between(a, b, pos, dtype_place(a, pos)),
        record_end(a, pos, i)->Ok_0 <= b.len(),
    ensures
        record_end(b, pos, i) == record_end(a, pos, i),
        dtype_place(b, pos) == dtype_place(a, pos),
        record_at(b, pos).name == record_at(a, pos).name,
        record_at(b, pos).shape == record_at(a, pos).shape,
{
    lemma_string_advances(a, pos);
    let p = name_stop(a, pos);
    lemma_le_bounds(a.skip(p));
    lemma_string_local(a, b, pos);
    lemma_le32_local(a, b, p);
    let dims = le32(a.skip(p));
    assert forall|d: int| 0 <= d < dims implies le64(#[trigger] a.skip(p + 4 + 8 * d)) == le64(
        b.skip(p + 4 + 8 * d),
    ) by {
        lemma_le64_local(a, b, p + 4 + 8 * d);
    }
    assert(record_at(b, pos).shape =~= record_at(a, pos).shape);
}

} // verus!
