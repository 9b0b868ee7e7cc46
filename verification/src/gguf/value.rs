//! Metadata values: how they stand in a file, and the table that holds them.

use crate::gguf::bytes::{
    le16, le32, le64, read_gguf_string, short_read, string_at, string_end, twos_complement,
    ByteCursor,
};
use crate::gguf::types::{value_type_of_raw, GgufMetadataValueType};
use crate::text::{cat2, cat3, cat4, cat5, dec, decimal, owned};
use vstd::prelude::*;

verus! {

/// A value in the metadata section. Floating-point values are held by their
/// bit patterns.
#[derive(Debug)]
pub enum GgufValue {
    Uint8(u8),
    Int8(i8),
    Uint16(u16),
    Int16(i16),
    Uint32(u32),
    Int32(i32),
    /// The bits of a single-precision number.
    Float32(u32),
    Bool(bool),
    Str(String),
    Uint64(u64),
    Int64(i64),
    /// The bits of a double-precision number.
    Float64(u64),
    Array(Vec<GgufValue>),
}

/// Deepest nesting of metadata arrays.
pub const MAX_METADATA_ARRAY_DEPTH: usize = 16;

/// Most elements of one metadata array.
pub const MAX_METADATA_ARRAY_ELEMENTS: u64 = 1_000_000;

/// Bytes of a value of a type with a fixed size; zero for the other types.
pub open spec fn scalar_width(ty: GgufMetadataValueType) -> int {
    match ty {
        GgufMetadataValueType::Uint8 => 1,
        GgufMetadataValueType::Int8 => 1,
        GgufMetadataValueType::Bool => 1,
        GgufMetadataValueType::Uint16 => 2,
        GgufMetadataValueType::Int16 => 2,
        GgufMetadataValueType::Uint32 => 4,
        GgufMetadataValueType::Int32 => 4,
        GgufMetadataValueType::Float32 => 4,
        GgufMetadataValueType::Uint64 => 8,
        GgufMetadataValueType::Int64 => 8,
        GgufMetadataValueType::Float64 => 8,
        GgufMetadataValueType::String => 0,
        GgufMetadataValueType::Array => 0,
        GgufMetadataValueType::Unknown(_) => 0,
    }
}

/// The value that the bytes `b` hold in a type with a fixed size.
pub open spec fn scalar_value(ty: GgufMetadataValueType, b: Seq<u8>) -> GgufValue {
    match ty {
        GgufMetadataValueType::Uint8 => GgufValue::Uint8(b[0]),
        GgufMetadataValueType::Int8 => GgufValue::Int8(
            twos_complement(b[0] as int, 0x100) as i8,
        ),
        GgufMetadataValueType::Bool => GgufValue::Bool(b[0] != 0),
        GgufMetadataValueType::Uint16 => GgufValue::Uint16(le16(b) as u16),
        GgufMetadataValueType::Int16 => GgufValue::Int16(
            twos_complement(le16(b), 0x1_0000) as i16,
        ),
        GgufMetadataValueType::Uint32 => GgufValue::Uint32(le32(b) as u32),
        GgufMetadataValueType::Int32 => GgufValue::Int32(
            twos_complement(le32(b), 0x1_0000_0000) as i32,
        ),
        GgufMetadataValueType::Float32 => GgufValue::Float32(le32(b) as u32),
        GgufMetadataValueType::Uint64 => GgufValue::Uint64(le64(b) as u64),
        GgufMetadataValueType::Int64 => GgufValue::Int64(
            twos_complement(le64(b), 0x1_0000_0000_0000_0000) as i64,
        ),
        _ => GgufValue::Float64(le64(b) as u64),
    }
}

/// Fewest bytes that an element of an array can take.
pub open spec fn element_minimum(ty: GgufMetadataValueType) -> int {
    match ty {
        GgufMetadataValueType::String => 8,
        GgufMetadataValueType::Array => 12,
        _ => scalar_width(ty),
    }
}

/// Why an array header is refused: nesting, count, an unknown element type, or
/// more elements than the `remaining` bytes can hold.
pub open spec fn array_fault(
    ty: GgufMetadataValueType,
    count: int,
    depth: int,
    remaining: int,
) -> Option<Seq<char>> {
    if depth > MAX_METADATA_ARRAY_DEPTH {
        Some(
            "metadata array nesting depth "@ + dec(depth) + " exceeds "@ + dec(
                MAX_METADATA_ARRAY_DEPTH as int,
            ),
        )
    } else if count > MAX_METADATA_ARRAY_ELEMENTS {
        Some(
            "array count "@ + dec(count) + " exceeds safety limit "@ + dec(
                MAX_METADATA_ARRAY_ELEMENTS as int,
            ),
        )
    } else if ty is Unknown {
        Some("unknown type tag "@ + dec(ty->Unknown_0 as int) + " in array element"@)
    } else if count * element_minimum(ty) > remaining {
        Some(
            "array of "@ + dec(count) + " elements cannot fit in "@ + dec(remaining)
                + " remaining bytes"@,
        )
    } else {
        None
    }
}

/// Where a value of a known type ends, or why none can be read. `depth` counts
/// the arrays around the value.
pub open spec fn typed_end(
    data: Seq<u8>,
    pos: int,
    ty: GgufMetadataValueType,
    depth: int,
) -> Result<int, Seq<char>>
    decreases 17 - depth, 0int,
{
    match ty {
        GgufMetadataValueType::String => string_end(data, pos),
        GgufMetadataValueType::Unknown(t) => {
            Err("unknown type tag "@ + dec(t as int) + " in array element"@)
        },
        GgufMetadataValueType::Array => {
            let element = value_type_of_raw(le32(data.skip(pos)) as u32);
            let count = le64(data.skip(pos + 4));
            if pos + 12 > data.len() {
                Err(short_read())
            } else if array_fault(element, count, depth + 1, data.len() - (pos + 12)) is Some {
                Err(array_fault(element, count, depth + 1, data.len() - (pos + 12))->0)
            } else {
                elements_end(data, pos + 12, element, count, depth + 1)
            }
        },
        _ => if pos + scalar_width(ty) > data.len() {
            Err(short_read())
        } else {
            Ok(pos + scalar_width(ty))
        },
    }
}

/// Where `n` values of one type end, or why they cannot all be read.
pub open spec fn elements_end(
    data: Seq<u8>,
    pos: int,
    ty: GgufMetadataValueType,
    n: int,
    depth: int,
) -> Result<int, Seq<char>>
    decreases 17 - depth, n,
{
    if n <= 0 {
        Ok(pos)
    } else {
        match elements_end(data, pos, ty, n - 1, depth) {
            Err(e) => Err(e),
            Ok(p) => typed_end(data, p, ty, depth),
        }
    }
}

/// `v` is the value that stands at a position in a known type.
pub open spec fn encodes(
    v: GgufValue,
    data: Seq<u8>,
    pos: int,
    ty: GgufMetadataValueType,
    depth: int,
) -> bool
    decreases v,
{
    match ty {
        GgufMetadataValueType::String => v matches GgufValue::Str(s) && s@ == string_at(
            data,
            pos,
        ),
        GgufMetadataValueType::Array => match v {
            GgufValue::Array(items) => {
                let element = value_type_of_raw(le32(data.skip(pos)) as u32);
                &&& items@.len() == le64(data.skip(pos + 4))
                &&& forall|i: int|
                    0 <= i < items@.len() ==> encodes(
                        #[trigger] items@[i],
                        data,
                        elements_end(data, pos + 12, element, i, depth + 1)->Ok_0,
                        element,
                        depth + 1,
                    )
            },
            _ => false,
        },
        GgufMetadataValueType::Unknown(_) => false,
        _ => v == scalar_value(ty, data.skip(pos)),
    }
}

/// What the message for a value that is cut short starts with.
pub open spec fn scalar_label(ty: GgufMetadataValueType) -> Seq<char> {
    match ty {
        GgufMetadataValueType::Uint8 => "uint8: "@,
        GgufMetadataValueType::Int8 => "int8: "@,
        GgufMetadataValueType::Uint16 => "uint16: "@,
        GgufMetadataValueType::Int16 => "int16: "@,
        GgufMetadataValueType::Uint32 => "uint32: "@,
        GgufMetadataValueType::Int32 => "int32: "@,
        GgufMetadataValueType::Float32 => "float32: "@,
        GgufMetadataValueType::Bool => "bool: "@,
        GgufMetadataValueType::Uint64 => "uint64: "@,
        GgufMetadataValueType::Int64 => "int64: "@,
        _ => "float64: "@,
    }
}

/// Where the elements of an outermost array end, or which of them cannot be
/// read and why.
pub open spec fn outer_elements_end(
    data: Seq<u8>,
    pos: int,
    ty: GgufMetadataValueType,
    n: int,
) -> Result<int, Seq<char>>
    decreases n,
{
    if n <= 0 {
        Ok(pos)
    } else {
        match outer_elements_end(data, pos, ty, n - 1) {
            Err(e) => Err(e),
            Ok(p) => match typed_end(data, p, ty, 1) {
                Err(e) => Err("array["@ + dec(n - 1) + "]: "@ + e),
                Ok(q) => Ok(q),
            },
        }
    }
}

/// Where a type tag and its value end, or why they cannot be read.
pub open spec fn value_end(data: Seq<u8>, pos: int) -> Result<int, Seq<char>> {
    let ty = value_type_of_raw(le32(data.skip(pos)) as u32);
    if pos + 4 > data.len() {
        Err("value type tag: "@ + short_read())
    } else {
        match ty {
            GgufMetadataValueType::String => string_end(data, pos + 4),
            GgufMetadataValueType::Unknown(t) => {
                Err("unknown metadata value type: "@ + dec(t as int))
            },
            GgufMetadataValueType::Array => {
                let element = value_type_of_raw(le32(data.skip(pos + 4)) as u32);
                let count = le64(data.skip(pos + 8));
                if pos + 8 > data.len() {
                    Err("array element type: "@ + short_read())
                } else if pos + 16 > data.len() {
                    Err("array count: "@ + short_read())
                } else if array_fault(element, count, 1, data.len() - (pos + 16)) is Some {
                    Err(array_fault(element, count, 1, data.len() - (pos + 16))->0)
                } else {
                    outer_elements_end(data, pos + 16, element, count)
                }
            },
            _ => if pos + 4 + scalar_width(ty) > data.len() {
                Err(scalar_label(ty) + short_read())
            } else {
                Ok(pos + 4 + scalar_width(ty))
            },
        }
    }
}

/// `v` is the value that stands, behind its type tag, at a position.
pub open spec fn holds_value(v: GgufValue, data: Seq<u8>, pos: int) -> bool {
    encodes(v, data, pos + 4, value_type_of_raw(le32(data.skip(pos)) as u32), 0)
}

/// An element that cannot be read stops the reading of the array.
proof fn lemma_elements_stop(
    data: Seq<u8>,
    pos: int,
    ty: GgufMetadataValueType,
    n: int,
    m: int,
    depth: int,
)
    requires
        0 <= n <= m,
        elements_end(data, pos, ty, n, depth) is Err,
    ensures
        elements_end(data, pos, ty, m, depth) == elements_end(data, pos, ty, n, depth),
    decreases m - n,
{
    if n < m {
        lemma_elements_stop(data, pos, ty, n, m - 1, depth);
    }
}

/// The same for an outermost array.
proof fn lemma_outer_elements_stop(
    data: Seq<u8>,
    pos: int,
    ty: GgufMetadataValueType,
    n: int,
    m: int,
)
    requires
        0 <= n <= m,
        outer_elements_end(data, pos, ty, n) is Err,
    ensures
        outer_elements_end(data, pos, ty, m) == outer_elements_end(data, pos, ty, n),
    decreases m - n,
{
    if n < m {
        lemma_outer_elements_stop(data, pos, ty, n, m - 1);
    }
}

/// Little-endian numbers stay below the power of two that their width gives.
pub(crate) proof fn lemma_le_bounds(b: Seq<u8>)
    ensures
        0 <= le16(b) < 0x1_0000,
        0 <= le32(b) < 0x1_0000_0000,
        0 <= le64(b) < 0x1_0000_0000_0000_0000,
{
    let hi = b.skip(4);
    assert(0 <= b[0] < 256 && 0 <= b[1] < 256 && 0 <= b[2] < 256 && 0 <= b[3] < 256);
    assert(0 <= hi[0] < 256 && 0 <= hi[1] < 256 && 0 <= hi[2] < 256 && 0 <= hi[3] < 256);
}

/// Reads a value of a type with a fixed size.
fn read_scalar(cur: &mut ByteCursor<'_>, ty: GgufMetadataValueType) -> (r: Option<GgufValue>)
    requires
        old(cur).wf(),
        scalar_width(ty) > 0,
    ensures
        final(cur).wf(),
        old(cur).advanced(*final(cur), scalar_width(ty), r is Some),
        r matches Some(v) ==> v == scalar_value(ty, old(cur).data@.skip(old(cur).pos as int)),
{
    proof {
        lemma_le_bounds(cur.data@.skip(cur.pos as int));
    }
    match ty {
        GgufMetadataValueType::Uint8 => match cur.take_u8() {
            Some(v) => Some(GgufValue::Uint8(v)),
            None => None,
        },
        GgufMetadataValueType::Int8 => match cur.take_i8() {
            Some(v) => Some(GgufValue::Int8(v)),
            None => None,
        },
        GgufMetadataValueType::Uint16 => match cur.take_u16() {
            Some(v) => Some(GgufValue::Uint16(v)),
            None => None,
        },
        GgufMetadataValueType::Int16 => match cur.take_i16() {
            Some(v) => Some(GgufValue::Int16(v)),
            None => None,
        },
        GgufMetadataValueType::Uint32 => match cur.take_u32() {
            Some(v) => Some(GgufValue::Uint32(v)),
            None => None,
        },
        GgufMetadataValueType::Int32 => match cur.take_i32() {
            Some(v) => Some(GgufValue::Int32(v)),
            None => None,
        },
        GgufMetadataValueType::Float32 => match cur.take_u32() {
            Some(v) => Some(GgufValue::Float32(v)),
            None => None,
        },
        GgufMetadataValueType::Bool => match cur.take_u8() {
            Some(v) => Some(GgufValue::Bool(v != 0)),
            None => None,
        },
        GgufMetadataValueType::Uint64 => match cur.take_u64() {
            Some(v) => Some(GgufValue::Uint64(v)),
            None => None,
        },
        GgufMetadataValueType::Int64 => match cur.take_i64() {
            Some(v) => Some(GgufValue::Int64(v)),
            None => None,
        },
        _ => match cur.take_u64() {
            Some(v) => Some(GgufValue::Float64(v)),
            None => None,
        },
    }
}

/// Checks an array header against the limits and the bytes that are left.
fn validate_array(
    cur: &ByteCursor<'_>,
    elem_type: GgufMetadataValueType,
    count: u64,
    depth: usize,
) -> (r: Result<(), String>)
    requires
        cur.wf(),
    ensures
        match r {
            Ok(_) => array_fault(
                elem_type,
                count as int,
                depth as int,
                cur.data@.len() - cur.pos,
            ) is None,
            Err(e) => array_fault(
                elem_type,
                count as int,
                depth as int,
                cur.data@.len() - cur.pos,
            ) == Some(e@),
        },
{
    if depth > MAX_METADATA_ARRAY_DEPTH {
        let found = decimal(depth as u64);
        let limit = decimal(MAX_METADATA_ARRAY_DEPTH as u64);
        return Err(
            cat4("metadata array nesting depth ", found.as_str(), " exceeds ", limit.as_str()),
        );
    }
    if count > MAX_METADATA_ARRAY_ELEMENTS {
        let found = decimal(count);
        let limit = decimal(MAX_METADATA_ARRAY_ELEMENTS);
        return Err(
            cat4("array count ", found.as_str(), " exceeds safety limit ", limit.as_str()),
        );
    }
    let element_bytes: u64 = match elem_type {
        GgufMetadataValueType::Uint8 => 1,
        GgufMetadataValueType::Int8 => 1,
        GgufMetadataValueType::Bool => 1,
        GgufMetadataValueType::Uint16 => 2,
        GgufMetadataValueType::Int16 => 2,
        GgufMetadataValueType::Uint32 => 4,
        GgufMetadataValueType::Int32 => 4,
        GgufMetadataValueType::Float32 => 4,
        GgufMetadataValueType::Uint64 => 8,
        GgufMetadataValueType::Int64 => 8,
        GgufMetadataValueType::Float64 => 8,
        GgufMetadataValueType::String => 8,
        GgufMetadataValueType::Array => 12,
        GgufMetadataValueType::Unknown(t) => {
            let tag = decimal(t as u64);
            return Err(cat3("unknown type tag ", tag.as_str(), " in array element"));
        },
    };
    proof {
        assert(count * element_bytes <= 12_000_000) by (nonlinear_arith)
            requires
                count <= 1_000_000,
                element_bytes <= 12,
        ;
    }
    let minimum_bytes: u64 = count * element_bytes;
    let remaining_bytes: u64 = cur.remaining() as u64;
    if minimum_bytes > remaining_bytes {
        let found = decimal(count);
        let left = decimal(remaining_bytes);
        return Err(
            cat5(
                "array of ",
                found.as_str(),
                " elements cannot fit in ",
                left.as_str(),
                " remaining bytes",
            ),
        );
    }
    Ok(())
}

/// Reads a value whose type is already known.
pub fn read_gguf_typed_value(
    cur: &mut ByteCursor<'_>,
    vtype: GgufMetadataValueType,
    depth: usize,
) -> (r: Result<GgufValue, String>)
    requires
        old(cur).wf(),
        depth < usize::MAX,
    ensures
        final(cur).wf(),
        final(cur).data == old(cur).data,
        match r {
            Ok(v) => typed_end(old(cur).data@, old(cur).pos as int, vtype, depth as int) == Ok::<
                int,
                Seq<char>,
            >(final(cur).pos as int) && encodes(
                v,
                old(cur).data@,
                old(cur).pos as int,
                vtype,
                depth as int,
            ),
            Err(e) => typed_end(old(cur).data@, old(cur).pos as int, vtype, depth as int)
                == Err::<int, Seq<char>>(e@),
        },
    decreases 17 - depth,
{
    match vtype {
        GgufMetadataValueType::String => match read_gguf_string(cur) {
            Ok(s) => Ok(GgufValue::Str(s)),
            Err(e) => Err(e),
        },
        GgufMetadataValueType::Unknown(t) => {
            let tag = decimal(t as u64);
            Err(cat3("unknown type tag ", tag.as_str(), " in array element"))
        },
        GgufMetadataValueType::Array => {
            let ghost data = cur.data@;
            let ghost start = cur.pos as int;
            proof {
                lemma_le_bounds(data.skip(start));
                lemma_le_bounds(data.skip(start + 4));
            }
            let elem_type_raw: u32 = match cur.take_u32() {
                Some(v) => v,
                None => {
                    return Err(owned("failed to fill whole buffer"));
                },
            };
            let count: u64 = match cur.take_u64() {
                Some(v) => v,
                None => {
                    return Err(owned("failed to fill whole buffer"));
                },
            };
            let elem_type = GgufMetadataValueType::from_raw(elem_type_raw);
            match validate_array(cur, elem_type, count, depth + 1) {
                Ok(_) => {},
                Err(e) => {
                    return Err(e);
                },
            }
            let mut items: Vec<GgufValue> = Vec::new();
            let mut i: u64 = 0;
            while i < count
                invariant
                    cur.wf(),
                    cur.data@ == data,
                    cur.data == old(cur).data,
                    vtype == GgufMetadataValueType::Array,
                    depth < 16,
                    i <= count,
                    items@.len() == i,
                    count == le64(data.skip(start + 4)),
                    elem_type == value_type_of_raw(le32(data.skip(start)) as u32),
                    elements_end(data, start + 12, elem_type, i as int, depth + 1) == Ok::<
                        int,
                        Seq<char>,
                    >(cur.pos as int),
                    typed_end(data, start, GgufMetadataValueType::Array, depth as int)
                        == elements_end(data, start + 12, elem_type, count as int, depth + 1),
                    data == old(cur).data@,
                    start == old(cur).pos,
                    forall|k: int|
                        0 <= k < i ==> encodes(
                            #[trigger] items@[k],
                            data,
                            elements_end(data, start + 12, elem_type, k, depth + 1)->Ok_0,
                            elem_type,
                            depth + 1,
                        ),
                decreases count - i,
            {
                match read_gguf_typed_value(cur, elem_type, depth + 1) {
                    Ok(v) => {
                        items.push(v);
                    },
                    Err(e) => {
                        proof {
                            lemma_elements_stop(
                                data,
                                start + 12,
                                elem_type,
                                i + 1,
                                count as int,
                                depth + 1,
                            );
                        }
                        return Err(e);
                    },
                }
                i = i + 1;
            }
            Ok(GgufValue::Array(items))
        },
        _ => match read_scalar(cur, vtype) {
            Some(v) => Ok(v),
            None => Err(owned("failed to fill whole buffer")),
        },
    }
}

/// What the message for a value that is cut short starts with.
fn label_of(ty: GgufMetadataValueType) -> (s: &'static str)
    ensures
        s@ == scalar_label(ty),
{
    match ty {
        GgufMetadataValueType::Uint8 => "uint8: ",
        GgufMetadataValueType::Int8 => "int8: ",
        GgufMetadataValueType::Uint16 => "uint16: ",
        GgufMetadataValueType::Int16 => "int16: ",
        GgufMetadataValueType::Uint32 => "uint32: ",
        GgufMetadataValueType::Int32 => "int32: ",
        GgufMetadataValueType::Float32 => "float32: ",
        GgufMetadataValueType::Bool => "bool: ",
        GgufMetadataValueType::Uint64 => "uint64: ",
        GgufMetadataValueType::Int64 => "int64: ",
        _ => "float64: ",
    }
}

/// Reads a type tag and the value behind it.
pub fn read_gguf_value(cur: &mut ByteCursor<'_>) -> (r: Result<GgufValue, String>)
    requires
        old(cur).wf(),
    ensures
        final(cur).wf(),
        final(cur).data == old(cur).data,
        match r {
            Ok(v) => value_end(old(cur).data@, old(cur).pos as int) == Ok::<int, Seq<char>>(
                final(cur).pos as int,
            ) && holds_value(v, old(cur).data@, old(cur).pos as int),
            Err(e) => value_end(old(cur).data@, old(cur).pos as int) == Err::<int, Seq<char>>(
                e@,
            ),
        },
{
    let ghost data = cur.data@;
    let ghost start = cur.pos as int;
    proof {
        lemma_le_bounds(data.skip(start));
        lemma_le_bounds(data.skip(start + 4));
        lemma_le_bounds(data.skip(start + 8));
    }
    let raw_type: u32 = match cur.take_u32() {
        Some(v) => v,
        None => {
            return Err(cat2("value type tag: ", "failed to fill whole buffer"));
        },
    };
    let vtype = GgufMetadataValueType::from_raw(raw_type);
    match vtype {
        GgufMetadataValueType::String => match read_gguf_string(cur) {
            Ok(s) => Ok(GgufValue::Str(s)),
            Err(e) => Err(e),
        },
        GgufMetadataValueType::Unknown(t) => {
            let tag = decimal(t as u64);
            Err(cat2("unknown metadata value type: ", tag.as_str()))
        },
        GgufMetadataValueType::Array => {
            let elem_type_raw: u32 = match cur.take_u32() {
                Some(v) => v,
                None => {
                    return Err(cat2("array element type: ", "failed to fill whole buffer"));
                },
            };
            let count: u64 = match cur.take_u64() {
                Some(v) => v,
                None => {
                    return Err(cat2("array count: ", "failed to fill whole buffer"));
                },
            };
            let elem_type = GgufMetadataValueType::from_raw(elem_type_raw);
            match validate_array(cur, elem_type, count, 1) {
                Ok(_) => {},
                Err(e) => {
                    return Err(e);
                },
            }
            let mut items: Vec<GgufValue> = Vec::new();
            let mut i: u64 = 0;
            while i < count
                invariant
                    cur.wf(),
                    cur.data@ == data,
                    cur.data == old(cur).data,
                    i <= count,
                    items@.len() == i,
                    count == le64(data.skip(start + 8)),
                    elem_type == value_type_of_raw(le32(data.skip(start + 4)) as u32),
                    elements_end(data, start + 16, elem_type, i as int, 1) == Ok::<
                        int,
                        Seq<char>,
                    >(cur.pos as int),
                    outer_elements_end(data, start + 16, elem_type, i as int) == Ok::<
                        int,
                        Seq<char>,
                    >(cur.pos as int),
                    value_end(data, start) == outer_elements_end(
                        data,
                        start + 16,
                        elem_type,
                        count as int,
                    ),
                    data == old(cur).data@,
                    start == old(cur).pos,
                    forall|k: int|
                        0 <= k < i ==> encodes(
                            #[trigger] items@[k],
                            data,
                            elements_end(data, start + 16, elem_type, k, 1)->Ok_0,
                            elem_type,
                            1,
                        ),
                decreases count - i,
            {
                match read_gguf_typed_value(cur, elem_type, 1) {
                    Ok(v) => {
                        items.push(v);
                    },
                    Err(e) => {
                        let index = decimal(i);
                        proof {
                            lemma_outer_elements_stop(
                                data,
                                start + 16,
                                elem_type,
                                i + 1,
                                count as int,
                            );
                        }
                        return Err(cat4("array[", index.as_str(), "]: ", e.as_str()));
                    },
                }
                i = i + 1;
            }
            Ok(GgufValue::Array(items))
        },
        _ => match read_scalar(cur, vtype) {
            Some(v) => Ok(v),
            None => Err(cat2(label_of(vtype), "failed to fill whole buffer")),
        },
    }
}

} // verus!
