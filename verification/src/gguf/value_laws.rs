//! Values of the metadata and tensors, each where it stands in the file.

use crate::gguf::bytes::{le32, le64, string_at, string_end};
use crate::gguf::format_laws::{holds_number, written_numbers_read_back};
use crate::gguf::layout::{
    directory_of, file_fault, kv_count_of, last_entry, record_end, tensor_bytes, value_of_entry,
};
use crate::gguf::linker::{is_change, is_tensor_plan, TensorChange, TensorPlan};
use crate::gguf::metadata::{count_of_value_is_count_of_bytes, value_as_u64};
use crate::gguf::reader::GgufFile;
use crate::gguf::relink::{Relink, TensorAction};
use crate::gguf::types::{ggml_name, value_type_of_raw, GgmlType, GgufMetadataValueType};
use crate::gguf::value::{
    array_fault, elements_end, encodes, holds_value, outer_elements_end, scalar_value,
    scalar_width, typed_end, value_end, GgufValue,
};
use vstd::prelude::*;
use vstd::utf8::*;

verus! {

/// A text is read exactly where its length is there, is at most a mebibyte, its bytes are
/// there too, and they are UTF-8.
pub proof fn texts_that_fit_are_read(data: Seq<u8>, pos: int)
    requires
        0 <= pos,
    ensures
        string_end(data, pos) is Ok <==> {
            let n = le64(data.skip(pos));
            &&& pos + 8 <= data.len()
            &&& n <= 1024 * 1024
            &&& pos + 8 + n <= data.len()
            &&& valid_utf8(data.subrange(pos + 8, pos + 8 + n))
        },
        string_end(data, pos) matches Ok(q) ==> q - pos - 8 == le64(data.skip(pos)),
{
}

/// A directory entry is read exactly where its name can be and the rest of it is there, with
/// four dimensions at most.
pub proof fn directory_entries_that_fit_are_read(data: Seq<u8>, pos: int, i: int)
    requires
        0 <= pos,
    ensures
        record_end(data, pos, i) is Ok <==> {
            &&& string_end(data, pos) matches Ok(p)
            &&& p + 4 <= data.len()
            &&& le32(data.skip(p)) <= 4
            &&& p + 4 + 8 * le32(data.skip(p)) + 4 + 8 <= data.len()
        },
{
}

/// Elements of a fixed size stand side by side.
proof fn lemma_side_by_side(
    data: Seq<u8>,
    pos: int,
    ty: GgufMetadataValueType,
    n: int,
    depth: int,
)
    requires
        0 <= n,
        scalar_width(ty) > 0,
    ensures
        pos + n * scalar_width(ty) <= data.len() ==> elements_end(data, pos, ty, n, depth) == Ok::<
            int,
            Seq<char>,
        >(pos + n * scalar_width(ty)) && outer_elements_end(data, pos, ty, n) == Ok::<
            int,
            Seq<char>,
        >(pos + n * scalar_width(ty)),
    decreases n,
{
    if n > 0 {
        let w = scalar_width(ty);
        lemma_side_by_side(data, pos, ty, n - 1, depth);
        assert(n * w == (n - 1) * w + w) by (nonlinear_arith);
        if pos + n * w <= data.len() {
            assert(elements_end(data, pos, ty, n - 1, depth) == Ok::<int, Seq<char>>(
                pos + (n - 1) * w,
            ));
            assert(typed_end(data, pos + (n - 1) * w, ty, depth) == Ok::<int, Seq<char>>(
                pos + n * w,
            ));
            assert(typed_end(data, pos + (n - 1) * w, ty, 1) == Ok::<int, Seq<char>>(pos + n * w));
        }
    }
}

/// An array of values of a fixed size reads back: the tags of an array and of its elements,
/// their number, and the elements side by side.
pub proof fn written_arrays_read_back(data: Seq<u8>, pos: int, tag: u32, n: int, items: Vec<GgufValue>)
    requires
        0 <= pos,
        0 <= n <= 1_000_000,
        scalar_width(value_type_of_raw(tag)) > 0,
        pos + 16 + n * scalar_width(value_type_of_raw(tag)) <= data.len(),
        holds_number(data.skip(pos), 9, 4),
        holds_number(data.skip(pos + 4), tag as int, 4),
        holds_number(data.skip(pos + 8), n, 8),
        items@.len() == n,
        forall|i: int|
            0 <= i < n ==> #[trigger] items@[i] == scalar_value(
                value_type_of_raw(tag),
                data.skip(pos + 16 + i * scalar_width(value_type_of_raw(tag))),
            ),
    ensures
        value_end(data, pos) == Ok::<int, Seq<char>>(
            pos + 16 + n * scalar_width(value_type_of_raw(tag)),
        ),
        holds_value(GgufValue::Array(items), data, pos),
{
    let ty = value_type_of_raw(tag);
    let w = scalar_width(ty);
    written_numbers_read_back(data.skip(pos), 9);
    written_numbers_read_back(data.skip(pos + 4), tag as int);
    written_numbers_read_back(data.skip(pos + 8), n);
    assert(0 <= n * w) by (nonlinear_arith)
        requires
            0 <= n,
            0 < w,
    ;
    lemma_side_by_side(data, pos + 16, ty, n, 1);
    assert(array_fault(ty, n, 1, data.len() - (pos + 16)) is None);
    let v = GgufValue::Array(items);
    assert forall|i: int| 0 <= i < items@.len() implies encodes(
        #[trigger] items@[i],
        data,
        elements_end(data, pos + 16, ty, i, 1)->Ok_0,
        ty,
        1,
    ) by {
        assert(i * w <= n * w) by (nonlinear_arith)
            requires
                0 <= i <= n,
                0 < w,
        ;
        lemma_side_by_side(data, pos + 16, ty, i, 1);
    }
    assert(encodes(v, data, pos + 4, GgufMetadataValueType::Array, 0));
}

/// A text as a value reads back behind its tag.
pub proof fn written_text_values_read_back(data: Seq<u8>, pos: int, s: String)
    requires
        0 <= pos,
        pos + 4 <= data.len(),
        holds_number(data.skip(pos), 8, 4),
        string_at(data, pos + 4) == s@,
    ensures
        value_end(data, pos) == string_end(data, pos + 4),
        holds_value(GgufValue::Str(s), data, pos),
{
    written_numbers_read_back(data.skip(pos), 8);
}

/// The bytes of a tensor stand at its place in the file, which is as far behind the start of
/// the data as the directory says, and the scale block of an I2_S tensor right behind them.
pub proof fn tensors_hold_their_stretch(file: GgufFile<'_>, data: Seq<u8>, i: int)
    requires
        file_fault(data) is None,
        file.describes(data),
        0 <= i < file.tensors@.len(),
    ensures
        ({
            let t = file.tensors@[i];
            let r = directory_of(data)[i];
            let end = t.offset + t.byte_len;
            &&& t.name@ == r.name && t.shape@ == r.shape && t.ggml_type == r.ggml_type
            &&& t.offset - file.data_section_start == r.relative_offset
            &&& t.data@ == data.subrange(t.offset as int, end)
            &&& tensor_bytes(t.shape@, t.ggml_type) == Ok::<Option<int>, Seq<char>>(
                Some(t.byte_len as int),
            )
            &&& t.ggml_type == GgmlType::BitNetI2S ==> (t.scale_data matches Some(s) && s@
                == data.subrange(end, end + 32))
            &&& t.ggml_type != GgmlType::BitNetI2S ==> t.scale_data is None
        }),
{
    crate::gguf::laws::lemma_usable(data, i);
}

/// The types that are computed with are called by their names.
pub proof fn types_have_their_names(t: GgmlType)
    ensures
        t == GgmlType::F32 ==> ggml_name(t) == "F32"@,
        t == GgmlType::F16 ==> ggml_name(t) == "F16"@,
        t == GgmlType::Q4_0 ==> ggml_name(t) == "Q4_0"@,
        t == GgmlType::Q8_0 ==> ggml_name(t) == "Q8_0"@,
        t == GgmlType::Q4K ==> ggml_name(t) == "Q4_K"@,
        t == GgmlType::Q6K ==> ggml_name(t) == "Q6_K"@,
{
}

/// A plan keeps what follows a tensor in the source: its slot in the output has room for the
/// tensor in its new form and for those bytes. A tensor that is copied keeps its type and its
/// size.
pub proof fn plans_keep_what_follows(t: TensorPlan, r: Relink, p: int)
    requires
        r.wf(),
        0 <= p < r.order.len(),
        is_tensor_plan(t, r, p),
    ensures
        t.name@ == r.tensors[r.order[p] as int].name,
        t.source_offset == r.tensors[r.order[p] as int].offset,
        t.source_primary_bytes == r.tensors[r.order[p] as int].len,
        t.source_primary_bytes <= t.source_slot_bytes,
        t.source_offset + t.source_slot_bytes <= r.source_len,
        t.output_slot_bytes - t.output_primary_bytes >= t.source_slot_bytes
            - t.source_primary_bytes,
        t.action == TensorAction::Copy ==> t.output_type == t.source_type
            && t.output_primary_bytes == t.source_primary_bytes,
        t.action == TensorAction::Copy <==> r.order[p] != r.chosen,
        t.action != TensorAction::Copy ==> t.output_type == r.chosen_type
            && t.output_primary_bytes == r.chosen_bytes,
{
    crate::gguf::relink::slots_hold_their_tensors(r, p);
    crate::gguf::relink::slots_are_aligned_and_apart(r, p);
}

/// What is reported as changed is the tensor that was chosen, as the plan has it.
pub proof fn changes_follow_the_plan(c: TensorChange, t: TensorPlan, r: Relink, p: int)
    requires
        is_change(c, r, p),
        is_tensor_plan(t, r, p),
    ensures
        t.action != TensorAction::Copy,
        c.name@ == t.name@,
        c.source_type == t.source_type && c.output_type == t.output_type,
        c.source_bytes == t.source_primary_bytes && c.output_bytes == t.output_primary_bytes,
        c.source_offset == t.source_offset && c.output_offset == t.output_offset,
{
}

/// Tensor data is aligned as the metadata says, and to 32 bytes where it says nothing or
/// gives no count.
pub proof fn files_state_their_alignment(file: GgufFile<'_>, data: Seq<u8>)
    requires
        file_fault(data) is None,
        file.describes(data),
    ensures
        ({
            let k = "general.alignment"@;
            &&& !file.metadata@.contains_key(k) ==> file.alignment == 32
            &&& file.metadata@.contains_key(k) && value_as_u64(file.metadata@[k]) is None
                ==> file.alignment == 32
            &&& file.metadata@.contains_key(k) && value_as_u64(file.metadata@[k]) is Some
                ==> file.alignment == value_as_u64(file.metadata@[k])->0
        }),
{
    let k = "general.alignment"@;
    let m = file.metadata@;
    assert(m.contains_key(k) == (last_entry(data, 24, kv_count_of(data), k) is Some));
    if m.contains_key(k) {
        let i = last_entry(data, 24, kv_count_of(data), k)->0;
        count_of_value_is_count_of_bytes(m[k], data, value_of_entry(data, 24, i));
    }
}

} // verus!
