//! What holds of every file that can be used.

use crate::gguf::bytes::{le32, le64, string_end};
use crate::gguf::layout::{
    aligned, alignment_of, directory_of, directory_start, directory_stop, dtype_place,
    entries_end, file_fault, kv_count_of, layout_fault, layouts_fault, name_stop, next_above,
    record_end, records_end, section_start, tensor_count_of, tensor_start, tensor_stop,
    TensorRecord,
};
use crate::gguf::reader::lemma_power_of_two_positive;
use crate::gguf::types::{value_type_of_raw, GgufMetadataValueType};
use crate::gguf::value::{
    elements_end, lemma_le_bounds, outer_elements_end, typed_end, value_end,
};
use vstd::prelude::*;

verus! {

/// Where no tensor has a fault, none of the first `n` has one.
pub(crate) proof fn lemma_no_layout_fault(
    records: Seq<TensorRecord>,
    n: int,
    start: int,
    file_len: int,
    i: int,
)
    requires
        layouts_fault(records, n, start, file_len) is None,
        0 <= i < n,
    ensures
        layout_fault(records, i, start, file_len) is None,
    decreases n,
{
    if i < n - 1 {
        lemma_no_layout_fault(records, n - 1, start, file_len, i);
    }
}

/// The next offset above `x` is at most every offset above `x`.
pub(crate) proof fn lemma_next_is_least(records: Seq<TensorRecord>, x: u64, n: int, j: int)
    requires
        0 <= j < n <= records.len(),
        records[j].relative_offset > x,
    ensures
        next_above(records, x, n) is Some,
        next_above(records, x, n)->0 <= records[j].relative_offset,
    decreases n,
{
    if j < n - 1 {
        lemma_next_is_least(records, x, n - 1, j);
    }
}

/// A usable file has as many directory entries as its header announces, and
/// none of them has a fault.
pub(crate) proof fn lemma_usable(data: Seq<u8>, i: int)
    requires
        file_fault(data) is None,
        0 <= i < tensor_count_of(data),
    ensures
        directory_of(data).len() == tensor_count_of(data),
        layout_fault(directory_of(data), i, section_start(data), data.len() as int) is None,
{
    lemma_no_layout_fault(
        directory_of(data),
        tensor_count_of(data),
        section_start(data),
        data.len() as int,
        i,
    );
}

/// The bytes of every tensor, scale block included, lie in the file and behind
/// the start of the tensor data.
pub proof fn tensors_lie_in_the_file(data: Seq<u8>, i: int)
    requires
        file_fault(data) is None,
        0 <= i < tensor_count_of(data),
    ensures
        section_start(data) <= tensor_start(data, i) <= tensor_stop(data, i) <= data.len(),
{
    lemma_usable(data, i);
    lemma_length_nonneg(data, i);
}

/// The bytes of a tensor are not negative in number.
proof fn lemma_length_nonneg(data: Seq<u8>, i: int)
    requires
        file_fault(data) is None,
        0 <= i < tensor_count_of(data),
    ensures
        crate::gguf::layout::tensor_len(data, i) >= 0,
{
    lemma_usable(data, i);
    let r = directory_of(data)[i];
    let n = crate::gguf::tensor::product(r.shape);
    crate::gguf::tensor::lemma_product_nonneg(r.shape);
    assert(n / 32 * 18 >= 0 && n / 256 * 210 >= 0 && n / 256 * 144 >= 0 && n / 32 * 34 >= 0);
    match crate::gguf::layout::block_units(r.ggml_type) {
        Some((elements, bytes)) => {
            assert(n / elements * bytes >= 0) by (nonlinear_arith)
                requires
                    n >= 0,
                    elements > 0,
                    bytes > 0,
            ;
        },
        None => {},
    }
}

/// No byte belongs to two tensors: of two tensors one ends, scale block
/// included, before the other starts.
pub proof fn tensors_lie_apart(data: Seq<u8>, i: int, j: int)
    requires
        file_fault(data) is None,
        0 <= i < tensor_count_of(data),
        0 <= j < tensor_count_of(data),
        i != j,
    ensures
        tensor_stop(data, i) <= tensor_start(data, j) || tensor_stop(data, j) <= tensor_start(
            data,
            i,
        ),
{
    lemma_usable(data, i);
    lemma_usable(data, j);
    let records = directory_of(data);
    let n = records.len() as int;
    assert(records[j].relative_offset != records[i].relative_offset);
    if records[i].relative_offset < records[j].relative_offset {
        lemma_next_is_least(records, records[i].relative_offset, n, j);
    } else {
        lemma_next_is_least(records, records[j].relative_offset, n, i);
    }
}

/// Aligning gives a multiple of the alignment, at or above the offset and less
/// than one alignment away.
pub proof fn alignment_reaches_the_next_multiple(offset: int, alignment: int)
    requires
        offset >= 0,
        alignment > 0,
    ensures
        aligned(offset, alignment) % alignment == 0,
        offset <= aligned(offset, alignment) < offset + alignment,
{
    if offset % alignment != 0 {
        let q = offset / alignment;
        let r = offset % alignment;
        assert(offset == q * alignment + r) by {
            vstd::arithmetic::div_mod::lemma_fundamental_div_mod(offset, alignment);
            assert(alignment * q == q * alignment) by (nonlinear_arith);
        }
        assert(aligned(offset, alignment) == (q + 1) * alignment) by (nonlinear_arith)
            requires
                offset == q * alignment + r,
                aligned(offset, alignment) == offset + (alignment - r),
        ;
        vstd::arithmetic::div_mod::lemma_mod_multiples_basic(q + 1, alignment);
        vstd::arithmetic::div_mod::lemma_mod_bound(offset, alignment);
    }
}

/// A string ends behind its length, in the file.
pub(crate) proof fn lemma_string_advances(data: Seq<u8>, pos: int)
    requires
        0 <= pos <= data.len(),
        string_end(data, pos) is Ok,
    ensures
        pos + 8 <= string_end(data, pos)->Ok_0 <= data.len(),
{
    lemma_le_bounds(data.skip(pos));
}

/// A value ends at or behind its start, in the file.
pub(crate) proof fn lemma_typed_advances(data: Seq<u8>, pos: int, ty: GgufMetadataValueType, depth: int)
    requires
        0 <= pos <= data.len(),
        typed_end(data, pos, ty, depth) is Ok,
    ensures
        pos <= typed_end(data, pos, ty, depth)->Ok_0 <= data.len(),
    decreases 17 - depth, 0int,
{
    match ty {
        GgufMetadataValueType::String => lemma_string_advances(data, pos),
        GgufMetadataValueType::Array => {
            let element = value_type_of_raw(le32(data.skip(pos)) as u32);
            let count = le64(data.skip(pos + 4));
            lemma_elements_advance(data, pos + 12, element, count, depth + 1);
        },
        _ => {},
    }
}

/// Values that follow one another end at or behind their start, in the file.
pub(crate) proof fn lemma_elements_advance(
    data: Seq<u8>,
    pos: int,
    ty: GgufMetadataValueType,
    n: int,
    depth: int,
)
    requires
        0 <= pos <= data.len(),
        elements_end(data, pos, ty, n, depth) is Ok,
    ensures
        pos <= elements_end(data, pos, ty, n, depth)->Ok_0 <= data.len(),
    decreases 17 - depth, n,
{
    if n > 0 {
        lemma_elements_advance(data, pos, ty, n - 1, depth);
        lemma_typed_advances(data, elements_end(data, pos, ty, n - 1, depth)->Ok_0, ty, depth);
    }
}

/// The same for the elements of an outermost array.
pub(crate) proof fn lemma_outer_advance(data: Seq<u8>, pos: int, ty: GgufMetadataValueType, n: int)
    requires
        0 <= pos <= data.len(),
        outer_elements_end(data, pos, ty, n) is Ok,
    ensures
        pos <= outer_elements_end(data, pos, ty, n)->Ok_0 <= data.len(),
    decreases n,
{
    if n > 0 {
        lemma_outer_advance(data, pos, ty, n - 1);
        lemma_typed_advances(data, outer_elements_end(data, pos, ty, n - 1)->Ok_0, ty, 1);
    }
}

/// A tagged value ends behind its tag, in the file.
pub(crate) proof fn lemma_value_advances(data: Seq<u8>, pos: int)
    requires
        0 <= pos <= data.len(),
        value_end(data, pos) is Ok,
    ensures
        pos + 4 <= value_end(data, pos)->Ok_0 <= data.len(),
{
    match value_type_of_raw(le32(data.skip(pos)) as u32) {
        GgufMetadataValueType::String => lemma_string_advances(data, pos + 4),
        GgufMetadataValueType::Array => {
            let element = value_type_of_raw(le32(data.skip(pos + 4)) as u32);
            let count = le64(data.skip(pos + 8));
            lemma_outer_advance(data, pos + 16, element, count);
        },
        _ => {},
    }
}

/// Metadata entries end at or behind their start, in the file.
pub(crate) proof fn lemma_entries_advance(data: Seq<u8>, pos: int, n: int)
    requires
        0 <= pos <= data.len(),
        entries_end(data, pos, n) is Ok,
    ensures
        pos <= entries_end(data, pos, n)->Ok_0 <= data.len(),
    decreases n,
{
    if n > 0 {
        lemma_entries_advance(data, pos, n - 1);
        let p = entries_end(data, pos, n - 1)->Ok_0;
        lemma_string_advances(data, p);
        lemma_value_advances(data, string_end(data, p)->Ok_0);
    }
}

/// A directory entry has its type tag, and its offset behind it, in the file.
pub(crate) proof fn lemma_record_advances(data: Seq<u8>, pos: int, i: int)
    requires
        0 <= pos <= data.len(),
        record_end(data, pos, i) is Ok,
    ensures
        pos + 12 <= dtype_place(data, pos),
        record_end(data, pos, i)->Ok_0 == dtype_place(data, pos) + 12,
        dtype_place(data, pos) + 12 <= data.len(),
{
    lemma_string_advances(data, pos);
    lemma_le_bounds(data.skip(name_stop(data, pos)));
}

/// Directory entries end at or behind their start, in the file.
pub(crate) proof fn lemma_records_advance(data: Seq<u8>, pos: int, n: int)
    requires
        0 <= pos <= data.len(),
        records_end(data, pos, n) is Ok,
    ensures
        pos <= records_end(data, pos, n)->Ok_0 <= data.len(),
    decreases n,
{
    if n > 0 {
        lemma_records_advance(data, pos, n - 1);
        lemma_record_advances(data, records_end(data, pos, n - 1)->Ok_0, n - 1);
    }
}

/// The directory lies behind the header, in the file.
pub(crate) proof fn lemma_directory_bounds(data: Seq<u8>)
    requires
        file_fault(data) is None,
    ensures
        24 <= directory_start(data) <= directory_stop(data) <= data.len(),
{
    lemma_entries_advance(data, 24, kv_count_of(data));
    lemma_records_advance(data, directory_start(data), tensor_count_of(data));
}

/// Tensor data starts at a multiple of the alignment, behind the directory.
pub proof fn data_section_is_aligned(data: Seq<u8>)
    requires
        file_fault(data) is None,
    ensures
        alignment_of(data) > 0,
        section_start(data) % alignment_of(data) == 0,
        directory_stop(data) <= section_start(data) < directory_stop(data) + alignment_of(data),
{
    lemma_power_of_two_positive(alignment_of(data));
    lemma_directory_bounds(data);
    alignment_reaches_the_next_multiple(directory_stop(data), alignment_of(data));
}

} // verus!
