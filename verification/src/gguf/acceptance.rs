//! What is accepted of a file: everything that fits the format, and nothing else.

use crate::error::Fault;
use crate::gguf::artifact::patch_fault;
use crate::gguf::bytes::{le16, le32, le64, string_at};
use crate::gguf::format_laws::{
    holds_number, next_offsets_are_nearest, written_numbers_read_back, written_texts_read_back,
};
use crate::gguf::layout::{
    alignment_of, count_fault, directory_of, entries_end, entry_end, file_fault, header_fault,
    kv_count_of, layout_fault, layouts_fault, record_at, record_end, records_end, section_start,
    tensor_bytes, tensor_count_of, TensorRecord,
};
use crate::gguf::linker::{embedding_fault, non_finite_element, relink_of};
use crate::gguf::reader::GgufFile;
use crate::gguf::repack::{rows_fault, slice_fault};
use crate::gguf::tensor::{
    byte_len_fault, finite_bits, i2s_scale_fault, product, product_fault, products_fit, TensorView,
};
use crate::gguf::types::{type_of_raw, value_type_of_raw, GgmlType, GgufMetadataValueType};
use crate::gguf::value::{array_fault, element_minimum, holds_value, scalar_value, scalar_width};
use crate::model::graph::lookup;
use crate::model::graph_laws::tensors_are_found_by_name;
use crate::model::primitives::finite_half;
use crate::number::widening_keeps_the_number;
use crate::text::power_of_two;
use vstd::prelude::*;
use vstd::utf8::*;

verus! {

/// As many things as a file announces are looked for exactly where there are at most as many
/// as may be, and the bytes that are left can hold them.
pub proof fn counts_that_fit_are_taken(
    name: Seq<char>,
    count: int,
    limit: int,
    remaining: int,
    each: int,
)
    requires
        remaining <= u64::MAX,
    ensures
        count_fault(name, count, limit, remaining, each) is None <==> count <= limit && count * each
            <= remaining,
{
}

/// A file begins with the letters GGUF, the version two or three, the number of its tensors
/// and that of its metadata entries; a million of either at most, each with the fewest bytes
/// that it can take.
pub proof fn files_begin_with_their_mark(data: Seq<u8>)
    requires
        data.len() <= u64::MAX,
    ensures
        header_fault(data) is None <==> {
            &&& data.len() >= 24
            &&& data[0] == 'G' as u8 && data[1] == 'G' as u8
            &&& data[2] == 'U' as u8 && data[3] == 'F' as u8
            &&& data[4] == 2 || data[4] == 3
            &&& data[5] == 0 && data[6] == 0 && data[7] == 0
            &&& le64(data.skip(8)) <= 1_000_000
            &&& le64(data.skip(16)) <= 1_000_000
            &&& le64(data.skip(8)) * 24 <= data.len() - 24
            &&& le64(data.skip(16)) * 13 <= data.len() - 24
        },
{
    if data.len() >= 8 {
        let t = data.skip(4);
        assert(t[0] == data[4] && t[1] == data[5] && t[2] == data[6] && t[3] == data[7]);
        assert(le32(data) == 0x4655_4747 <==> data[0] == 0x47 && data[1] == 0x47 && data[2] == 0x55
            && data[3] == 0x46);
        assert(le32(t) == 2 || le32(t) == 3 <==> (t[0] == 2 || t[0] == 3) && t[1] == 0 && t[2] == 0
            && t[3] == 0);
    }
}

/// A file with other letters at its start, or of another version, is refused for that, with
/// the number that stands there.
pub proof fn other_files_are_refused_by_name(data: Seq<u8>, n: u32)
    requires
        data.len() >= 8,
    ensures
        holds_number(data, n as int, 4) && n != 0x4655_4747 ==> header_fault(data) == Some(
            Fault::InvalidMagic(n),
        ),
        holds_number(data, 0x4655_4747, 4) && holds_number(data.skip(4), n as int, 4) && n != 2 && n
            != 3 ==> header_fault(data) == Some(Fault::UnsupportedVersion(n)),
{
    written_numbers_read_back(data, n as int);
    written_numbers_read_back(data, 0x4655_4747);
    written_numbers_read_back(data.skip(4), n as int);
}

/// A tensor that reaches beyond the end of the file is refused with its place, where it would
/// end, and where the file does.
pub proof fn tensors_beyond_the_end_are_refused(
    records: Seq<TensorRecord>,
    i: int,
    start: int,
    file_len: u64,
    from: u64,
    n: int,
    end: u64,
)
    requires
        0 <= i < records.len(),
        0 <= start,
        from == start + records[i].relative_offset,
        tensor_bytes(records[i].shape, records[i].ggml_type) == Ok::<Option<int>, Seq<char>>(
            Some(n),
        ),
        end == from + n,
        end > file_len,
        forall|j: int|
            0 <= j < records.len() ==> start + (#[trigger] records[j]).relative_offset <= u64::MAX,
        forall|j: int|
            0 <= j < records.len() && j != i ==> (#[trigger] records[j]).relative_offset
                != records[i].relative_offset,
    ensures
        layout_fault(records, i, start, file_len as int) == Some(
            Fault::TensorOutOfBounds { name: records[i].name, offset: from, end, file_len },
        ),
{
    next_offsets_are_nearest(records, records[i].relative_offset, records.len() as int);
}

/// An array is read exactly where it is nested in at most sixteen, counts itself included,
/// has a million elements at most, of a known type, and the bytes that are left can hold them.
pub proof fn arrays_that_fit_are_taken(
    ty: GgufMetadataValueType,
    count: int,
    depth: int,
    remaining: int,
)
    ensures
        array_fault(ty, count, depth, remaining) is None <==> {
            &&& depth <= 16
            &&& count <= 1_000_000
            &&& !(ty is Unknown)
            &&& count * element_minimum(ty) <= remaining
        },
        ty is String ==> element_minimum(ty) == 8,
        ty is Array ==> element_minimum(ty) == 8 + 4,
        !(ty is String || ty is Array) ==> element_minimum(ty) == scalar_width(ty),
{
}

/// A metadata entry with a value of a fixed size reads back: its key, its type tag, and its
/// value behind them.
pub proof fn written_entries_read_back(
    data: Seq<u8>,
    pos: int,
    i: int,
    key: Seq<char>,
    tag: u32,
)
    requires
        0 <= pos,
        encode_utf8(key).len() <= 1024 * 1024,
        pos + 8 + encode_utf8(key).len() + 4 + scalar_width(value_type_of_raw(tag)) <= data.len(),
        holds_number(data.skip(pos), encode_utf8(key).len() as int, 8),
        data.subrange(pos + 8, pos + 8 + encode_utf8(key).len()) == encode_utf8(key),
        holds_number(data.skip(pos + 8 + encode_utf8(key).len()), tag as int, 4),
        scalar_width(value_type_of_raw(tag)) > 0,
    ensures
        entry_end(data, pos, i) == Ok::<int, Seq<char>>(
            pos + 8 + encode_utf8(key).len() + 4 + scalar_width(value_type_of_raw(tag)),
        ),
        string_at(data, pos) == key,
        holds_value(
            scalar_value(
                value_type_of_raw(tag),
                data.skip(pos + 8 + encode_utf8(key).len() + 4),
            ),
            data,
            pos + 8 + encode_utf8(key).len(),
        ),
{
    written_texts_read_back(data, pos, key);
    let p = pos + 8 + encode_utf8(key).len();
    written_numbers_read_back(data.skip(p), tag as int);
    assert(le32(data.skip(p)) == tag);
}

/// An entry of the tensor directory reads back: its name, its dimensions, its type tag and
/// its offset, one behind the other.
pub proof fn written_directory_entries_read_back(
    data: Seq<u8>,
    pos: int,
    i: int,
    name: Seq<char>,
    shape: Seq<u64>,
    tag: u32,
    offset: u64,
)
    requires
        0 <= pos,
        encode_utf8(name).len() <= 1024 * 1024,
        shape.len() <= 4,
        pos + 8 + encode_utf8(name).len() + 4 + 8 * shape.len() + 4 + 8 <= data.len(),
        holds_number(data.skip(pos), encode_utf8(name).len() as int, 8),
        data.subrange(pos + 8, pos + 8 + encode_utf8(name).len()) == encode_utf8(name),
        ({
            let p = pos + 8 + encode_utf8(name).len();
            let q = p + 4 + 8 * shape.len();
            &&& holds_number(data.skip(p), shape.len() as int, 4)
            &&& forall|d: int|
                0 <= d < shape.len() ==> holds_number(
                    data.skip(p + 4 + 8 * d),
                    #[trigger] shape[d] as int,
                    8,
                )
            &&& holds_number(data.skip(q), tag as int, 4)
            &&& holds_number(data.skip(q + 4), offset as int, 8)
        }),
    ensures
        record_end(data, pos, i) == Ok::<int, Seq<char>>(
            pos + 8 + encode_utf8(name).len() + 4 + 8 * shape.len() + 4 + 8,
        ),
        record_at(data, pos) == (TensorRecord {
            name,
            shape,
            ggml_type: type_of_raw(tag),
            relative_offset: offset,
        }),
{
    written_texts_read_back(data, pos, name);
    let p = pos + 8 + encode_utf8(name).len();
    let q = p + 4 + 8 * shape.len();
    written_numbers_read_back(data.skip(p), shape.len() as int);
    assert(le32(data.skip(p)) == shape.len());
    written_numbers_read_back(data.skip(q), tag as int);
    written_numbers_read_back(data.skip(q + 4), offset as int);
    assert forall|d: int| 0 <= d < shape.len() implies le64(data.skip(p + 4 + 8 * d))
        == #[trigger] shape[d] by {
        written_numbers_read_back(data.skip(p + 4 + 8 * d), shape[d] as int);
    }
    assert(record_at(data, pos).shape =~= shape);
}

/// Which tag stands for which type, for the types that are computed with.
pub proof fn types_have_their_tags(tag: u32)
    ensures
        type_of_raw(tag) == GgmlType::F32 <==> tag == 0,
        type_of_raw(tag) == GgmlType::F16 <==> tag == 1,
        type_of_raw(tag) == GgmlType::Q4_0 <==> tag == 2,
        type_of_raw(tag) == GgmlType::Q8_0 <==> tag == 8,
        type_of_raw(tag) == GgmlType::Q4K <==> tag == 12,
        type_of_raw(tag) == GgmlType::Q6K <==> tag == 14,
        type_of_raw(tag) == GgmlType::BitNetI2S <==> tag == 36,
{
}

/// What a tensor of known size takes of a file: an I2_S tensor has a scale block of 32 bytes
/// behind it.
pub open spec fn footprint(r: TensorRecord) -> int {
    tensor_bytes(r.shape, r.ggml_type)->Ok_0->0 + if r.ggml_type == GgmlType::BitNetI2S {
        32int
    } else {
        0int
    }
}

/// A tensor has its place exactly where its size is known, no other starts where it does, and
/// all that it takes lies within the file and in front of whatever starts behind it.
pub proof fn tensors_with_room_are_placed(
    records: Seq<TensorRecord>,
    i: int,
    start: int,
    file_len: int,
)
    requires
        0 <= i < records.len(),
        0 <= start,
        0 <= file_len <= u64::MAX,
        forall|j: int|
            0 <= j < records.len() ==> start + (#[trigger] records[j]).relative_offset <= u64::MAX,
    ensures
        layout_fault(records, i, start, file_len) is None <==> {
            let r = records[i];
            &&& tensor_bytes(r.shape, r.ggml_type) matches Ok(Some(n))
            &&& forall|j: int|
                0 <= j < records.len() && j != i ==> (#[trigger] records[j]).relative_offset
                    != r.relative_offset
            &&& start + r.relative_offset + footprint(r) <= file_len
            &&& forall|j: int|
                0 <= j < records.len() && (#[trigger] records[j]).relative_offset
                    > r.relative_offset ==> r.relative_offset + footprint(r)
                    <= records[j].relative_offset
        },
{
    next_offsets_are_nearest(records, records[i].relative_offset, records.len() as int);
}

/// Every tensor of a file has its place where none is refused one.
pub proof fn all_tensors_are_placed(
    records: Seq<TensorRecord>,
    n: int,
    start: int,
    file_len: int,
)
    requires
        0 <= n <= records.len(),
    ensures
        layouts_fault(records, n, start, file_len) is None <==> forall|i: int|
            0 <= i < n ==> #[trigger] layout_fault(records, i, start, file_len) is None,
    decreases n,
{
    if n > 0 {
        all_tensors_are_placed(records, n - 1, start, file_len);
    }
}

/// A tensor of floating-point numbers or of I2_S weights has the bytes that its shape needs:
/// four, two, or a quarter of one for each.
pub proof fn lengths_follow_the_shape(t: TensorView<'_>)
    ensures
        t.ggml_type == GgmlType::F32 ==> (byte_len_fault(t) is None <==> t.byte_len == product(
            t.shape@,
        ) * 4),
        t.ggml_type == GgmlType::F16 ==> (byte_len_fault(t) is None <==> t.byte_len == product(
            t.shape@,
        ) * 2),
        t.ggml_type == GgmlType::BitNetI2S ==> (byte_len_fault(t) is None <==> product(t.shape@)
            % 128 == 0 && t.byte_len * 4 == product(t.shape@)),
        t.ggml_type != GgmlType::F32 && t.ggml_type != GgmlType::F16 && t.ggml_type
            != GgmlType::BitNetI2S ==> byte_len_fault(t) is None,
{
}

/// A scale is read exactly from an I2_S tensor whose scale block starts with a finite number.
pub proof fn scales_are_finite_numbers(t: TensorView<'_>)
    ensures
        i2s_scale_fault(t) is None <==> {
            &&& t.ggml_type == GgmlType::BitNetI2S
            &&& t.scale_data matches Some(s) && s@.len() >= 4 && finite_bits(le32(s@) as u32)
        },
{
}

proof fn lemma_finite_elements(data: Seq<u8>, n: int)
    requires
        0 <= n,
    ensures
        match non_finite_element(data, n) {
            Some(i) => 0 <= i < n && !finite_half(le16(data.skip(2 * i)) as u16)
                && non_finite_element(data, i) is None,
            None => forall|i: int|
                0 <= i < n ==> finite_half(le16(#[trigger] data.skip(2 * i)) as u16),
        },
    decreases n,
{
    if n > 0 {
        lemma_finite_elements(data, n - 1);
        let h = le16(data.skip(2 * (n - 1))) as u16;
        widening_keeps_the_number(h);
    }
}

/// Embeddings are stored in Q6_K exactly where they are half-precision numbers, all finite,
/// in rows of whole blocks of 256.
pub proof fn finite_embeddings_are_stored(t: TensorView<'_>)
    requires
        products_fit(t.shape@),
        product(t.shape@) / 256 * 210 <= u64::MAX,
    ensures
        embedding_fault(t) is None <==> {
            &&& t.ggml_type == GgmlType::F16
            &&& t.shape@.len() == 2
            &&& t.shape@[0] > 0
            &&& t.shape@[0] == 256 * (t.shape@[0] / 256)
            &&& forall|i: int|
                0 <= i < t.data@.len() as int / 2 ==> finite_half(
                    le16(#[trigger] t.data@.skip(2 * i)) as u16,
                )
        },
{
    lemma_finite_elements(t.data@, t.data@.len() as int / 2);
}

/// A stretch is cut out of a file exactly where it does not end before it starts and lies
/// within the file; numbers are written where they lie within the header.
pub proof fn stretches_within_are_taken(
    len: int,
    start: u64,
    end: u64,
    offset: int,
    width: int,
    what: Seq<char>,
)
    requires
        0 <= len <= usize::MAX,
        0 <= width,
    ensures
        slice_fault(len, start, end) is None <==> start <= end && end <= len,
        patch_fault(len, offset, width, what) is None <==> offset + width <= len,
        rows_fault(start) is None <==> 2 * start <= usize::MAX,
{
}

/// Only the embeddings change in a new layout. Every other tensor keeps its type and its
/// bytes, and the embeddings take 210 bytes for each 256 of their numbers.
pub proof fn only_the_embeddings_change(
    file: GgufFile<'_>,
    source_len: int,
    order: Seq<usize>,
    p: int,
)
    requires
        0 <= p < order.len(),
        order[p] < file.tensors@.len(),
        lookup(file.tensors@, "token_embd.weight"@) is Some,
    ensures
        ({
            let r = relink_of(file, source_len, order);
            let t = file.tensors@[order[p] as int];
            let first = lookup(file.tensors@, "token_embd.weight"@)->0;
            &&& file.tensors@[first].name@ == "token_embd.weight"@
            &&& r.at(p).name == t.name@ && r.at(p).offset == t.offset && r.at(p).len == t.byte_len
            &&& t.name@ != "token_embd.weight"@ ==> {
                &&& r.output_type(p) == t.ggml_type
                &&& r.primary(p) == t.byte_len
                &&& r.action(p) == crate::gguf::relink::TensorAction::Copy
            }
            &&& order[p] == first ==> {
                &&& r.output_type(p) == GgmlType::Q6K
                &&& product(t.shape@) % 256 == 0 ==> r.primary(p) * 256 == product(t.shape@) * 210
                &&& r.action(p) == crate::gguf::relink::TensorAction::QuantizeF16ToQ6K
            }
        }),
{
    tensors_are_found_by_name(file.tensors@, "token_embd.weight"@, file.tensors@.len() as int);
}

/// A file is taken exactly where its header is, its metadata and its directory can be read,
/// its alignment is a power of two, its data starts within it if there is any, and each of
/// its tensors has its place.
pub proof fn files_that_fit_are_taken(data: Seq<u8>)
    requires
        data.len() <= u64::MAX,
    ensures
        file_fault(data) is None <==> {
            let p = entries_end(data, 24, kv_count_of(data));
            let n = tensor_count_of(data);
            &&& header_fault(data) is None
            &&& p is Ok
            &&& power_of_two(alignment_of(data))
            &&& n * 24 <= data.len() - p->Ok_0
            &&& records_end(data, p->Ok_0, n) is Ok
            &&& section_start(data) <= u64::MAX
            &&& n == 0 || section_start(data) <= data.len()
            &&& forall|i: int|
                0 <= i < n ==> #[trigger] layout_fault(
                    directory_of(data),
                    i,
                    section_start(data),
                    data.len() as int,
                ) is None
        },
{
    if header_fault(data) is None && entries_end(data, 24, kv_count_of(data)) is Ok {
        crate::gguf::value::lemma_le_bounds(data.skip(8));
        all_tensors_are_placed(
            directory_of(data),
            tensor_count_of(data),
            section_start(data),
            data.len() as int,
        );
    }
}

/// The dimensions of a shape are multiplied exactly where neither the product of all of them
/// nor that of the first few leaves 64 bits.
pub proof fn products_of_64_bits_are_taken(shape: Seq<u64>)
    ensures
        product_fault(shape) is None <==> forall|k: int|
            0 < k <= shape.len() ==> product(#[trigger] shape.take(k)) <= u64::MAX,
        products_fit(shape) <==> product_fault(shape) is None,
    decreases shape.len(),
{
    let n = shape.len() as int;
    if n > 0 {
        let front = shape.drop_last();
        products_of_64_bits_are_taken(front);
        assert(shape.take(n) =~= shape);
        assert forall|k: int| 0 < k < n implies #[trigger] shape.take(k) == front.take(k) by {
            assert(shape.take(k) =~= front.take(k));
        }
        if product_fault(front) is Some {
            let k = choose|k: int|
                0 < k <= front.len() && product(#[trigger] front.take(k)) > u64::MAX;
            assert(shape.take(k) == front.take(k));
        }
    }
}

} // verus!
