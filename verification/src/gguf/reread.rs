//! An artifact is a file that can be read again, with the same tensors in it.

use crate::gguf::artifact::{
    artifact_bytes, body, is_planned, le_bytes4, le_bytes8, lemma_le_bytes4,
    lemma_output_bounds, lemma_place_in_header, lemma_prefix_reads, lemma_records_grow, lemma_relabelled_len,
    overwritten, relabelled, slot_bytes, slots_reach_their_places, zeros,
};
use crate::gguf::bytes::{le32, le64, string_end};
use crate::gguf::laws::{
    alignment_reaches_the_next_multiple, data_section_is_aligned, lemma_directory_bounds,
    lemma_outer_advance, lemma_record_advances, lemma_records_advance, lemma_string_advances,
    lemma_usable, tensors_lie_apart, tensors_lie_in_the_file,
};
use crate::gguf::layout::{
    alignment_of, directory_of, directory_start, dtype_place, entries_end, file_fault, header_fault,
    kv_count_of, layout_fault, layouts_fault, next_above, record_at, records_end, section_start,
    tensor_bytes, tensor_count_of, tensor_len, tensor_start, TensorRecord,
};
use crate::gguf::linker::{
    embedding_fault, is_order, lemma_relink_in_order, profile_fault, relink_of,
};
use crate::gguf::locality::{
    lemma_alignment_local, lemma_entries_local, lemma_fewer_entries, lemma_le32_local,
    lemma_le64_local, lemma_record_local, same_between,
};
use crate::gguf::reader::{is_tensor_of, locates, GgufFile, TensorDescriptorLocation};
use crate::gguf::relink::{
    slots_are_aligned_and_apart, slots_hold_their_tensors, PlannedTensor, Relink,
};
use crate::gguf::tensor::{block_bytes, block_fault, product};
use crate::gguf::types::{
    raw_of_type, raw_survives_round_trip, type_survives_round_trip, value_type_of_raw, GgmlType,
    GgufMetadataValueType,
};
use crate::gguf::value::{lemma_le_bounds, value_end};
use vstd::prelude::*;

verus! {

/// The twelve bytes of a type tag and an offset.
spec fn label(raw: u32, offset: u64) -> Seq<u8> {
    le_bytes4(raw as int) + le_bytes8(offset as int)
}

/// No two planned tensors write to the same bytes of the header.
spec fn labels_apart(
    planned: Seq<PlannedTensor>,
    places: Seq<TensorDescriptorLocation>,
    len: int,
) -> bool {
    &&& forall|p: int|
        #![trigger planned[p]]
        0 <= p < planned.len() ==> {
            let at = places[planned[p].source_index as int];
            at.dtype_offset + 12 <= len && at.relative_offset_offset == at.dtype_offset + 4
        }
    &&& forall|p: int, q: int|
        #![trigger planned[p], planned[q]]
        0 <= p < q < planned.len() ==> {
            let a = places[planned[p].source_index as int].dtype_offset;
            let b = places[planned[q].source_index as int].dtype_offset;
            a + 12 <= b || b + 12 <= a
        }
}

/// A byte of the header that none of the first `n` tensors writes to.
spec fn untouched(
    planned: Seq<PlannedTensor>,
    places: Seq<TensorDescriptorLocation>,
    n: int,
    x: int,
) -> bool {
    forall|p: int|
        #![trigger planned[p]]
        0 <= p < n ==> {
            let at = places[planned[p].source_index as int].dtype_offset;
            x < at || at + 12 <= x
        }
}

/// Relabelling leaves alone what no tensor writes to.
proof fn lemma_relabelled_elsewhere(
    header: Seq<u8>,
    planned: Seq<PlannedTensor>,
    places: Seq<TensorDescriptorLocation>,
    n: int,
    x: int,
)
    requires
        0 <= n <= planned.len(),
        0 <= x < header.len(),
        labels_apart(planned, places, header.len() as int),
        untouched(planned, places, n, x),
    ensures
        relabelled(header, planned, places, n)[x] == header[x],
    decreases n,
{
    if n > 0 {
        lemma_relabelled_elsewhere(header, planned, places, n - 1, x);
        lemma_relabelled_len(header, planned, places, n - 1);
        let t = planned[n - 1];
        let at = places[t.source_index as int];
        assert(x < at.dtype_offset || at.dtype_offset + 12 <= x);
        assert(le_bytes8(t.output_relative_offset as int).len() == 8);
    }
}

/// A tensor finds its type tag and its offset where it wrote them.
proof fn lemma_relabelled_at(
    header: Seq<u8>,
    planned: Seq<PlannedTensor>,
    places: Seq<TensorDescriptorLocation>,
    n: int,
    p: int,
    k: int,
)
    requires
        0 <= p < n <= planned.len(),
        0 <= k < 12,
        labels_apart(planned, places, header.len() as int),
    ensures
        relabelled(header, planned, places, n)[places[planned[p].source_index as int].dtype_offset
            + k] == label(raw_of_type(planned[p].output_type), planned[p].output_relative_offset)[k],
    decreases n,
{
    lemma_relabelled_len(header, planned, places, n - 1);
    let t = planned[n - 1];
    let at = places[t.source_index as int];
    let x = places[planned[p].source_index as int].dtype_offset + k;
    let four = le_bytes4(raw_of_type(t.output_type) as int);
    let eight = le_bytes8(t.output_relative_offset as int);
    assert(four.len() == 4 && eight.len() == 8);
    if p < n - 1 {
        lemma_relabelled_at(header, planned, places, n - 1, p, k);
        assert(planned[p].source_index == planned[p].source_index && t.source_index
            == planned[n - 1].source_index);
        assert(x < at.dtype_offset || at.dtype_offset + 12 <= x);
    } else {
        let before = relabelled(header, planned, places, n - 1);
        let first = overwritten(before, at.dtype_offset as int, four);
        assert(at.relative_offset_offset == at.dtype_offset + 4);
        if k < 4 {
            assert(first[x] == four[k]);
        }
    }
}

/// What a plan says, and that it can be carried out.
#[verifier::opaque]
pub open spec fn is_link(
    file: GgufFile<'_>,
    source: Seq<u8>,
    order: Seq<usize>,
    planned: Seq<PlannedTensor>,
) -> bool {
    &&& file_fault(source) is None
    &&& file.describes(source)
    &&& source.len() <= u64::MAX
    &&& is_order(order, file.tensors@)
    &&& profile_fault(file) is None
    &&& relink_of(file, source.len() as int, order).fault() is None
    &&& is_planned(planned, file, source.len() as int, order)
}

/// A plan has a tensor to change, and its layout is sound.
proof fn lemma_link(
    file: GgufFile<'_>,
    source: Seq<u8>,
    order: Seq<usize>,
    planned: Seq<PlannedTensor>,
)
    requires
        is_link(file, source, order, planned),
    ensures
        relink_of(file, source.len() as int, order).wf(),
        0 <= relink_of(file, source.len() as int, order).chosen < file.tensors@.len(),
        embedding_fault(
            file.tensors@[relink_of(file, source.len() as int, order).chosen],
        ) is None,
        tensor_count_of(source) > 0,
{
    reveal(is_link);
    let r = relink_of(file, source.len() as int, order);
    crate::model::graph::lemma_lookup_in_bounds(file.tensors@, "token_embd.weight"@);
    crate::gguf::tensor::lemma_product_nonneg(file.tensors@[r.chosen].shape@);
    assert(r.chosen_bytes >= 0);
    lemma_relink_in_order(file, source, order);
}

/// Entries of the directory lie one behind the other.
proof fn lemma_entries_apart(data: Seq<u8>, i: int, j: int)
    requires
        file_fault(data) is None,
        0 <= i < j < tensor_count_of(data),
    ensures
        dtype_place(data, records_end(data, directory_start(data), i)->Ok_0) + 12
            == records_end(data, directory_start(data), i + 1)->Ok_0,
        records_end(data, directory_start(data), i + 1)->Ok_0 <= records_end(
            data,
            directory_start(data),
            j,
        )->Ok_0,
        records_end(data, directory_start(data), j)->Ok_0 + 12 <= dtype_place(
            data,
            records_end(data, directory_start(data), j)->Ok_0,
        ),
{
    let d = directory_start(data);
    let n = tensor_count_of(data);
    lemma_directory_bounds(data);
    lemma_prefix_reads(data, d, j + 1, n);
    lemma_prefix_reads(data, d, j, j + 1);
    lemma_prefix_reads(data, d, i + 1, j);
    lemma_prefix_reads(data, d, i, i + 1);
    lemma_records_grow(data, d, i + 1, j);
    lemma_records_advance(data, d, i);
    lemma_records_advance(data, d, j);
    lemma_record_advances(data, records_end(data, d, i)->Ok_0, i);
    lemma_record_advances(data, records_end(data, d, j)->Ok_0, j);
}

/// Where the type tag of the tensor in a place of the plan stands.
proof fn lemma_label_place(
    file: GgufFile<'_>,
    source: Seq<u8>,
    order: Seq<usize>,
    planned: Seq<PlannedTensor>,
    p: int,
)
    requires
        is_link(file, source, order, planned),
        0 <= p < planned.len(),
    ensures
        planned[p].source_index == order[p],
        order[p] < tensor_count_of(source),
        file.tensor_descriptors@[order[p] as int].dtype_offset == dtype_place(
            source,
            records_end(source, directory_start(source), order[p] as int)->Ok_0,
        ),
        file.tensor_descriptors@[order[p] as int].relative_offset_offset
            == file.tensor_descriptors@[order[p] as int].dtype_offset + 4,
        file.tensor_descriptors@[order[p] as int].dtype_offset + 12 <= section_start(source),
{
    reveal(is_link);
    let i = order[p] as int;
    assert(relink_of(file, source.len() as int, order).plans(planned[p], p));
    assert(i < file.tensors@.len());
    assert(locates(file.tensor_descriptors@[i], source, directory_start(source), i));
    lemma_place_in_header(source, i);
}

/// Two places of the plan have different tensors.
#[verifier::spinoff_prover]
proof fn lemma_places_differ(
    file: GgufFile<'_>,
    source: Seq<u8>,
    order: Seq<usize>,
    planned: Seq<PlannedTensor>,
    p: int,
    q: int,
)
    requires
        is_link(file, source, order, planned),
        0 <= p < q < planned.len(),
    ensures
        file_fault(source) is None,
        order[p] != order[q],
{
    reveal(is_link);
    assert(file.tensors@[order[p] as int].offset < file.tensors@[order[q] as int].offset);
}

/// The labels of two places of the plan do not touch each other.
#[verifier::spinoff_prover]
proof fn lemma_two_labels(
    file: GgufFile<'_>,
    source: Seq<u8>,
    order: Seq<usize>,
    planned: Seq<PlannedTensor>,
    p: int,
    q: int,
)
    requires
        is_link(file, source, order, planned),
        0 <= p < q < planned.len(),
    ensures
        ({
            let a = file.tensor_descriptors@[planned[p].source_index as int].dtype_offset;
            let b = file.tensor_descriptors@[planned[q].source_index as int].dtype_offset;
            a + 12 <= b || b + 12 <= a
        }),
{
    lemma_label_place(file, source, order, planned, p);
    lemma_label_place(file, source, order, planned, q);
    lemma_places_differ(file, source, order, planned, p, q);
    if order[p] < order[q] {
        lemma_entries_apart(source, order[p] as int, order[q] as int);
    } else {
        lemma_entries_apart(source, order[q] as int, order[p] as int);
    }
}

/// The labels that a plan writes do not touch each other.
proof fn lemma_labels_apart(
    file: GgufFile<'_>,
    source: Seq<u8>,
    order: Seq<usize>,
    planned: Seq<PlannedTensor>,
)
    requires
        is_link(file, source, order, planned),
    ensures
        labels_apart(planned, file.tensor_descriptors@, section_start(source)),
{
    let places = file.tensor_descriptors@;
    assert forall|p: int| #![trigger planned[p]] 0 <= p < planned.len() implies {
        let at = places[planned[p].source_index as int];
        at.dtype_offset + 12 <= section_start(source) && at.relative_offset_offset
            == at.dtype_offset + 4
    } by {
        lemma_label_place(file, source, order, planned, p);
    }
    assert forall|p: int, q: int|
        #![trigger planned[p], planned[q]]
        0 <= p < q < planned.len() implies {
        let a = places[planned[p].source_index as int].dtype_offset;
        let b = places[planned[q].source_index as int].dtype_offset;
        a + 12 <= b || b + 12 <= a
    } by {
        lemma_two_labels(file, source, order, planned, p, q);
    }
}

/// A byte of the header outside all labels is that of the source.
proof fn lemma_header_unchanged(
    file: GgufFile<'_>,
    source: Seq<u8>,
    order: Seq<usize>,
    planned: Seq<PlannedTensor>,
    quantized: Seq<u8>,
    x: int,
)
    requires
        is_link(file, source, order, planned),
        0 <= x < section_start(source),
        forall|i: int|
            #![trigger file.tensor_descriptors@[i]]
            0 <= i < tensor_count_of(source) ==> {
                let at = file.tensor_descriptors@[i].dtype_offset;
                x < at || at + 12 <= x
            },
    ensures
        artifact_bytes(file, source, order, planned, quantized)[x] == source[x],
{
    reveal(is_link);
    let r = relink_of(file, source.len() as int, order);
    let places = file.tensor_descriptors@;
    let header = source.take(section_start(source));
    lemma_link(file, source, order, planned);
    lemma_place_in_header(source, 0);
    lemma_labels_apart(file, source, order, planned);
    assert(untouched(planned, places, planned.len() as int, x)) by {
        assert forall|p: int| #![trigger planned[p]] 0 <= p < planned.len() implies {
            let at = places[planned[p].source_index as int].dtype_offset;
            x < at || at + 12 <= x
        } by {
            assert(r.plans(planned[p], p));
            assert(order[p] < file.tensors@.len());
            assert(places[order[p] as int].dtype_offset >= 0);
        }
    }
    lemma_relabelled_elsewhere(header, planned, places, planned.len() as int, x);
    lemma_relabelled_len(header, planned, places, planned.len() as int);
}

/// The metadata is that of the source.
proof fn lemma_unchanged(
    file: GgufFile<'_>,
    source: Seq<u8>,
    order: Seq<usize>,
    planned: Seq<PlannedTensor>,
    quantized: Seq<u8>,
)
    requires
        is_link(file, source, order, planned),
    ensures
        same_between(
            source,
            artifact_bytes(file, source, order, planned, quantized),
            0,
            directory_start(source),
        ),
        artifact_bytes(file, source, order, planned, quantized).len() >= section_start(source),
        0 <= directory_start(source),
{
    reveal(is_link);
    let out = artifact_bytes(file, source, order, planned, quantized);
    let d = directory_start(source);
    let n = tensor_count_of(source);
    let places = file.tensor_descriptors@;
    lemma_link(file, source, order, planned);
    lemma_directory_bounds(source);
    lemma_place_in_header(source, 0);
    lemma_relabelled_len(
        source.take(section_start(source)),
        planned,
        places,
        planned.len() as int,
    );
    assert forall|x: int| #![trigger out[x]] 0 <= x < d implies source[x] == out[x] by {
        assert forall|i: int| #![trigger places[i]] 0 <= i < n implies {
            let at = places[i].dtype_offset;
            x < at || at + 12 <= x
        } by {
            assert(locates(places[i], source, d, i));
            lemma_prefix_reads(source, d, i + 1, n);
            lemma_prefix_reads(source, d, i, i + 1);
            lemma_records_advance(source, d, i);
            lemma_record_advances(source, records_end(source, d, i)->Ok_0, i);
        }
        lemma_header_unchanged(file, source, order, planned, quantized, x);
    }
}

/// The name and the shape of a directory entry are those of the source.
proof fn lemma_record_unchanged(
    file: GgufFile<'_>,
    source: Seq<u8>,
    order: Seq<usize>,
    planned: Seq<PlannedTensor>,
    quantized: Seq<u8>,
    i: int,
)
    requires
        is_link(file, source, order, planned),
        0 <= i < tensor_count_of(source),
    ensures
        same_between(
            source,
            artifact_bytes(file, source, order, planned, quantized),
            records_end(source, directory_start(source), i)->Ok_0,
            dtype_place(source, records_end(source, directory_start(source), i)->Ok_0),
        ),
        artifact_bytes(file, source, order, planned, quantized).len() >= section_start(source),
{
    reveal(is_link);
    let out = artifact_bytes(file, source, order, planned, quantized);
    let d = directory_start(source);
    let n = tensor_count_of(source);
    let places = file.tensor_descriptors@;
    let from = records_end(source, d, i)->Ok_0;
    let to = dtype_place(source, from);
    lemma_unchanged(file, source, order, planned, quantized);
    lemma_directory_bounds(source);
    lemma_place_in_header(source, i);
    lemma_prefix_reads(source, d, i + 1, n);
    lemma_prefix_reads(source, d, i, i + 1);
    lemma_records_advance(source, d, i);
    lemma_record_advances(source, from, i);
    assert forall|x: int| #![trigger out[x]] from <= x < to implies source[x] == out[x] by {
        assert forall|j: int| #![trigger places[j]] 0 <= j < n implies {
            let at = places[j].dtype_offset;
            x < at || at + 12 <= x
        } by {
            assert(locates(places[j], source, d, j));
            if i < j {
                lemma_entries_apart(source, i, j);
            } else if j < i {
                lemma_entries_apart(source, j, i);
            }
        }
        lemma_header_unchanged(file, source, order, planned, quantized, x);
    }
}

/// The directory of the artifact ends where that of the source does.
proof fn lemma_records_kept(
    file: GgufFile<'_>,
    source: Seq<u8>,
    order: Seq<usize>,
    planned: Seq<PlannedTensor>,
    quantized: Seq<u8>,
    n: int,
)
    requires
        is_link(file, source, order, planned),
        0 <= n <= tensor_count_of(source),
    ensures
        records_end(source, directory_start(source), n) is Ok,
        records_end(
            artifact_bytes(file, source, order, planned, quantized),
            directory_start(source),
            n,
        ) == records_end(source, directory_start(source), n),
    decreases n,
{
    reveal(is_link);
    let out = artifact_bytes(file, source, order, planned, quantized);
    let d = directory_start(source);
    lemma_prefix_reads(source, d, n, tensor_count_of(source));
    if n > 0 {
        lemma_records_kept(file, source, order, planned, quantized, n - 1);
        lemma_record_unchanged(file, source, order, planned, quantized, n - 1);
        lemma_directory_bounds(source);
        lemma_place_in_header(source, n - 1);
        let p = records_end(source, d, n - 1)->Ok_0;
        lemma_records_advance(source, d, n - 1);
        lemma_record_advances(source, p, n - 1);
        lemma_record_local(source, out, p, n - 1);
    }
}

/// A label reads back as its type tag and its offset.
proof fn lemma_label_reads(out: Seq<u8>, place: int, raw: u32, offset: u64)
    requires
        0 <= place,
        place + 12 <= out.len(),
        forall|k: int| 0 <= k < 12 ==> #[trigger] out[place + k] == label(raw, offset)[k],
    ensures
        le32(out.skip(place)) == raw,
        le64(out.skip(place + 4)) == offset,
{
    let bytes = label(raw, offset);
    let tag = out.skip(place);
    let off = out.skip(place + 4);
    lemma_le_bytes4(raw as int);
    assert(tag[0] == out[place + 0] && tag[1] == out[place + 1] && tag[2] == out[place + 2]
        && tag[3] == out[place + 3]);
    let low = offset as int % 0x1_0000_0000;
    let high = offset as int / 0x1_0000_0000;
    lemma_le_bytes4(low);
    lemma_le_bytes4(high);
    assert(off[0] == out[place + 4] && off[1] == out[place + 5] && off[2] == out[place + 6]
        && off[3] == out[place + 7]);
    let rest = off.skip(4);
    assert(rest[0] == out[place + 8] && rest[1] == out[place + 9] && rest[2] == out[place + 10]
        && rest[3] == out[place + 11]);
    assert(bytes[4] == le_bytes4(low)[0] && bytes[8] == le_bytes4(high)[0]);
}

/// The type tag and the offset of a tensor in the artifact are those of the
/// plan.
proof fn lemma_label_kept(
    file: GgufFile<'_>,
    source: Seq<u8>,
    order: Seq<usize>,
    planned: Seq<PlannedTensor>,
    quantized: Seq<u8>,
    p: int,
)
    requires
        is_link(file, source, order, planned),
        0 <= p < planned.len(),
    ensures
        ({
            let out = artifact_bytes(file, source, order, planned, quantized);
            let at = records_end(source, directory_start(source), order[p] as int)->Ok_0;
            let place = dtype_place(source, at);
            &&& le32(out.skip(place)) == raw_of_type(planned[p].output_type)
            &&& le64(out.skip(place + 4)) == planned[p].output_relative_offset
        }),
{
    reveal(is_link);
    let out = artifact_bytes(file, source, order, planned, quantized);
    let places = file.tensor_descriptors@;
    let header = source.take(section_start(source));
    let m = planned.len() as int;
    let t = planned[p];
    lemma_label_place(file, source, order, planned, p);
    let place = places[order[p] as int].dtype_offset as int;
    lemma_place_in_header(source, order[p] as int);
    lemma_labels_apart(file, source, order, planned);
    lemma_relabelled_len(header, planned, places, m);
    let raw = raw_of_type(t.output_type);
    assert forall|k: int| 0 <= k < 12 implies #[trigger] out[place + k] == label(
        raw,
        t.output_relative_offset,
    )[k] by {
        lemma_relabelled_at(header, planned, places, m, p, k);
    }
    lemma_label_reads(out, place, raw, t.output_relative_offset);
}

/// A directory entry of the artifact: the name and the shape of the source, the
/// type and the offset of the plan.
proof fn lemma_record_kept(
    file: GgufFile<'_>,
    source: Seq<u8>,
    order: Seq<usize>,
    planned: Seq<PlannedTensor>,
    quantized: Seq<u8>,
    p: int,
)
    requires
        is_link(file, source, order, planned),
        0 <= p < planned.len(),
    ensures
        ({
            let out = artifact_bytes(file, source, order, planned, quantized);
            let i = order[p] as int;
            let at = records_end(source, directory_start(source), i)->Ok_0;
            &&& record_at(out, at).name == record_at(source, at).name
            &&& record_at(out, at).shape == record_at(source, at).shape
            &&& record_at(out, at).ggml_type == planned[p].output_type
            &&& record_at(out, at).relative_offset == planned[p].output_relative_offset
        }),
{
    reveal(is_link);
    let out = artifact_bytes(file, source, order, planned, quantized);
    let i = order[p] as int;
    let d = directory_start(source);
    let at = records_end(source, d, i)->Ok_0;
    lemma_label_place(file, source, order, planned, p);
    lemma_record_unchanged(file, source, order, planned, quantized, i);
    lemma_place_in_header(source, i);
    lemma_prefix_reads(source, d, i + 1, tensor_count_of(source));
    lemma_prefix_reads(source, d, i, i + 1);
    lemma_directory_bounds(source);
    lemma_records_advance(source, d, i);
    lemma_record_advances(source, at, i);
    lemma_record_local(source, out, at, i);
    lemma_label_kept(file, source, order, planned, quantized, p);
    lemma_output_type(file, source, order, planned, p);
    type_survives_round_trip(planned[p].output_type);
}

/// The type of a tensor in the plan is one that its tag names.
proof fn lemma_output_type(
    file: GgufFile<'_>,
    source: Seq<u8>,
    order: Seq<usize>,
    planned: Seq<PlannedTensor>,
    p: int,
)
    requires
        is_link(file, source, order, planned),
        0 <= p < planned.len(),
    ensures
        crate::gguf::types::is_canonical(planned[p].output_type),
{
    reveal(is_link);
    let i = order[p] as int;
    let at = records_end(source, directory_start(source), i)->Ok_0;
    assert(relink_of(file, source.len() as int, order).plans(planned[p], p));
    assert(i < file.tensors@.len());
    assert(is_tensor_of(file.tensors@[i], source, i));
    raw_survives_round_trip(le32(source.skip(dtype_place(source, at))) as u32);
}

/// Every tensor has a place in the plan.
proof fn lemma_has_place(file: GgufFile<'_>, order: Seq<usize>, i: int) -> (p: int)
    requires
        is_order(order, file.tensors@),
        0 <= i < file.tensors@.len(),
        file.tensors@.len() <= usize::MAX,
    ensures
        0 <= p < order.len(),
        order[p] == i,
{
    assert(order.contains(i as usize));
    choose|p: int| 0 <= p < order.len() && order[p] == i as usize
}

/// A slot that is not the last one holds something.
#[verifier::spinoff_prover]
#[verifier::rlimit(50)]
proof fn lemma_slot_holds(
    file: GgufFile<'_>,
    source: Seq<u8>,
    order: Seq<usize>,
    planned: Seq<PlannedTensor>,
    p: int,
)
    requires
        is_link(file, source, order, planned),
        0 <= p < order.len() - 1,
    ensures
        ({
            let r = relink_of(file, source.len() as int, order);
            r.primary(p) + r.suffix(p) > 0
        }),
{
    reveal(is_link);
    lemma_link(file, source, order, planned);
    let r = relink_of(file, source.len() as int, order);
    slots_hold_their_tensors(r, p);
    assert(r.at(p).offset < r.at(p + 1).offset);
    if r.order[p] == r.chosen {
        let t = file.tensors@[r.chosen];
        assert(is_tensor_of(t, source, r.chosen));
        lemma_usable(source, r.chosen);
        if r.at(p).len > 0 {
            lemma_embedding_size(t.shape@);
        }
    }
}

/// Embeddings that take space take space in Q6_K too.
proof fn lemma_embedding_size(shape: Seq<u64>)
    requires
        shape.len() == 2,
        block_fault(shape, 256, 210, "Q6_K"@) is None,
        product(shape) > 0,
    ensures
        block_bytes(shape, 256, 210) > 0,
{
    reveal_with_fuel(product, 3);
    let a = shape[0] as int;
    let b = shape[1] as int;
    assert(shape.drop_last().drop_last() =~= Seq::empty());
    assert(product(shape) == a * b) by {
        assert(shape.drop_last()[0] == shape[0]);
    }
    assert(a * b >= 256) by (nonlinear_arith)
        requires
            a * b > 0,
            a >= 0,
            b >= 0,
            a % 256 == 0,
    ;
}

/// Later slots start behind earlier ones.
proof fn lemma_places_rise(
    file: GgufFile<'_>,
    source: Seq<u8>,
    order: Seq<usize>,
    planned: Seq<PlannedTensor>,
    p: int,
    q: int,
)
    requires
        is_link(file, source, order, planned),
        0 <= p < q < order.len(),
    ensures
        ({
            let r = relink_of(file, source.len() as int, order);
            r.place(p) < r.place(q) && r.place(p) + r.primary(p) + r.suffix(p) <= r.place(q)
        }),
    decreases q,
{
    lemma_link(file, source, order, planned);
    let r = relink_of(file, source.len() as int, order);
    slots_are_aligned_and_apart(r, q - 1);
    lemma_slot_holds(file, source, order, planned, q - 1);
    if p < q - 1 {
        lemma_places_rise(file, source, order, planned, p, q - 1);
    }
}

/// The size of an artifact.
proof fn lemma_artifact_len(
    file: GgufFile<'_>,
    source: Seq<u8>,
    order: Seq<usize>,
    planned: Seq<PlannedTensor>,
    quantized: Seq<u8>,
)
    requires
        is_link(file, source, order, planned),
        quantized.len() == relink_of(file, source.len() as int, order).chosen_bytes,
    ensures
        artifact_bytes(file, source, order, planned, quantized).len() == relink_of(
            file,
            source.len() as int,
            order,
        ).output_len(),
        relink_of(file, source.len() as int, order).start == section_start(source),
{
    reveal(is_link);
    lemma_link(file, source, order, planned);
    lemma_place_in_header(source, 0);
    let r = relink_of(file, source.len() as int, order);
    slots_reach_their_places(r, order.len() as int, source, quantized);
    lemma_relabelled_len(
        source.take(section_start(source)),
        planned,
        file.tensor_descriptors@,
        planned.len() as int,
    );
}

/// The artifact has the header, the metadata and the extent of the directory
/// of the source.
proof fn lemma_frame_kept(
    file: GgufFile<'_>,
    source: Seq<u8>,
    order: Seq<usize>,
    planned: Seq<PlannedTensor>,
    quantized: Seq<u8>,
)
    requires
        is_link(file, source, order, planned),
    ensures
        ({
            let out = artifact_bytes(file, source, order, planned, quantized);
            &&& le32(out) == le32(source)
            &&& le32(out.skip(4)) == le32(source.skip(4))
            &&& tensor_count_of(out) == tensor_count_of(source)
            &&& kv_count_of(out) == kv_count_of(source)
            &&& entries_end(out, 24, kv_count_of(out)) == entries_end(
                source,
                24,
                kv_count_of(source),
            )
            &&& directory_start(out) == directory_start(source)
            &&& alignment_of(out) == alignment_of(source)
            &&& records_end(out, directory_start(out), tensor_count_of(out)) == records_end(
                source,
                directory_start(source),
                tensor_count_of(source),
            )
            &&& section_start(out) == section_start(source)
        }),
{
    reveal(is_link);
    let out = artifact_bytes(file, source, order, planned, quantized);
    lemma_unchanged(file, source, order, planned, quantized);
    lemma_directory_bounds(source);
    lemma_le32_local(source, out, 0);
    assert(source.skip(0) =~= source && out.skip(0) =~= out);
    lemma_le32_local(source, out, 4);
    lemma_le64_local(source, out, 8);
    lemma_le64_local(source, out, 16);
    lemma_entries_local(source, out, 24, kv_count_of(source));
    lemma_alignment_local(source, out);
    lemma_le_bounds(source.skip(8));
    lemma_records_kept(file, source, order, planned, quantized, tensor_count_of(source));
}

/// The entry of the artifact's directory for the tensor in a place.
proof fn lemma_entry_of_place(
    file: GgufFile<'_>,
    source: Seq<u8>,
    order: Seq<usize>,
    planned: Seq<PlannedTensor>,
    quantized: Seq<u8>,
    p: int,
)
    requires
        is_link(file, source, order, planned),
        0 <= p < order.len(),
    ensures
        ({
            let out = artifact_bytes(file, source, order, planned, quantized);
            let r = relink_of(file, source.len() as int, order);
            let i = order[p] as int;
            &&& 0 <= i < directory_of(source).len()
            &&& directory_of(out).len() == directory_of(source).len()
            &&& directory_of(out)[i].name == directory_of(source)[i].name
            &&& directory_of(out)[i].shape == directory_of(source)[i].shape
            &&& directory_of(out)[i].ggml_type == r.output_type(p)
            &&& directory_of(out)[i].relative_offset == r.place(p)
        }),
{
    reveal(is_link);
    let r = relink_of(file, source.len() as int, order);
    assert(r.plans(planned[p], p));
    lemma_label_place(file, source, order, planned, p);
    lemma_frame_kept(file, source, order, planned, quantized);
    lemma_record_kept(file, source, order, planned, quantized, p);
    lemma_records_kept(file, source, order, planned, quantized, order[p] as int);
}

/// The shape and the new type of a tensor give the bytes that the plan leaves
/// for it.
proof fn lemma_primary_bytes(
    file: GgufFile<'_>,
    source: Seq<u8>,
    order: Seq<usize>,
    planned: Seq<PlannedTensor>,
    p: int,
)
    requires
        is_link(file, source, order, planned),
        0 <= p < order.len(),
    ensures
        ({
            let r = relink_of(file, source.len() as int, order);
            tensor_bytes(directory_of(source)[order[p] as int].shape, r.output_type(p)) == Ok::<
                Option<int>,
                Seq<char>,
            >(Some(r.primary(p)))
        }),
{
    reveal(is_link);
    let r = relink_of(file, source.len() as int, order);
    let i = order[p] as int;
    lemma_link(file, source, order, planned);
    assert(i < file.tensors@.len());
    assert(is_tensor_of(file.tensors@[i], source, i));
    lemma_usable(source, i);
}

/// The scale block of an I2_S tensor lies in its slot.
proof fn lemma_scale_in_slot(
    file: GgufFile<'_>,
    source: Seq<u8>,
    order: Seq<usize>,
    planned: Seq<PlannedTensor>,
    p: int,
)
    requires
        is_link(file, source, order, planned),
        0 <= p < order.len(),
        relink_of(file, source.len() as int, order).output_type(p) == GgmlType::BitNetI2S,
    ensures
        relink_of(file, source.len() as int, order).suffix(p) >= 32,
{
    reveal(is_link);
    let r = relink_of(file, source.len() as int, order);
    let i = order[p] as int;
    lemma_link(file, source, order, planned);
    assert(i < file.tensors@.len());
    assert(is_tensor_of(file.tensors@[i], source, i));
    tensors_lie_in_the_file(source, i);
    if p + 1 < order.len() {
        let j = order[p + 1] as int;
        assert(file.tensors@[i].offset < file.tensors@[j].offset);
        assert(is_tensor_of(file.tensors@[j], source, j));
        tensors_lie_in_the_file(source, j);
        tensors_lie_apart(source, i, j);
    }
}

/// The next offset above `x` is one of the offsets.
proof fn lemma_next_is_an_offset(records: Seq<TensorRecord>, x: u64, n: int) -> (j: int)
    requires
        0 <= n <= records.len(),
        next_above(records, x, n) is Some,
    ensures
        0 <= j < n,
        records[j].relative_offset == next_above(records, x, n)->0,
        records[j].relative_offset > x,
    decreases n,
{
    let o = records[n - 1].relative_offset;
    if o > x && next_above(records, x, n) == Some(o) {
        n - 1
    } else {
        lemma_next_is_an_offset(records, x, n - 1)
    }
}

/// No tensor of the artifact has a fault in its place.
#[verifier::spinoff_prover]
#[verifier::rlimit(50)]
proof fn lemma_layout_kept(
    file: GgufFile<'_>,
    source: Seq<u8>,
    order: Seq<usize>,
    planned: Seq<PlannedTensor>,
    quantized: Seq<u8>,
    p: int,
)
    requires
        is_link(file, source, order, planned),
        quantized.len() == relink_of(file, source.len() as int, order).chosen_bytes,
        0 <= p < order.len(),
    ensures
        ({
            let out = artifact_bytes(file, source, order, planned, quantized);
            layout_fault(
                directory_of(out),
                order[p] as int,
                section_start(source),
                out.len() as int,
            ) is None
        }),
{
    let out = artifact_bytes(file, source, order, planned, quantized);
    let r = relink_of(file, source.len() as int, order);
    let i = order[p] as int;
    let records = directory_of(out);
    let n = records.len() as int;
    lemma_link(file, source, order, planned);
    lemma_artifact_len(file, source, order, planned, quantized);
    lemma_entry_of_place(file, source, order, planned, quantized, p);
    lemma_primary_bytes(file, source, order, planned, p);
    slots_are_aligned_and_apart(r, p);
    slots_hold_their_tensors(r, p);
    assert(r.fault() is None && is_order(order, file.tensors@) && file.tensors@.len() == n
        && file.tensors@.len() <= usize::MAX) by {
        reveal(is_link);
    }
    lemma_output_bounds(r, p + 1);
    assert forall|j: int| 0 <= j < n && j != i implies (#[trigger] records[j]).relative_offset
        != r.place(p) by {
        let q = lemma_has_place(file, order, j);
        lemma_entry_of_place(file, source, order, planned, quantized, q);
        if p < q {
            lemma_places_rise(file, source, order, planned, p, q);
        } else {
            lemma_places_rise(file, source, order, planned, q, p);
        }
    }
    let next = next_above(records, records[i].relative_offset, n);
    if next is Some {
        let j = lemma_next_is_an_offset(records, records[i].relative_offset, n);
        let q = lemma_has_place(file, order, j);
        lemma_entry_of_place(file, source, order, planned, quantized, q);
        if q < p {
            lemma_places_rise(file, source, order, planned, q, p);
        }
        lemma_places_rise(file, source, order, planned, p, q);
        slots_are_aligned_and_apart(r, q);
        slots_hold_their_tensors(r, q);
        lemma_output_bounds(r, q + 1);
    }
    if records[i].ggml_type == GgmlType::BitNetI2S {
        lemma_scale_in_slot(file, source, order, planned, p);
    }
}

/// No tensor of the artifact has a fault in its place.
proof fn lemma_layouts_kept(
    file: GgufFile<'_>,
    source: Seq<u8>,
    order: Seq<usize>,
    planned: Seq<PlannedTensor>,
    quantized: Seq<u8>,
    n: int,
)
    requires
        is_link(file, source, order, planned),
        quantized.len() == relink_of(file, source.len() as int, order).chosen_bytes,
        0 <= n <= tensor_count_of(source),
    ensures
        ({
            let out = artifact_bytes(file, source, order, planned, quantized);
            layouts_fault(directory_of(out), n, section_start(source), out.len() as int) is None
        }),
    decreases n,
{
    if n > 0 {
        lemma_layouts_kept(file, source, order, planned, quantized, n - 1);
        assert(is_order(order, file.tensors@) && file.tensors@.len() == tensor_count_of(source)
            && file.tensors@.len() <= usize::MAX) by {
            reveal(is_link);
        }
        let p = lemma_has_place(file, order, n - 1);
        lemma_layout_kept(file, source, order, planned, quantized, p);
    }
}

/// A tagged value takes at least five bytes.
proof fn lemma_value_takes(data: Seq<u8>, pos: int)
    requires
        0 <= pos <= data.len(),
        value_end(data, pos) is Ok,
    ensures
        pos + 5 <= value_end(data, pos)->Ok_0,
{
    match value_type_of_raw(le32(data.skip(pos)) as u32) {
        GgufMetadataValueType::String => lemma_string_advances(data, pos + 4),
        GgufMetadataValueType::Array => {
            let element = value_type_of_raw(le32(data.skip(pos + 4)) as u32);
            let count = le64(data.skip(pos + 8));
            lemma_outer_advance(data, pos + 16, element, count);
        },
        _ => {},
    }
}

/// Metadata entries take at least thirteen bytes each.
proof fn lemma_entries_take(data: Seq<u8>, pos: int, n: int)
    requires
        0 <= pos <= data.len(),
        0 <= n,
        entries_end(data, pos, n) is Ok,
    ensures
        pos + 13 * n <= entries_end(data, pos, n)->Ok_0,
    decreases n,
{
    if n > 0 {
        lemma_fewer_entries(data, pos, n - 1, n);
        lemma_entries_take(data, pos, n - 1);
        let p = entries_end(data, pos, n - 1)->Ok_0;
        lemma_string_advances(data, p);
        lemma_value_takes(data, string_end(data, p)->Ok_0);
    }
}

/// Directory entries take at least twenty-four bytes each.
proof fn lemma_records_take(data: Seq<u8>, pos: int, n: int)
    requires
        0 <= pos <= data.len(),
        0 <= n,
        records_end(data, pos, n) is Ok,
    ensures
        pos + 24 * n <= records_end(data, pos, n)->Ok_0,
    decreases n,
{
    if n > 0 {
        lemma_prefix_reads(data, pos, n - 1, n);
        lemma_records_advance(data, pos, n - 1);
        lemma_records_take(data, pos, n - 1);
        lemma_record_advances(data, records_end(data, pos, n - 1)->Ok_0, n - 1);
    }
}

/// An artifact can be used.
proof fn lemma_artifact_usable(
    file: GgufFile<'_>,
    source: Seq<u8>,
    order: Seq<usize>,
    planned: Seq<PlannedTensor>,
    quantized: Seq<u8>,
)
    requires
        is_link(file, source, order, planned),
        quantized.len() == relink_of(file, source.len() as int, order).chosen_bytes,
    ensures
        file_fault(artifact_bytes(file, source, order, planned, quantized)) is None,
{
    let out = artifact_bytes(file, source, order, planned, quantized);
    let d = directory_start(source);
    let n = tensor_count_of(source);
    let k = kv_count_of(source);
    lemma_link(file, source, order, planned);
    lemma_frame_kept(file, source, order, planned, quantized);
    lemma_unchanged(file, source, order, planned, quantized);
    lemma_layouts_kept(file, source, order, planned, quantized, n);
    assert(file_fault(source) is None) by {
        reveal(is_link);
    }
    lemma_directory_bounds(source);
    data_section_is_aligned(source);
    lemma_le_bounds(source.skip(8));
    lemma_le_bounds(source.skip(16));
    lemma_records_take(source, d, n);
    lemma_entries_take(source, 24, k);
    assert(header_fault(out) is None);
}

/// The slots stand one behind the other; each can be found at its place.
proof fn lemma_slot_found(
    r: Relink,
    p: int,
    m: int,
    source: Seq<u8>,
    quantized: Seq<u8>,
)
    requires
        r.wf(),
        r.source_len == source.len(),
        quantized.len() == r.chosen_bytes,
        0 <= p < m <= r.order.len(),
    ensures
        r.reach(p + 1) <= body(r, m, source, quantized).len(),
        body(r, m, source, quantized).subrange(r.place(p), r.reach(p + 1)) == slot_bytes(
            r,
            p,
            source,
            quantized,
        ),
    decreases m,
{
    slots_reach_their_places(r, m, source, quantized);
    slots_reach_their_places(r, m - 1, source, quantized);
    slots_are_aligned_and_apart(r, p);
    slots_hold_their_tensors(r, p);
    let before = body(r, m - 1, source, quantized);
    let gap = zeros(r.place(m - 1) - r.reach(m - 1));
    let last = slot_bytes(r, m - 1, source, quantized);
    let all = body(r, m, source, quantized);
    if p < m - 1 {
        lemma_slot_found(r, p, m - 1, source, quantized);
        assert(all.subrange(r.place(p), r.reach(p + 1)) =~= before.subrange(
            r.place(p),
            r.reach(p + 1),
        ));
    } else {
        if m - 1 > 0 {
            slots_are_aligned_and_apart(r, m - 2);
        }
        alignment_reaches_the_next_multiple(r.reach(m - 1), r.alignment);
        let i = r.order[p] as int;
        assert(r.start <= r.tensors[i].offset);
        assert(before.len() + gap.len() == r.place(p));
        assert(all.subrange(r.place(p), r.reach(p + 1)) =~= last);
    }
}

/// The slot in a place stands in the artifact.
#[verifier::spinoff_prover]
proof fn lemma_slot_in_artifact(
    file: GgufFile<'_>,
    source: Seq<u8>,
    order: Seq<usize>,
    planned: Seq<PlannedTensor>,
    quantized: Seq<u8>,
    p: int,
)
    requires
        is_link(file, source, order, planned),
        quantized.len() == relink_of(file, source.len() as int, order).chosen_bytes,
        0 <= p < order.len(),
    ensures
        ({
            let out = artifact_bytes(file, source, order, planned, quantized);
            let r = relink_of(file, source.len() as int, order);
            let h = section_start(source);
            &&& 0 <= h
            &&& h + r.reach(p + 1) <= out.len()
            &&& out.subrange(h + r.place(p), h + r.reach(p + 1)) == slot_bytes(
                r,
                p,
                source,
                quantized,
            )
        }),
{
    let out = artifact_bytes(file, source, order, planned, quantized);
    let r = relink_of(file, source.len() as int, order);
    let h = section_start(source);
    let all = body(r, order.len() as int, source, quantized);
    lemma_link(file, source, order, planned);
    lemma_slot_found(r, p, order.len() as int, source, quantized);
    slots_are_aligned_and_apart(r, p);
    slots_hold_their_tensors(r, p);
    assert(file_fault(source) is None) by {
        reveal(is_link);
    }
    lemma_place_in_header(source, 0);
    lemma_relabelled_len(
        source.take(h),
        planned,
        file.tensor_descriptors@,
        planned.len() as int,
    );
    let i = order[p] as int;
    assert(0 <= r.tensors[i].len);
    assert(r.place(p) <= r.reach(p + 1));
    assert(out.subrange(h + r.place(p), h + r.reach(p + 1)) =~= all.subrange(
        r.place(p),
        r.reach(p + 1),
    ));
}

/// What the plan knows of the tensor in a place.
#[verifier::spinoff_prover]
proof fn lemma_source_piece(
    file: GgufFile<'_>,
    source: Seq<u8>,
    order: Seq<usize>,
    planned: Seq<PlannedTensor>,
    p: int,
)
    requires
        is_link(file, source, order, planned),
        0 <= p < order.len(),
    ensures
        ({
            let r = relink_of(file, source.len() as int, order);
            let i = order[p] as int;
            &&& r.at(p).offset == tensor_start(source, i)
            &&& r.at(p).len == tensor_len(source, i)
            &&& r.at(p).ggml_type == directory_of(source)[i].ggml_type
            &&& r.start == section_start(source)
            &&& r.alignment == alignment_of(source)
            &&& 0 <= r.at(p).offset
            &&& 0 <= r.at(p).len
            &&& r.at(p).offset + r.at(p).len <= r.slot_end(p) <= source.len()
        }),
{
    let i = order[p] as int;
    let r = relink_of(file, source.len() as int, order);
    lemma_link(file, source, order, planned);
    slots_hold_their_tensors(r, p);
    assert(r.start <= r.tensors[i].offset);
    assert(is_tensor_of(file.tensors@[i], source, i)) by {
        reveal(is_link);
        assert(i < file.tensors@.len());
    }
    assert(r.start == section_start(source) && r.alignment == alignment_of(source)) by {
        reveal(is_link);
    }
}

/// An artifact is a file that can be used. It has the metadata of the source,
/// byte for byte, lists as many tensors, and its tensor data starts at the same
/// place with the same alignment.
#[verifier::spinoff_prover]
pub proof fn artifact_can_be_used(
    file: GgufFile<'_>,
    source: Seq<u8>,
    order: Seq<usize>,
    planned: Seq<PlannedTensor>,
    quantized: Seq<u8>,
)
    requires
        is_link(file, source, order, planned),
        quantized.len() == relink_of(file, source.len() as int, order).chosen_bytes,
    ensures
        ({
            let out = artifact_bytes(file, source, order, planned, quantized);
            &&& file_fault(out) is None
            &&& out.len() == relink_of(file, source.len() as int, order).output_len()
            &&& out.take(directory_start(source)) == source.take(directory_start(source))
            &&& directory_start(out) == directory_start(source)
            &&& alignment_of(out) == alignment_of(source)
            &&& section_start(out) == section_start(source)
            &&& tensor_count_of(out) == tensor_count_of(source)
        }),
{
    let out = artifact_bytes(file, source, order, planned, quantized);
    assert(file_fault(out) is None) by {
        lemma_artifact_usable(file, source, order, planned, quantized);
    }
    assert(out.len() == relink_of(file, source.len() as int, order).output_len()) by {
        lemma_artifact_len(file, source, order, planned, quantized);
    }
    assert(directory_start(out) == directory_start(source) && alignment_of(out) == alignment_of(
        source,
    ) && section_start(out) == section_start(source) && tensor_count_of(out) == tensor_count_of(
        source,
    )) by {
        lemma_frame_kept(file, source, order, planned, quantized);
    }
    assert(out.take(directory_start(source)) == source.take(directory_start(source))) by {
        lemma_unchanged(file, source, order, planned, quantized);
        lemma_same_prefix(source, out, directory_start(source));
    }
}

/// Buffers that agree up to a position have the same beginning.
proof fn lemma_same_prefix(a: Seq<u8>, b: Seq<u8>, to: int)
    requires
        0 <= to,
        same_between(a, b, 0, to),
    ensures
        b.take(to) == a.take(to),
{
    assert(b.take(to) =~= a.take(to));
}

/// The directory of an artifact lists the tensors of the source under the same
/// numbers, with the same names and shapes. The embeddings have the type Q6_K,
/// every other tensor has the type it had, and each lies at a multiple of the
/// alignment.
#[verifier::spinoff_prover]
pub proof fn artifact_lists_the_tensors(
    file: GgufFile<'_>,
    source: Seq<u8>,
    order: Seq<usize>,
    planned: Seq<PlannedTensor>,
    quantized: Seq<u8>,
    i: int,
)
    requires
        is_link(file, source, order, planned),
        quantized.len() == relink_of(file, source.len() as int, order).chosen_bytes,
        0 <= i < tensor_count_of(source),
    ensures
        ({
            let out = artifact_bytes(file, source, order, planned, quantized);
            let r = relink_of(file, source.len() as int, order);
            let new = directory_of(out)[i];
            let old = directory_of(source)[i];
            &&& new.name == old.name
            &&& new.shape == old.shape
            &&& new.ggml_type == if i == r.chosen {
                GgmlType::Q6K
            } else {
                old.ggml_type
            }
            &&& new.relative_offset as int % alignment_of(source) == 0
        }),
{
    let p = lemma_place_of(file, source, order, planned, i);
    let out = artifact_bytes(file, source, order, planned, quantized);
    let r = relink_of(file, source.len() as int, order);
    let new = directory_of(out)[i];
    let old = directory_of(source)[i];
    assert(new.name == old.name && new.shape == old.shape && new.ggml_type == r.output_type(p)
        && new.relative_offset == r.place(p)) by {
        lemma_entry_of_place(file, source, order, planned, quantized, p);
    }
    assert(r.at(p).ggml_type == old.ggml_type && r.alignment == alignment_of(source)) by {
        lemma_source_piece(file, source, order, planned, p);
    }
    assert(r.place(p) % r.alignment == 0) by {
        lemma_link(file, source, order, planned);
        slots_are_aligned_and_apart(r, p);
    }
}

/// The place of a tensor in the plan.
proof fn lemma_place_of(
    file: GgufFile<'_>,
    source: Seq<u8>,
    order: Seq<usize>,
    planned: Seq<PlannedTensor>,
    i: int,
) -> (p: int)
    requires
        is_link(file, source, order, planned),
        0 <= i < tensor_count_of(source),
    ensures
        0 <= p < order.len(),
        order[p] == i,
{
    reveal(is_link);
    lemma_has_place(file, order, i)
}

/// In an artifact the embeddings have the quantised bytes. Every other tensor
/// has, with what follows it up to the next tensor of the source, the bytes it
/// had there.
#[verifier::spinoff_prover]
pub proof fn artifact_holds_the_bytes(
    file: GgufFile<'_>,
    source: Seq<u8>,
    order: Seq<usize>,
    planned: Seq<PlannedTensor>,
    quantized: Seq<u8>,
    p: int,
)
    requires
        is_link(file, source, order, planned),
        quantized.len() == relink_of(file, source.len() as int, order).chosen_bytes,
        0 <= p < order.len(),
    ensures
        ({
            let out = artifact_bytes(file, source, order, planned, quantized);
            let r = relink_of(file, source.len() as int, order);
            let i = order[p] as int;
            let from = tensor_start(out, i);
            if i == r.chosen {
                &&& tensor_len(out, i) == quantized.len()
                &&& out.subrange(from, from + quantized.len()) == quantized
            } else {
                let slot = r.slot_end(p) - tensor_start(source, i);
                &&& tensor_len(out, i) == tensor_len(source, i) <= slot
                &&& out.subrange(from, from + slot) == source.subrange(
                    tensor_start(source, i),
                    r.slot_end(p),
                )
            }
        }),
{
    let out = artifact_bytes(file, source, order, planned, quantized);
    let r = relink_of(file, source.len() as int, order);
    let i = order[p] as int;
    let h = section_start(source);
    assert(section_start(out) == h) by {
        lemma_frame_kept(file, source, order, planned, quantized);
    }
    lemma_entry_of_place(file, source, order, planned, quantized, p);
    lemma_primary_bytes(file, source, order, planned, p);
    lemma_source_piece(file, source, order, planned, p);
    lemma_slot_in_artifact(file, source, order, planned, quantized, p);
    assert(r.place(p) + r.primary(p) + r.suffix(p) == r.reach(p + 1) && 0 <= r.place(p)) by {
        lemma_link(file, source, order, planned);
        slots_are_aligned_and_apart(r, p);
    }
    let slot = slot_bytes(r, p, source, quantized);
    let from = h + r.place(p);
    if i == r.chosen {
        assert(out.subrange(from, from + quantized.len()) =~= slot.subrange(
            0,
            quantized.len() as int,
        ));
        assert(slot.subrange(0, quantized.len() as int) =~= quantized);
    }
}

/// The slot of a tensor that does not change lies in the output.
proof fn lemma_slot_in_output(r: Relink, p: int)
    requires
        r.wf(),
        r.fault() is None,
        0 <= p < r.order.len(),
        r.order[p] as int != r.chosen,
    ensures
        0 <= r.place(p),
        r.start + r.place(p) + (r.slot_end(p) - r.at(p).offset) <= r.output_len(),
{
    slots_are_aligned_and_apart(r, p);
    lemma_output_bounds(r, p + 1);
}

/// Where a tensor starts in the artifact, and how long the artifact is.
#[verifier::spinoff_prover]
proof fn lemma_start_in_artifact(
    file: GgufFile<'_>,
    source: Seq<u8>,
    order: Seq<usize>,
    planned: Seq<PlannedTensor>,
    quantized: Seq<u8>,
    p: int,
)
    requires
        is_link(file, source, order, planned),
        quantized.len() == relink_of(file, source.len() as int, order).chosen_bytes,
        0 <= p < order.len(),
    ensures
        ({
            let out = artifact_bytes(file, source, order, planned, quantized);
            let r = relink_of(file, source.len() as int, order);
            &&& out.len() == r.output_len()
            &&& tensor_start(out, order[p] as int) == section_start(source) + r.place(p)
            &&& r.fault() is None
        }),
{
    let out = artifact_bytes(file, source, order, planned, quantized);
    lemma_artifact_len(file, source, order, planned, quantized);
    assert(section_start(out) == section_start(source)) by {
        lemma_frame_kept(file, source, order, planned, quantized);
    }
    lemma_entry_of_place(file, source, order, planned, quantized, p);
    assert(relink_of(file, source.len() as int, order).fault() is None) by {
        reveal(is_link);
    }
}

/// The slot of a tensor that does not change lies in the source and in the
/// artifact, and holds the tensor and its scale block.
#[verifier::spinoff_prover]
pub(crate) proof fn lemma_slot_of_tensor(
    file: GgufFile<'_>,
    source: Seq<u8>,
    order: Seq<usize>,
    planned: Seq<PlannedTensor>,
    quantized: Seq<u8>,
    p: int,
)
    requires
        is_link(file, source, order, planned),
        quantized.len() == relink_of(file, source.len() as int, order).chosen_bytes,
        0 <= p < order.len(),
        order[p] as int != relink_of(file, source.len() as int, order).chosen,
    ensures
        ({
            let out = artifact_bytes(file, source, order, planned, quantized);
            let i = order[p] as int;
            let from = tensor_start(out, i);
            let start = tensor_start(source, i);
            let len = tensor_len(source, i);
            let end = relink_of(file, source.len() as int, order).slot_end(p);
            &&& 0 <= start <= start + len <= end <= source.len()
            &&& 0 <= from
            &&& from + (end - start) <= out.len()
            &&& directory_of(source)[i].ggml_type == GgmlType::BitNetI2S ==> start + len + 32
                <= end
        }),
{
    let r = relink_of(file, source.len() as int, order);
    lemma_source_piece(file, source, order, planned, p);
    lemma_start_in_artifact(file, source, order, planned, quantized, p);
    assert(0 <= r.start && 0 <= r.place(p) && r.start + r.place(p) + (r.slot_end(p) - r.at(
        p,
    ).offset) <= r.output_len()) by {
        lemma_link(file, source, order, planned);
        lemma_slot_in_output(r, p);
    }
    if directory_of(source)[order[p] as int].ggml_type == GgmlType::BitNetI2S {
        lemma_scale_in_slot(file, source, order, planned, p);
    }
}

} // verus!
