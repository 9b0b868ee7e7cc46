//! The bytes of an artifact: a header with new types and offsets, and the
//! slots of the tensors behind it.

use crate::error::{Fault, WillametteError};
use crate::gguf::bytes::{copy_range, le32, le64};
use crate::gguf::laws::{
    lemma_directory_bounds, lemma_record_advances, lemma_records_advance,
};
use crate::gguf::layout::{
    directory_start, directory_stop, dtype_place, file_fault, records_end, section_start,
    tensor_count_of,
};
use crate::gguf::linker::{
    build_plan, is_order, is_plan, lemma_no_slot_fault, lemma_relink_in_order, profile_fault,
    relink_of, source_fails, ArtifactProfile, LinkPlan,
};
use crate::gguf::reader::{locates, GgufFile, TensorDescriptorLocation};
use crate::gguf::relink::{
    slots_are_aligned_and_apart, slots_hold_their_tensors, PlannedTensor, Relink, TensorAction,
};
use crate::gguf::tensor::TensorView;
use crate::gguf::types::raw_of_type;
use crate::text::{cat4, decimal, owned};
use vstd::prelude::*;

verus! {

/// The four bytes of a little-endian number.
pub open spec fn le_bytes4(v: int) -> Seq<u8> {
    seq![
        (v % 0x100) as u8,
        (v / 0x100 % 0x100) as u8,
        (v / 0x1_0000 % 0x100) as u8,
        (v / 0x100_0000 % 0x100) as u8,
    ]
}

/// The eight bytes of a little-endian number.
pub open spec fn le_bytes8(v: int) -> Seq<u8> {
    le_bytes4(v % 0x1_0000_0000) + le_bytes4(v / 0x1_0000_0000)
}

/// `data` with `bytes` written over it from `at` on.
pub open spec fn overwritten(data: Seq<u8>, at: int, bytes: Seq<u8>) -> Seq<u8> {
    Seq::new(
        data.len(),
        |i: int|
            if at <= i < at + bytes.len() {
                bytes[i - at]
            } else {
                data[i]
            },
    )
}

/// A 32-bit number that was written reads back.
pub proof fn written_u32_reads_back(data: Seq<u8>, at: int, v: u32)
    requires
        0 <= at,
        at + 4 <= data.len(),
    ensures
        le32(overwritten(data, at, le_bytes4(v as int)).skip(at)) == v,
{
    lemma_le_bytes4(v as int);
    let s = overwritten(data, at, le_bytes4(v as int)).skip(at);
    let b = le_bytes4(v as int);
    assert(s[0] == b[0] && s[1] == b[1] && s[2] == b[2] && s[3] == b[3]);
}

/// A 64-bit number that was written reads back.
pub proof fn written_u64_reads_back(data: Seq<u8>, at: int, v: u64)
    requires
        0 <= at,
        at + 8 <= data.len(),
    ensures
        le64(overwritten(data, at, le_bytes8(v as int)).skip(at)) == v,
{
    let low = v as int % 0x1_0000_0000;
    let high = v as int / 0x1_0000_0000;
    lemma_le_bytes4(low);
    lemma_le_bytes4(high);
    let s = overwritten(data, at, le_bytes8(v as int)).skip(at);
    let t = s.skip(4);
    let a = le_bytes4(low);
    let b = le_bytes4(high);
    assert(s[0] == a[0] && s[1] == a[1] && s[2] == a[2] && s[3] == a[3]);
    assert(t[0] == b[0] && t[1] == b[1] && t[2] == b[2] && t[3] == b[3]);
}

/// The four bytes of a number stand for it.
pub(crate) proof fn lemma_le_bytes4(v: int)
    requires
        0 <= v < 0x1_0000_0000,
    ensures
        le_bytes4(v).len() == 4,
        le32(le_bytes4(v)) == v,
{
    let b = le_bytes4(v);
    assert(b[0] == v % 0x100 && b[1] == v / 0x100 % 0x100 && b[2] == v / 0x1_0000 % 0x100 && b[3]
        == v / 0x100_0000 % 0x100);
}

/// Writes a byte into a buffer.
fn put(data: &mut Vec<u8>, at: usize, b: u8)
    requires
        at < old(data)@.len(),
    ensures
        final(data)@ == old(data)@.update(at as int, b),
{
    data[at] = b;
}

/// Writes four bytes into a buffer.
fn put4(data: &mut Vec<u8>, at: usize, v: u32)
    requires
        at + 4 <= old(data)@.len(),
    ensures
        final(data)@ == overwritten(old(data)@, at as int, le_bytes4(v as int)),
{
    let ghost before = data@;
    let limit: usize = data.len();
    put(data, at, (v % 0x100) as u8);
    put(data, at + 1, (v / 0x100 % 0x100) as u8);
    put(data, at + 2, (v / 0x1_0000 % 0x100) as u8);
    put(data, at + 3, (v / 0x100_0000 % 0x100) as u8);
    proof {
        assert(data@ =~= overwritten(before, at as int, le_bytes4(v as int)));
    }
}

/// Why a number cannot be written over a header.
pub open spec fn patch_fault(len: int, offset: int, width: int, what: Seq<char>) -> Option<Fault> {
    if offset > usize::MAX {
        Some(Fault::GgufParse("header offset overflow"@))
    } else if offset + width > len {
        Some(Fault::GgufParse(what))
    } else {
        None
    }
}

/// Writes a 32-bit number over a header.
pub fn patch_u32(data: &mut Vec<u8>, offset: u64, value: u32) -> (r: Result<(), WillametteError>)
    ensures
        match r {
            Ok(_) => {
                &&& patch_fault(
                    old(data)@.len() as int,
                    offset as int,
                    4,
                    "descriptor dtype patch is out of bounds"@,
                ) is None
                &&& final(data)@ == overwritten(
                    old(data)@,
                    offset as int,
                    le_bytes4(value as int),
                )
            },
            Err(e) => {
                &&& patch_fault(
                    old(data)@.len() as int,
                    offset as int,
                    4,
                    "descriptor dtype patch is out of bounds"@,
                ) == Some(e@)
                &&& final(data)@ == old(data)@
            },
        },
{
    if offset > usize::MAX as u64 {
        return Err(WillametteError::GgufParse(owned("header offset overflow")));
    }
    let at: usize = offset as usize;
    if data.len() < 4 || at > data.len() - 4 {
        return Err(
            WillametteError::GgufParse(owned("descriptor dtype patch is out of bounds")),
        );
    }
    put4(data, at, value);
    Ok(())
}

/// Writes a 64-bit number over a header.
pub fn patch_u64(data: &mut Vec<u8>, offset: u64, value: u64) -> (r: Result<(), WillametteError>)
    ensures
        match r {
            Ok(_) => {
                &&& patch_fault(
                    old(data)@.len() as int,
                    offset as int,
                    8,
                    "descriptor tensor-offset patch is out of bounds"@,
                ) is None
                &&& final(data)@ == overwritten(
                    old(data)@,
                    offset as int,
                    le_bytes8(value as int),
                )
            },
            Err(e) => {
                &&& patch_fault(
                    old(data)@.len() as int,
                    offset as int,
                    8,
                    "descriptor tensor-offset patch is out of bounds"@,
                ) == Some(e@)
                &&& final(data)@ == old(data)@
            },
        },
{
    if offset > usize::MAX as u64 {
        return Err(WillametteError::GgufParse(owned("header offset overflow")));
    }
    let at: usize = offset as usize;
    if data.len() < 8 || at > data.len() - 8 {
        return Err(
            WillametteError::GgufParse(owned("descriptor tensor-offset patch is out of bounds")),
        );
    }
    let ghost before = data@;
    put4(data, at, (value % 0x1_0000_0000) as u32);
    put4(data, at + 4, (value / 0x1_0000_0000) as u32);
    proof {
        assert(data@ =~= overwritten(before, at as int, le_bytes8(value as int)));
    }
    Ok(())
}

/// `header` with the types and offsets of the first `n` planned tensors
/// written over those of the source.
pub open spec fn relabelled(
    header: Seq<u8>,
    planned: Seq<PlannedTensor>,
    places: Seq<TensorDescriptorLocation>,
    n: int,
) -> Seq<u8>
    decreases n,
{
    if n <= 0 {
        header
    } else {
        let t = planned[n - 1];
        let at = places[t.source_index as int];
        overwritten(
            overwritten(
                relabelled(header, planned, places, n - 1),
                at.dtype_offset as int,
                le_bytes4(raw_of_type(t.output_type) as int),
            ),
            at.relative_offset_offset as int,
            le_bytes8(t.output_relative_offset as int),
        )
    }
}

/// Relabelling keeps the length.
pub(crate) proof fn lemma_relabelled_len(
    header: Seq<u8>,
    planned: Seq<PlannedTensor>,
    places: Seq<TensorDescriptorLocation>,
    n: int,
)
    ensures
        relabelled(header, planned, places, n).len() == header.len(),
    decreases n,
{
    if n > 0 {
        lemma_relabelled_len(header, planned, places, n - 1);
    }
}

/// The type tag and the offset of a directory entry lie in front of the tensor
/// data.
pub(crate) proof fn lemma_place_in_header(data: Seq<u8>, i: int)
    requires
        file_fault(data) is None,
        0 <= i < tensor_count_of(data),
    ensures
        24 <= dtype_place(data, records_end(data, directory_start(data), i)->Ok_0),
        dtype_place(data, records_end(data, directory_start(data), i)->Ok_0) + 12
            <= directory_stop(data) <= section_start(data),
        section_start(data) <= data.len(),
{
    let p = directory_start(data);
    lemma_directory_bounds(data);
    crate::gguf::laws::data_section_is_aligned(data);
    lemma_prefix_reads(data, p, i + 1, tensor_count_of(data));
    lemma_prefix_reads(data, p, i, i + 1);
    lemma_records_advance(data, p, i);
    lemma_record_advances(data, records_end(data, p, i)->Ok_0, i);
    lemma_records_grow(data, p, i + 1, tensor_count_of(data));
}

/// Where all entries can be read, the first ones can.
pub(crate) proof fn lemma_prefix_reads(data: Seq<u8>, pos: int, n: int, m: int)
    requires
        0 <= n <= m,
        records_end(data, pos, m) is Ok,
    ensures
        records_end(data, pos, n) is Ok,
    decreases m - n,
{
    if n < m {
        lemma_prefix_reads(data, pos, n, m - 1);
    }
}

/// Later entries end further on.
pub(crate) proof fn lemma_records_grow(data: Seq<u8>, pos: int, n: int, m: int)
    requires
        0 <= pos <= data.len(),
        0 <= n <= m,
        records_end(data, pos, m) is Ok,
    ensures
        records_end(data, pos, n) is Ok,
        records_end(data, pos, n)->Ok_0 <= records_end(data, pos, m)->Ok_0,
    decreases m - n,
{
    if n < m {
        lemma_prefix_reads(data, pos, m - 1, m);
        lemma_records_grow(data, pos, n, m - 1);
        lemma_records_advance(data, pos, m - 1);
        lemma_record_advances(data, records_end(data, pos, m - 1)->Ok_0, m - 1);
    }
}

/// The type tag and the offset of an entry stand in the header, one behind the
/// other.
spec fn fits(at: TensorDescriptorLocation, len: int) -> bool {
    at.dtype_offset + 12 <= len && at.relative_offset_offset == at.dtype_offset + 4
}

/// Writes the new types and offsets over those of the source.
fn relabel(
    header: &mut Vec<u8>,
    planned: &Vec<PlannedTensor>,
    places: &Vec<TensorDescriptorLocation>,
) -> (r: Result<(), WillametteError>)
    requires
        forall|p: int|
            0 <= p < planned@.len() ==> (#[trigger] planned@[p]).source_index < places@.len(),
        forall|i: int| 0 <= i < places@.len() ==> fits(#[trigger] places@[i], old(header)@.len() as int),
    ensures
        r is Ok,
        final(header)@ == relabelled(
            old(header)@,
            planned@,
            places@,
            planned@.len() as int,
        ),
        final(header)@.len() == old(header)@.len(),
{
    let ghost base = header@;
    let limit: usize = header.len();
    let mut p: usize = 0;
    while p < planned.len()
        invariant
            p <= planned.len(),
            limit == base.len(),
            base == old(header)@,
            forall|k: int|
                0 <= k < planned@.len() ==> (#[trigger] planned@[k]).source_index < places@.len(),
            forall|i: int| 0 <= i < places@.len() ==> fits(#[trigger] places@[i], base.len() as int),
            header@ == relabelled(base, planned@, places@, p as int),
            header@.len() == base.len(),
        decreases planned.len() - p,
    {
        let item = planned[p];
        let at = places[item.source_index];
        proof {
            assert(fits(places@[item.source_index as int], base.len() as int));
        }
        match patch_u32(header, at.dtype_offset, item.output_type.to_raw()) {
            Ok(_) => {},
            Err(e) => {
                return Err(e);
            },
        }
        match patch_u64(header, at.relative_offset_offset, item.output_relative_offset) {
            Ok(_) => {},
            Err(e) => {
                return Err(e);
            },
        }
        p = p + 1;
    }
    Ok(())
}

/// The bytes in front of the tensor data, with the new types and offsets.
fn patched_header(source: &[u8], gguf: &GgufFile<'_>, planned: &Vec<PlannedTensor>) -> (r: Result<
    Vec<u8>,
    WillametteError,
>)
    requires
        file_fault(source@) is None,
        gguf.describes(source@),
        gguf.tensors@.len() > 0,
        forall|p: int|
            0 <= p < planned@.len() ==> (#[trigger] planned@[p]).source_index
                < gguf.tensors@.len(),
    ensures
        r is Ok,
        r->Ok_0@ == relabelled(
            source@.take(section_start(source@)),
            planned@,
            gguf.tensor_descriptors@,
            planned@.len() as int,
        ),
        r->Ok_0@.len() == section_start(source@),
{
    let limit: usize = source.len();
    proof {
        lemma_place_in_header(source@, 0);
    }
    let mut header = copy_range(source, 0, gguf.data_section_start as usize);
    proof {
        assert(header@ =~= source@.take(section_start(source@)));
        assert forall|i: int| 0 <= i < gguf.tensor_descriptors@.len() implies fits(
            #[trigger] gguf.tensor_descriptors@[i],
            header@.len() as int,
        ) by {
            lemma_place_in_header(source@, i);
            assert(locates(
                gguf.tensor_descriptors@[i],
                source@,
                directory_start(source@),
                i,
            ));
        }
    }
    match relabel(&mut header, planned, &gguf.tensor_descriptors) {
        Ok(_) => Ok(header),
        Err(e) => Err(e),
    }
}

/// A stretch of an artifact.
#[derive(Debug)]
pub enum ArtifactSegment {
    /// These bytes.
    Bytes(Vec<u8>),
    /// So many zero bytes.
    Zeros(u64),
    /// The bytes of the source from one place to another.
    Source { start: u64, end: u64 },
    /// The embeddings, quantised to Q6_K.
    Quantized,
}

/// `count` zero bytes.
pub open spec fn zeros(count: int) -> Seq<u8> {
    Seq::new(if count > 0 { count as nat } else { 0 }, |i: int| 0u8)
}

/// The bytes of a stretch.
pub open spec fn segment_bytes(
    segment: ArtifactSegment,
    source: Seq<u8>,
    quantized: Seq<u8>,
) -> Seq<u8> {
    match segment {
        ArtifactSegment::Bytes(b) => b@,
        ArtifactSegment::Zeros(n) => zeros(n as int),
        ArtifactSegment::Source { start, end } => source.subrange(start as int, end as int),
        ArtifactSegment::Quantized => quantized,
    }
}

/// The bytes of the first `n` stretches, one after the other.
pub open spec fn rendered(
    segments: Seq<ArtifactSegment>,
    n: int,
    source: Seq<u8>,
    quantized: Seq<u8>,
) -> Seq<u8>
    decreases n,
{
    if n <= 0 {
        Seq::empty()
    } else {
        rendered(segments, n - 1, source, quantized) + segment_bytes(
            segments[n - 1],
            source,
            quantized,
        )
    }
}

/// The bytes of a slot: the tensor, and what follows it in the source.
pub open spec fn slot_bytes(r: Relink, p: int, source: Seq<u8>, quantized: Seq<u8>) -> Seq<u8> {
    if r.order[p] == r.chosen {
        quantized + source.subrange(r.at(p).offset + r.at(p).len, r.slot_end(p))
    } else {
        source.subrange(r.at(p).offset, r.slot_end(p))
    }
}

/// The first `p` slots, each at its place, with zeros between them.
pub open spec fn body(r: Relink, p: int, source: Seq<u8>, quantized: Seq<u8>) -> Seq<u8>
    decreases p,
{
    if p <= 0 {
        Seq::empty()
    } else {
        body(r, p - 1, source, quantized) + zeros(r.place(p - 1) - r.reach(p - 1)) + slot_bytes(
            r,
            p - 1,
            source,
            quantized,
        )
    }
}

/// The first slots take as many bytes as they reach.
pub proof fn slots_reach_their_places(r: Relink, p: int, source: Seq<u8>, quantized: Seq<u8>)
    requires
        r.wf(),
        r.source_len == source.len(),
        quantized.len() == r.chosen_bytes,
        0 <= p <= r.order.len(),
    ensures
        body(r, p, source, quantized).len() == r.reach(p),
    decreases p,
{
    if p > 0 {
        slots_reach_their_places(r, p - 1, source, quantized);
        slots_hold_their_tensors(r, p - 1);
        slots_are_aligned_and_apart(r, p - 1);
        if p - 1 > 0 {
            slots_are_aligned_and_apart(r, p - 2);
        }
        let i = r.order[p - 1] as int;
        assert(r.start <= r.tensors[i].offset);
        crate::gguf::laws::alignment_reaches_the_next_multiple(r.reach(p - 1), r.alignment);
    }
}

/// The stretches of which the artifact consists: the header, and each slot
/// behind the zeros that bring it to its place.
fn cut_segments(
    tensors: &Vec<TensorView<'_>>,
    planned: &Vec<PlannedTensor>,
    header: Vec<u8>,
    start: u64,
    Ghost(r): Ghost<Relink>,
    Ghost(source): Ghost<Seq<u8>>,
) -> (out: (Vec<ArtifactSegment>, u64))
    requires
        r.wf(),
        r.fault() is None,
        r.tensors == crate::gguf::relink::pieces(tensors@),
        r.source_len == source.len(),
        r.start == start,
        header@.len() == start,
        planned@.len() == r.order.len(),
        forall|p: int| 0 <= p < planned@.len() ==> r.plans(#[trigger] planned@[p], p),
    ensures
        out.1 == r.output_len(),
        forall|quantized: Seq<u8>|
            #![trigger rendered(out.0@, out.0@.len() as int, source, quantized)]
            rendered(out.0@, out.0@.len() as int, source, quantized) == header@ + body(
                r,
                r.order.len() as int,
                source,
                quantized,
            ),
{
    let mut segments: Vec<ArtifactSegment> = Vec::new();
    let ghost head = header@;
    segments.push(ArtifactSegment::Bytes(header));
    let mut position: u64 = start;
    proof {
        assert forall|quantized: Seq<u8>|
            #![trigger rendered(segments@, segments@.len() as int, source, quantized)]
            rendered(segments@, segments@.len() as int, source, quantized) == head + body(
                r,
                0,
                source,
                quantized,
            ) by {
            reveal_with_fuel(rendered, 2);
            assert(Seq::<u8>::empty() + head =~= head + body(r, 0, source, quantized));
        }
    }
    let mut p: usize = 0;
    while p < planned.len()
        invariant
            p <= planned.len(),
            r.wf(),
            r.fault() is None,
            r.tensors == crate::gguf::relink::pieces(tensors@),
            r.source_len == source.len(),
            r.start == start,
            planned@.len() == r.order.len(),
            forall|k: int| 0 <= k < planned@.len() ==> r.plans(#[trigger] planned@[k], k),
            position == start + r.reach(p as int),
            forall|quantized: Seq<u8>|
                #![trigger rendered(segments@, segments@.len() as int, source, quantized)]
                rendered(segments@, segments@.len() as int, source, quantized) == head + body(
                    r,
                    p as int,
                    source,
                    quantized,
                ),
        decreases planned.len() - p,
    {
        let item = planned[p];
        proof {
            assert(r.plans(item, p as int));
            slots_hold_their_tensors(r, p as int);
            slots_are_aligned_and_apart(r, p as int);
            lemma_no_slot_fault(r, r.order.len() as int, p as int);
            if p > 0 {
                slots_are_aligned_and_apart(r, p - 1);
            }
            crate::gguf::laws::alignment_reaches_the_next_multiple(r.reach(p as int), r.alignment);
            lemma_output_bounds(r, p + 1);
        }
        let tensor = &tensors[item.source_index];
        proof {
            assert(r.at(p as int) == r.tensors[item.source_index as int]);
            assert(r.at(p as int).offset == tensor.offset);
            assert(r.at(p as int).len == tensor.byte_len);
        }
        let output_offset: u64 = start + item.output_relative_offset;
        let padding: u64 = output_offset - position;
        let ghost before = segments@;
        segments.push(ArtifactSegment::Zeros(padding));
        let ghost padded = segments@;
        let primary_end: u64 = tensor.offset + tensor.byte_len;
        match item.action {
            TensorAction::Copy => {
                segments.push(
                    ArtifactSegment::Source { start: tensor.offset, end: item.source_slot_end },
                );
                position = output_offset + (item.source_slot_end - tensor.offset);
            },
            TensorAction::QuantizeF16ToQ6K => {
                segments.push(ArtifactSegment::Quantized);
                let ghost middle = segments@;
                segments.push(
                    ArtifactSegment::Source { start: primary_end, end: item.source_slot_end },
                );
                proof {
                    assert forall|quantized: Seq<u8>| #[trigger]
                        rendered(middle, middle.len() as int, source, quantized) == rendered(
                            padded,
                            padded.len() as int,
                            source,
                            quantized,
                        ) + quantized by {
                        lemma_rendered_push(
                            padded,
                            ArtifactSegment::Quantized,
                            source,
                            quantized,
                        );
                    }
                    assert(segments@ =~= middle.push(segments@.last()));
                }
                position = output_offset + item.output_primary_bytes + (item.source_slot_end
                    - primary_end);
            },
        }
        proof {
            let n = p as int;
            assert forall|quantized: Seq<u8>|
                #![trigger rendered(segments@, segments@.len() as int, source, quantized)]
                rendered(segments@, segments@.len() as int, source, quantized) == head + body(
                    r,
                    n + 1,
                    source,
                    quantized,
                ) by {
                lemma_rendered_push(
                    before,
                    ArtifactSegment::Zeros(padding),
                    source,
                    quantized,
                );
                let so_far = rendered(before, before.len() as int, source, quantized);
                let gap = zeros(padding as int);
                assert(rendered(padded, padded.len() as int, source, quantized) == so_far + gap);
                if r.order[n] == r.chosen {
                    let middle = padded.push(ArtifactSegment::Quantized);
                    lemma_rendered_push(padded, ArtifactSegment::Quantized, source, quantized);
                    let tail = ArtifactSegment::Source {
                        start: primary_end,
                        end: item.source_slot_end,
                    };
                    lemma_rendered_push(middle, tail, source, quantized);
                    assert(segments@ =~= middle.push(tail));
                    assert(rendered(segments@, segments@.len() as int, source, quantized)
                        =~= head + (body(r, n, source, quantized) + gap + slot_bytes(
                        r,
                        n,
                        source,
                        quantized,
                    )));
                } else {
                    let copy = ArtifactSegment::Source {
                        start: tensor.offset,
                        end: item.source_slot_end,
                    };
                    lemma_rendered_push(padded, copy, source, quantized);
                    assert(segments@ =~= padded.push(copy));
                    assert(rendered(segments@, segments@.len() as int, source, quantized)
                        =~= head + (body(r, n, source, quantized) + gap + slot_bytes(
                        r,
                        n,
                        source,
                        quantized,
                    )));
                }
            }
        }
        p = p + 1;
    }
    (segments, position)
}

/// One stretch more adds its bytes at the end.
proof fn lemma_rendered_push(
    segments: Seq<ArtifactSegment>,
    s: ArtifactSegment,
    source: Seq<u8>,
    quantized: Seq<u8>,
)
    ensures
        rendered(segments.push(s), segments.len() as int + 1, source, quantized) == rendered(
            segments,
            segments.len() as int,
            source,
            quantized,
        ) + segment_bytes(s, source, quantized),
{
    lemma_rendered_prefix(segments, s, segments.len() as int, source, quantized);
    assert(segments.push(s)[segments.len() as int] == s);
}

/// Stretches further on do not change what the first ones give.
proof fn lemma_rendered_prefix(
    segments: Seq<ArtifactSegment>,
    s: ArtifactSegment,
    n: int,
    source: Seq<u8>,
    quantized: Seq<u8>,
)
    requires
        n <= segments.len(),
    ensures
        rendered(segments.push(s), n, source, quantized) == rendered(
            segments,
            n,
            source,
            quantized,
        ),
    decreases n,
{
    if n > 0 {
        lemma_rendered_prefix(segments, s, n - 1, source, quantized);
        assert(segments.push(s)[n - 1] == segments[n - 1]);
    }
}

/// The first slots end at or before the end of the output.
pub(crate) proof fn lemma_output_bounds(r: Relink, p: int)
    requires
        r.wf(),
        r.fault() is None,
        0 <= p <= r.order.len(),
    ensures
        0 <= r.reach(p),
        r.start + r.reach(p) <= r.output_len() <= u64::MAX,
    decreases r.order.len() - p,
{
    if p < r.order.len() {
        lemma_output_bounds(r, p + 1);
        slots_are_aligned_and_apart(r, p);
        slots_hold_their_tensors(r, p);
        if p > 0 {
            slots_are_aligned_and_apart(r, p - 1);
            slots_hold_their_tensors(r, p - 1);
        }
        let i = r.order[p] as int;
        assert(0 <= r.tensors[i].len);
    } else if p > 0 {
        slots_are_aligned_and_apart(r, p - 1);
        slots_hold_their_tensors(r, p - 1);
        let i = r.order[p - 1] as int;
        assert(0 <= r.tensors[i].len);
    }
}

/// What an artifact holds: the header of the source with new types and
/// offsets, and the slots behind it.
pub open spec fn artifact_bytes(
    file: GgufFile<'_>,
    source: Seq<u8>,
    order: Seq<usize>,
    planned: Seq<PlannedTensor>,
    quantized: Seq<u8>,
) -> Seq<u8> {
    relabelled(
        source.take(section_start(source)),
        planned,
        file.tensor_descriptors@,
        planned.len() as int,
    ) + body(
        relink_of(file, source.len() as int, order),
        order.len() as int,
        source,
        quantized,
    )
}

/// `planned` is what a relink of a file plans.
pub open spec fn is_planned(
    planned: Seq<PlannedTensor>,
    file: GgufFile<'_>,
    source_len: int,
    order: Seq<usize>,
) -> bool {
    &&& planned.len() == order.len()
    &&& forall|p: int|
        0 <= p < planned.len() ==> relink_of(file, source_len, order).plans(
            #[trigger] planned[p],
            p,
        )
}

/// A plan of an artifact, and the stretches that make it up. With the quantised
/// embeddings in their place they give exactly the bytes that were planned.
#[verifier::opaque]
pub open spec fn is_artifact(
    plan: LinkPlan,
    segments: Seq<ArtifactSegment>,
    source: Seq<u8>,
) -> bool {
    &&& file_fault(source) is None
    &&& exists|file: GgufFile<'_>, order: Seq<usize>, planned: Seq<PlannedTensor>|
        {
            &&& #[trigger] file.describes(source)
            &&& #[trigger] is_order(order, file.tensors@)
            &&& profile_fault(file) is None
            &&& relink_of(file, source.len() as int, order).fault() is None
            &&& is_plan(plan, file, source.len() as int, order)
            &&& #[trigger] is_planned(planned, file, source.len() as int, order)
            &&& forall|quantized: Seq<u8>|
                #![trigger rendered(segments, segments.len() as int, source, quantized)]
                rendered(segments, segments.len() as int, source, quantized) == artifact_bytes(
                    file,
                    source,
                    order,
                    planned,
                    quantized,
                )
        }
}

/// The plan of an artifact, and the stretches that make it up.
pub fn artifact_segments(source: &[u8], profile: ArtifactProfile) -> (r: Result<
    (LinkPlan, Vec<ArtifactSegment>),
    WillametteError,
>)
    ensures
        match r {
            Ok((plan, segments)) => is_artifact(plan, segments@, source@),
            Err(e) => source_fails(source@, e@),
        },
{
    proof {
        reveal(is_artifact);
    }
    let gguf = match GgufFile::parse(source) {
        Ok(f) => f,
        Err(e) => {
            return Err(e);
        },
    };
    let (plan, planned) = match build_plan(source, &gguf, profile) {
        Ok(p) => p,
        Err(e) => {
            return Err(e);
        },
    };
    let ghost order = choose|order: Seq<usize>|
        {
            &&& #[trigger] is_order(order, gguf.tensors@)
            &&& relink_of(gguf, source@.len() as int, order).fault() is None
            &&& is_plan(plan, gguf, source@.len() as int, order)
            &&& forall|p: int|
                0 <= p < planned@.len() ==> relink_of(gguf, source@.len() as int, order).plans(
                    #[trigger] planned@[p],
                    p,
                )
        };
    let ghost r = relink_of(gguf, source@.len() as int, order);
    proof {
        crate::model::graph::lemma_lookup_in_bounds(gguf.tensors@, "token_embd.weight"@);
        let chosen = r.chosen;
        crate::gguf::tensor::lemma_product_nonneg(gguf.tensors@[chosen].shape@);
        assert(r.chosen_bytes >= 0);
        lemma_relink_in_order(gguf, source@, order);
        assert(gguf.tensors@.len() > 0);
        assert forall|p: int| 0 <= p < planned@.len() implies (
        #[trigger] planned@[p]).source_index < gguf.tensors@.len() by {
            assert(r.plans(planned@[p], p));
            assert(order[p] < gguf.tensors@.len());
        }
    }
    let header = match patched_header(source, &gguf, &planned) {
        Ok(h) => h,
        Err(e) => {
            return Err(e);
        },
    };
    let (segments, position) = cut_segments(
        &gguf.tensors,
        &planned,
        header,
        gguf.data_section_start,
        Ghost(r),
        Ghost(source@),
    );
    if position != plan.output_bytes {
        let found = decimal(position);
        let wanted = decimal(plan.output_bytes);
        return Err(
            WillametteError::GgufParse(
                cat4("artifact wrote ", found.as_str(), " bytes, planned ", wanted.as_str()),
            ),
        );
    }
    proof {
        assert(is_planned(planned@, gguf, source@.len() as int, order));
    }
    Ok((plan, segments))
}

} // verus!
