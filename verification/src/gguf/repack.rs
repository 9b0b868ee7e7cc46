//! Artifacts whose embeddings are stored in Q6_K: the bytes that are copied, and
//! the rows that are quantised.

use crate::error::{Fault, WillametteError};
use crate::gguf::artifact::{artifact_segments, is_artifact, ArtifactSegment};
use crate::gguf::linker::{source_fails, ArtifactProfile, LinkPlan};
use crate::gguf::tensor::TensorView;
use crate::model::primitives::{embedding_bits, f16_to_f32, widened};
use crate::model::q4_0::{half_at, read_half};
use crate::text::owned;
use vstd::prelude::*;

verus! {

/// Stretches make up an artifact of so many bytes.
pub open spec fn makes_up(segments: Seq<ArtifactSegment>, source: Seq<u8>, bytes: u64) -> bool {
    exists|plan: LinkPlan|
        #![trigger is_artifact(plan, segments, source)]
        is_artifact(plan, segments, source) && bytes == plan.output_bytes
}

/// How many bytes a file with its embeddings in Q6_K will have, and the stretches
/// that make it up.
pub fn repack_embedding_q6k(source: &[u8]) -> (r: Result<
    (u64, Vec<ArtifactSegment>),
    WillametteError,
>)
    ensures
        match r {
            Ok((bytes, segments)) => makes_up(segments@, source@, bytes),
            Err(e) => source_fails(source@, e@),
        },
{
    match artifact_segments(source, ArtifactProfile::EmbeddingQ6K) {
        Ok((plan, segments)) => {
            let bytes: u64 = plan.output_bytes;
            proof {
                assert(is_artifact(plan, segments@, source@));
                assert(makes_up(segments@, source@, bytes));
            }
            Ok((bytes, segments))
        },
        Err(e) => Err(e),
    }
}

/// What keeps a stretch from being taken out of a file.
pub open spec fn slice_fault(len: int, start: u64, end: u64) -> Option<Fault> {
    if start > usize::MAX || end > usize::MAX {
        Some(Fault::GgufParse("source offset overflow"@))
    } else if start > end || end > len {
        Some(Fault::GgufParse("source tensor slot is out of bounds"@))
    } else {
        None
    }
}

/// The bytes of a file from `start` to before `end`.
pub fn source_slice(source: &[u8], start: u64, end: u64) -> (r: Result<&[u8], WillametteError>)
    ensures
        match r {
            Ok(part) => slice_fault(source@.len() as int, start, end) is None && part@
                == source@.subrange(start as int, end as int),
            Err(e) => slice_fault(source@.len() as int, start, end) == Some(e@),
        },
{
    if start > usize::MAX as u64 || end > usize::MAX as u64 {
        return Err(WillametteError::GgufParse(owned("source offset overflow")));
    }
    if start > end || end > source.len() as u64 {
        return Err(WillametteError::GgufParse(owned("source tensor slot is out of bounds")));
    }
    Ok(vstd::slice::slice_subrange(source, start as usize, end as usize))
}

/// The rows of a half-precision table that are quantised.
#[derive(Debug, Clone, Copy, PartialEq, Eq, Structural)]
pub struct EmbeddingRows {
    /// The values of a row.
    pub elements: usize,
    /// The bytes of a row in half precision.
    pub half_bytes: usize,
    /// The bytes of a row in Q6_K.
    pub quantized_bytes: usize,
    /// How many rows there are.
    pub rows: usize,
}

/// What keeps the rows of a table from being quantised.
pub open spec fn rows_fault(width: u64) -> Option<Fault> {
    if width > usize::MAX {
        Some(Fault::GgufParse("embedding row size overflow"@))
    } else if 2 * width > usize::MAX {
        Some(Fault::GgufParse("F16 row size overflow"@))
    } else {
        None
    }
}

/// The rows of a half-precision table. Bytes that make up no whole row are left
/// out.
pub fn embedding_rows(tensor: &TensorView<'_>) -> (r: Result<EmbeddingRows, WillametteError>)
    requires
        tensor.shape@.len() > 0,
        tensor.shape@[0] > 0,
    ensures
        match r {
            Ok(e) => {
                &&& rows_fault(tensor.shape@[0]) is None
                &&& e.elements == tensor.shape@[0]
                &&& e.half_bytes == 2 * e.elements
                &&& e.quantized_bytes == e.elements as int / 256 * 210
                &&& e.rows == tensor.data@.len() as int / e.half_bytes as int
                &&& e.elements % 256 == 0 ==> e.quantized_bytes * 256 == e.elements * 210
                &&& e.rows * e.half_bytes <= tensor.data@.len() < e.rows * e.half_bytes
                    + e.half_bytes
            },
            Err(e) => rows_fault(tensor.shape@[0]) == Some(e@),
        },
{
    if tensor.shape[0] > usize::MAX as u64 {
        return Err(WillametteError::GgufParse(owned("embedding row size overflow")));
    }
    let elements: usize = tensor.shape[0] as usize;
    let half_bytes: usize = match elements.checked_mul(2) {
        Some(n) => n,
        None => {
            return Err(WillametteError::GgufParse(owned("F16 row size overflow")));
        },
    };
    let rows: usize = tensor.data.len() / half_bytes;
    proof {
        let n = tensor.data@.len() as int;
        let h = half_bytes as int;
        vstd::arithmetic::div_mod::lemma_fundamental_div_mod(n, h);
        assert(h * (n / h) == (n / h) * h) by (nonlinear_arith);
    }
    Ok(EmbeddingRows { elements, half_bytes, quantized_bytes: elements / 256 * 210, rows })
}

/// The single-precision bits of the values of one row.
pub fn embedding_row(data: &[u8], e: &EmbeddingRows, row: usize) -> (values: Vec<u32>)
    requires
        row < e.rows,
        e.half_bytes == 2 * e.elements,
        e.rows * e.half_bytes <= data.len(),
    ensures
        values@.len() == e.elements,
        forall|i: int|
            0 <= i < values@.len() ==> #[trigger] values@[i] == widened(
                half_at(data@, row * e.half_bytes + 2 * i),
            ),
        forall|i: int|
            0 <= i < values@.len() ==> #[trigger] values@[i] == embedding_bits(
                data@,
                e.elements as int,
                row as int,
                i,
            ),
{
    proof {
        assert(0 <= row * e.half_bytes && row * e.half_bytes + e.half_bytes <= e.rows
            * e.half_bytes) by (nonlinear_arith)
            requires
                0 <= row < e.rows,
                0 <= e.half_bytes,
        ;
    }
    let at: usize = row * e.half_bytes;
    let mut values: Vec<u32> = Vec::new();
    let mut i: usize = 0;
    while i < e.elements
        invariant
            i <= e.elements,
            at == row * e.half_bytes,
            e.half_bytes == 2 * e.elements,
            at + e.half_bytes <= data.len(),
            values@.len() == i,
            forall|k: int|
                0 <= k < i ==> #[trigger] values@[k] == widened(half_at(data@, at + 2 * k)),
        decreases e.elements - i,
    {
        values.push(f16_to_f32(read_half(data, at + 2 * i)));
        i = i + 1;
    }
    proof {
        assert forall|k: int| 0 <= k < values@.len() implies #[trigger] values@[k]
            == embedding_bits(data@, e.elements as int, row as int, k) by {
            let rest = data@.skip(row * (2 * e.elements) + 2 * k);
            assert(rest[0] == data@[at + 2 * k] && rest[1] == data@[at + 2 * k + 1]);
        }
    }
    values
}

/// The rows of a table lie within its bytes.
pub proof fn rows_lie_within_the_table(bytes: int, half_bytes: int)
    requires
        bytes >= 0,
        half_bytes > 0,
    ensures
        bytes / half_bytes * half_bytes <= bytes,
{
    vstd::arithmetic::div_mod::lemma_fundamental_div_mod(bytes, half_bytes);
    assert(bytes / half_bytes * half_bytes <= bytes) by (nonlinear_arith)
        requires
            bytes == half_bytes * (bytes / half_bytes) + bytes % half_bytes,
            bytes % half_bytes >= 0,
    ;
}

} // verus!
