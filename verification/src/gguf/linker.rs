//! Planning a file in which the embeddings are stored in Q6_K, and giving the
//! pieces that it is made of.

use crate::error::{Fault, WillametteError};
use crate::gguf::bytes::le16;
use crate::gguf::laws::{lemma_directory_bounds, tensors_lie_apart, tensors_lie_in_the_file};
use crate::gguf::layout::{directory_of, file_fault};
use crate::gguf::reader::GgufFile;
use crate::gguf::relink::{lay_out, physical_order, pieces, slots_are_aligned_and_apart, slots_hold_their_tensors, Relink};
use crate::gguf::tensor::{
    block_bytes, block_fault, finite_bits, is_finite_bits, non_finite_name, non_finite_text,
    TensorView,
};
use crate::gguf::types::GgmlType;
use crate::model::config::first;
use crate::model::graph::{graph_fault, lookup, ModelGraph};
use crate::model::primitives::{f16_to_f32, widened, widening_keeps_finiteness};
use crate::text::{cat3, cat6, dec, decimal, owned, quote, quoted, same_text};
use vstd::prelude::*;

pub use crate::gguf::relink::{PlannedTensor, TensorAction};

verus! {

/// What a relink does.
#[derive(Debug, Clone, Copy, PartialEq, Eq, Structural)]
pub enum ArtifactProfile {
    /// Stores the embeddings, which the last projection must share, in Q6_K.
    EmbeddingQ6K,
}

impl ArtifactProfile {
    /// The name of the profile.
    pub fn as_str(self) -> (s: &'static str)
        ensures
            s@ == "embedding-q6-k"@,
    {
        match self {
            ArtifactProfile::EmbeddingQ6K => "embedding-q6-k",
        }
    }

    /// The profile with a name.
    pub fn from_name(value: &str) -> (r: Result<Self, String>)
        ensures
            match r {
                Ok(p) => value@ == "embedding-q6-k"@ && p == ArtifactProfile::EmbeddingQ6K,
                Err(e) => value@ != "embedding-q6-k"@ && e@ == "unsupported artifact profile "@
                    + quoted(value@) + "; expected embedding-q6-k"@,
            },
    {
        if same_text(value, "embedding-q6-k") {
            Ok(ArtifactProfile::EmbeddingQ6K)
        } else {
            let shown = quote(value);
            Err(
                cat3(
                    "unsupported artifact profile ",
                    shown.as_str(),
                    "; expected embedding-q6-k",
                ),
            )
        }
    }
}

/// A tensor that is stored in another way.
#[derive(Debug)]
pub struct TensorChange {
    pub name: String,
    pub source_type: GgmlType,
    pub output_type: GgmlType,
    pub source_bytes: u64,
    pub output_bytes: u64,
    pub source_offset: u64,
    pub output_offset: u64,
}

/// Where a tensor lies in the source and in the output.
#[derive(Debug)]
pub struct TensorPlan {
    pub name: String,
    pub action: TensorAction,
    pub source_type: GgmlType,
    pub output_type: GgmlType,
    pub source_offset: u64,
    pub output_offset: u64,
    pub source_primary_bytes: u64,
    pub output_primary_bytes: u64,
    /// From the tensor to the next one in the source, or to the end.
    pub source_slot_bytes: u64,
    /// From the tensor to the next one in the output, or to the end.
    pub output_slot_bytes: u64,
}

/// The layout of an output file.
#[derive(Debug)]
pub struct LinkPlan {
    pub profile: ArtifactProfile,
    pub architecture: String,
    pub source_bytes: u64,
    pub output_bytes: u64,
    pub alignment: u64,
    pub tensor_count: u64,
    pub tensors: Vec<TensorPlan>,
    pub changes: Vec<TensorChange>,
}

/// What was written.
#[derive(Debug)]
pub struct LinkReport {
    pub plan: LinkPlan,
}

/// The bits of element `i` of a half-precision tensor, in single precision.
pub open spec fn half_element(data: Seq<u8>, i: int) -> u32 {
    widened(le16(data.skip(2 * i)) as u16) as u32
}

/// The first of the first `n` elements that is not finite.
pub open spec fn non_finite_element(data: Seq<u8>, n: int) -> Option<int>
    decreases n,
{
    if n <= 0 {
        None
    } else if non_finite_element(data, n - 1) is Some {
        non_finite_element(data, n - 1)
    } else if !finite_bits(half_element(data, n - 1)) {
        Some(n - 1)
    } else {
        None
    }
}

/// Why a half-precision tensor holds something other than numbers.
pub open spec fn finite_fault(t: TensorView<'_>) -> Option<Fault> {
    match non_finite_element(t.data@, t.data@.len() as int / 2) {
        None => None,
        Some(i) => Some(
            Fault::GgufParse(
                "tensor "@ + quoted(t.name@) + " contains non-finite value "@ + non_finite_text(
                    half_element(t.data@, i),
                ) + " at element "@ + dec(i),
            ),
        ),
    }
}

/// Why embeddings cannot be stored in Q6_K.
pub open spec fn embedding_fault(t: TensorView<'_>) -> Option<Fault> {
    if t.ggml_type != GgmlType::F16 || t.shape@.len() != 2 {
        Some(Fault::GgufParse("token_embd.weight must be a 2-D F16 tensor"@))
    } else if t.shape@[0] == 0 {
        Some(Fault::GgufParse("token_embd.weight row width must be greater than zero"@))
    } else {
        match block_fault(t.shape@, 256, 210, "Q6_K"@) {
            Some(e) => Some(Fault::GgufParse(e)),
            None => finite_fault(t),
        }
    }
}

/// `order` lists the numbers of all tensors by rising offset.
pub open spec fn is_order(order: Seq<usize>, ts: Seq<TensorView<'_>>) -> bool {
    &&& order.len() == ts.len()
    &&& forall|p: int| 0 <= p < order.len() ==> #[trigger] order[p] < ts.len()
    &&& forall|i: int| 0 <= i < ts.len() ==> #[trigger] order.contains(i as usize)
    &&& forall|p: int, q: int|
        0 <= p < q < order.len() ==> ts[#[trigger] order[p] as int].offset
            < ts[#[trigger] order[q] as int].offset
}

/// The relink of a file whose embeddings are stored in Q6_K.
pub open spec fn relink_of(file: GgufFile<'_>, source_len: int, order: Seq<usize>) -> Relink {
    let chosen = lookup(file.tensors@, "token_embd.weight"@)->0;
    Relink {
        tensors: pieces(file.tensors@),
        order,
        source_len,
        start: file.data_section_start as int,
        alignment: file.alignment as int,
        chosen,
        chosen_type: GgmlType::Q6K,
        chosen_bytes: block_bytes(file.tensors@[chosen].shape@, 256, 210),
    }
}

/// Why the model in a file does not fit the profile.
pub open spec fn profile_fault(file: GgufFile<'_>) -> Option<Fault> {
    first(
        graph_fault(file.metadata@, file.tensors@),
        if lookup(file.tensors@, "output.weight"@) is Some {
            Some(Fault::GgufParse("embedding-q6-k requires no separate output.weight tensor"@))
        } else {
            embedding_fault(file.tensors@[lookup(file.tensors@, "token_embd.weight"@)->0])
        },
    )
}

/// `e` is why no artifact can be made from a file.
pub open spec fn plan_fails(file: GgufFile<'_>, source_len: int, e: Fault) -> bool {
    if profile_fault(file) is Some {
        profile_fault(file) == Some(e)
    } else {
        exists|order: Seq<usize>| #[trigger]
            is_order(order, file.tensors@) && relink_of(file, source_len, order).fault() == Some(e)
    }
}

/// `t` is the plan for the tensor in a place.
pub open spec fn is_tensor_plan(t: TensorPlan, r: Relink, p: int) -> bool {
    &&& t.name@ == r.at(p).name
    &&& t.action == r.action(p)
    &&& t.source_type == r.at(p).ggml_type
    &&& t.output_type == r.output_type(p)
    &&& t.source_offset == r.at(p).offset
    &&& t.output_offset == r.start + r.place(p)
    &&& t.source_primary_bytes == r.at(p).len
    &&& t.output_primary_bytes == r.primary(p)
    &&& t.source_slot_bytes == r.slot_end(p) - r.at(p).offset
    &&& t.output_slot_bytes == r.slot(p)
}

/// `c` is the change of the tensor in a place.
pub open spec fn is_change(c: TensorChange, r: Relink, p: int) -> bool {
    &&& r.order[p] == r.chosen
    &&& c.name@ == r.at(p).name
    &&& c.source_type == r.at(p).ggml_type
    &&& c.output_type == r.chosen_type
    &&& c.source_bytes == r.at(p).len
    &&& c.output_bytes == r.chosen_bytes
    &&& c.source_offset == r.at(p).offset
    &&& c.output_offset == r.start + r.place(p)
}

/// `plan` is the layout that a relink gives.
pub open spec fn is_plan(
    plan: LinkPlan,
    file: GgufFile<'_>,
    source_len: int,
    order: Seq<usize>,
) -> bool {
    let r = relink_of(file, source_len, order);
    &&& plan.profile == ArtifactProfile::EmbeddingQ6K
    &&& plan.architecture@ == crate::model::graph::stated_dims(file.metadata@).name
    &&& plan.source_bytes == source_len
    &&& plan.output_bytes == r.output_len()
    &&& plan.alignment == file.alignment
    &&& plan.tensor_count == file.tensor_count
    &&& plan.tensors@.len() == order.len()
    &&& forall|p: int|
        0 <= p < plan.tensors@.len() ==> is_tensor_plan(#[trigger] plan.tensors@[p], r, p)
    &&& plan.changes@.len() == 1
    &&& exists|p: int| 0 <= p < order.len() && #[trigger] is_change(plan.changes@[0], r, p)
}

/// Checks that a half-precision tensor holds numbers alone.
fn validate_finite_f16(tensor: &TensorView<'_>) -> (r: Result<(), WillametteError>)
    ensures
        match r {
            Ok(_) => finite_fault(*tensor) is None,
            Err(e) => finite_fault(*tensor) == Some(e@),
        },
{
    let n: usize = tensor.data.len() / 2;
    let mut i: usize = 0;
    while i < n
        invariant
            i <= n,
            n == tensor.data@.len() / 2,
            tensor.data@.len() <= usize::MAX,
            non_finite_element(tensor.data@, i as int) is None,
        decreases n - i,
    {
        let lo = tensor.data[2 * i] as u16;
        let hi = tensor.data[2 * i + 1] as u16;
        let half: u16 = lo + 0x100 * hi;
        proof {
            let s = tensor.data@.skip(2 * i);
            assert(s[0] == lo && s[1] == hi);
            widening_keeps_finiteness(half);
        }
        let bits: u32 = f16_to_f32(half);
        if !is_finite_bits(bits) {
            let name = quote(tensor.name.as_str());
            let value = non_finite_name(bits);
            let index = decimal(i as u64);
            proof {
                lemma_non_finite_stays(tensor.data@, i + 1, n as int);
            }
            return Err(
                WillametteError::GgufParse(
                    cat6(
                        "tensor ",
                        name.as_str(),
                        " contains non-finite value ",
                        value.as_str(),
                        " at element ",
                        index.as_str(),
                    ),
                ),
            );
        }
        i = i + 1;
    }
    Ok(())
}

/// The first element that is not finite stays the first.
proof fn lemma_non_finite_stays(data: Seq<u8>, n: int, m: int)
    requires
        0 <= n <= m,
        non_finite_element(data, n) is Some,
    ensures
        non_finite_element(data, m) == non_finite_element(data, n),
    decreases m - n,
{
    if n < m {
        lemma_non_finite_stays(data, n, m - 1);
    }
}

/// Checks embeddings that are to be stored in Q6_K, and gives their size there.
pub fn validate_q6k_embedding(embedding: &TensorView<'_>) -> (r: Result<u64, WillametteError>)
    ensures
        match r {
            Ok(n) => embedding_fault(*embedding) is None && n == block_bytes(
                embedding.shape@,
                256,
                210,
            ),
            Err(e) => embedding_fault(*embedding) == Some(e@),
        },
{
    if embedding.ggml_type != GgmlType::F16 || embedding.shape.len() != 2 {
        return Err(
            WillametteError::GgufParse(owned("token_embd.weight must be a 2-D F16 tensor")),
        );
    }
    if embedding.shape[0] == 0 {
        return Err(
            WillametteError::GgufParse(
                owned("token_embd.weight row width must be greater than zero"),
            ),
        );
    }
    let output_bytes: u64 = match TensorView::q6k_expected_byte_len(embedding.shape.as_slice()) {
        Ok(n) => n,
        Err(e) => {
            return Err(e);
        },
    };
    match validate_finite_f16(embedding) {
        Ok(_) => Ok(output_bytes),
        Err(e) => Err(e),
    }
}

/// Checks a file against the profile; gives the architecture, the number of
/// the tensor that changes, and its size in the output.
fn profile_transform<'a>(gguf: &'a GgufFile<'a>) -> (r: Result<
    (String, usize, u64),
    WillametteError,
>)
    requires
        gguf.metadata.wf(),
    ensures
        match r {
            Ok((name, chosen, bytes)) => {
                &&& profile_fault(*gguf) is None
                &&& name@ == crate::model::graph::stated_dims(gguf.metadata@).name
                &&& lookup(gguf.tensors@, "token_embd.weight"@) == Some(chosen as int)
                &&& chosen < gguf.tensors@.len()
                &&& bytes == block_bytes(gguf.tensors@[chosen as int].shape@, 256, 210)
            },
            Err(e) => profile_fault(*gguf) == Some(e@),
        },
{
    let graph = match ModelGraph::from_gguf(gguf) {
        Ok(g) => g,
        Err(e) => {
            return Err(e);
        },
    };
    proof {
        crate::model::graph::tied_models(graph, gguf.metadata@, gguf.tensors@);
    }
    if !graph.lm_head_is_tied() || graph.has_output_weight_tensor {
        return Err(
            WillametteError::GgufParse(
                owned("embedding-q6-k requires no separate output.weight tensor"),
            ),
        );
    }
    proof {
        crate::model::graph::lemma_lookup_in_bounds(gguf.tensors@, "token_embd.weight"@);
    }
    match validate_q6k_embedding(graph.token_embd) {
        Ok(bytes) => Ok((graph.config.architecture.clone(), graph.token_embd_index, bytes)),
        Err(e) => Err(e),
    }
}

/// A file that was read, with any order of its tensors by offset, gives a
/// relink in order.
pub(crate) proof fn lemma_relink_in_order(
    file: GgufFile<'_>,
    source: Seq<u8>,
    order: Seq<usize>,
)
    requires
        file_fault(source) is None,
        file.describes(source),
        source.len() <= u64::MAX,
        is_order(order, file.tensors@),
        relink_of(file, source.len() as int, order).chosen_bytes >= 0,
    ensures
        relink_of(file, source.len() as int, order).wf(),
{
    let r = relink_of(file, source.len() as int, order);
    let ts = file.tensors@;
    crate::gguf::reader::lemma_power_of_two_positive(file.alignment as int);
    lemma_directory_bounds(source);
    assert(r.start >= 0);
    assert forall|i: int| #![trigger r.tensors[i]] 0 <= i < r.tensors.len() implies r.start
        <= r.tensors[i].offset && 0 <= r.tensors[i].len && r.tensors[i].offset + r.tensors[i].len
        <= r.source_len by {
        assert(crate::gguf::reader::is_tensor_of(ts[i], source, i));
        tensors_lie_in_the_file(source, i);
    }
    assert forall|i: int, j: int|
        #![trigger r.tensors[i], r.tensors[j]]
        0 <= i < r.tensors.len() && 0 <= j < r.tensors.len() && r.tensors[i].offset
            < r.tensors[j].offset implies r.tensors[i].offset + r.tensors[i].len
        <= r.tensors[j].offset by {
        assert(crate::gguf::reader::is_tensor_of(ts[i], source, i));
        assert(crate::gguf::reader::is_tensor_of(ts[j], source, j));
        tensors_lie_apart(source, i, j);
        tensors_lie_in_the_file(source, j);
        tensors_lie_in_the_file(source, i);
    }
    assert forall|p: int, q: int|
        #![trigger r.at(p), r.at(q)]
        0 <= p < q < r.order.len() implies r.at(p).offset < r.at(q).offset by {
        assert(ts[order[p] as int].offset < ts[order[q] as int].offset);
    }
}

/// The public plans of all tensors and of the one that changes.
fn describe_plan(
    tensors: &Vec<TensorView<'_>>,
    planned: &Vec<PlannedTensor>,
    start: u64,
    chosen: usize,
    Ghost(r): Ghost<Relink>,
) -> (out: (Vec<TensorPlan>, Vec<TensorChange>))
    requires
        r.wf(),
        r.fault() is None,
        r.tensors == pieces(tensors@),
        r.start == start,
        r.chosen == chosen,
        chosen < tensors@.len(),
        planned@.len() == r.order.len(),
        forall|p: int| 0 <= p < planned@.len() ==> r.plans(#[trigger] planned@[p], p),
    ensures
        out.0@.len() == r.order.len(),
        forall|p: int| 0 <= p < out.0@.len() ==> is_tensor_plan(#[trigger] out.0@[p], r, p),
        out.1@.len() == 1,
        exists|p: int| 0 <= p < r.order.len() && #[trigger] is_change(out.1@[0], r, p),
{
    let mut plans: Vec<TensorPlan> = Vec::new();
    let mut changes: Vec<TensorChange> = Vec::new();
    let mut p: usize = 0;
    while p < planned.len()
        invariant
            p <= planned.len(),
            r.wf(),
            r.fault() is None,
            r.tensors == pieces(tensors@),
            r.start == start,
            r.chosen == chosen,
            planned@.len() == r.order.len(),
            forall|k: int| 0 <= k < planned@.len() ==> r.plans(#[trigger] planned@[k], k),
            plans@.len() == p,
            forall|k: int| 0 <= k < p ==> is_tensor_plan(#[trigger] plans@[k], r, k),
            changes@.len() <= 1,
            changes@.len() == 1 ==> exists|k: int|
                0 <= k < p && #[trigger] is_change(changes@[0], r, k),
            changes@.len() == 0 ==> forall|k: int| 0 <= k < p ==> #[trigger] r.order[k] != chosen,
            changes@.len() == 1 ==> exists|k: int| 0 <= k < p && #[trigger] r.order[k] == chosen,
        decreases planned.len() - p,
    {
        let item = planned[p];
        proof {
            assert(r.plans(item, p as int));
            slots_hold_their_tensors(r, p as int);
            slots_are_aligned_and_apart(r, p as int);
            lemma_no_slot_fault(r, r.order.len() as int, p as int);
            assert(r.order[p as int] < r.tensors.len());
        }
        let tensor = &tensors[item.source_index];
        proof {
            assert(r.at(p as int) == r.tensors[item.source_index as int]);
            assert(r.at(p as int).offset == tensor.offset);
        }
        let output_offset: u64 = start + item.output_relative_offset;
        let output_slot_bytes: u64 = if p + 1 < planned.len() {
            proof {
                assert(r.plans(planned@[p + 1], p + 1));
                slots_are_aligned_and_apart(r, p + 1);
            }
            planned[p + 1].output_relative_offset - item.output_relative_offset
        } else {
            item.output_primary_bytes + (item.source_slot_end - (tensor.offset + tensor.byte_len))
        };
        if item.source_index == chosen {
            let change = TensorChange {
                name: tensor.name.clone(),
                source_type: tensor.ggml_type,
                output_type: item.output_type,
                source_bytes: tensor.byte_len,
                output_bytes: item.output_primary_bytes,
                source_offset: tensor.offset,
                output_offset,
            };
            proof {
                assert(is_change(change, r, p as int));
                if changes@.len() == 1 {
                    let k = choose|k: int| 0 <= k < p && #[trigger] r.order[k] == chosen;
                    assert(r.at(k).offset < r.at(p as int).offset);
                }
            }
            changes.push(change);
            proof {
                assert(changes@[0] == change);
                assert(is_change(changes@[0], r, p as int));
            }
        }
        plans.push(
            TensorPlan {
                name: tensor.name.clone(),
                action: item.action,
                source_type: tensor.ggml_type,
                output_type: item.output_type,
                source_offset: tensor.offset,
                output_offset,
                source_primary_bytes: tensor.byte_len,
                output_primary_bytes: item.output_primary_bytes,
                source_slot_bytes: item.source_slot_end - tensor.offset,
                output_slot_bytes,
            },
        );
        p = p + 1;
    }
    proof {
        assert(r.tensors.len() == tensors@.len());
        assert(r.order.contains((chosen as int) as usize));
        let at = choose|k: int| 0 <= k < r.order.len() && r.order[k] == chosen;
        assert(r.order[at] == chosen);
        assert(changes@.len() == 1);
    }
    let ghost at = choose|k: int| 0 <= k < p && #[trigger] is_change(changes@[0], r, k);
    let out = (plans, changes);
    proof {
        assert(is_change(out.1@[0], r, at));
        assert(0 <= at < r.order.len());
    }
    out
}

/// Where no slot has a fault, none of the first `n` has one.
pub(crate) proof fn lemma_no_slot_fault(r: Relink, n: int, p: int)
    requires
        r.slots_fault(n) is None,
        0 <= p < n,
    ensures
        r.slot_fault(p) is None,
    decreases n,
{
    if p < n - 1 {
        lemma_no_slot_fault(r, n - 1, p);
    }
}

/// Lays out the artifact of a file that was read.
pub(crate) fn build_plan<'a>(source: &'a [u8], gguf: &'a GgufFile<'a>, profile: ArtifactProfile) -> (r: Result<
    (LinkPlan, Vec<PlannedTensor>),
    WillametteError,
>)
    requires
        file_fault(source@) is None,
        gguf.describes(source@),
    ensures
        match r {
            Ok((plan, planned)) => {
                &&& profile_fault(*gguf) is None
                &&& planned@.len() == gguf.tensors@.len()
                &&& exists|order: Seq<usize>|
                    {
                        &&& #[trigger] is_order(order, gguf.tensors@)
                        &&& relink_of(*gguf, source@.len() as int, order).fault() is None
                        &&& is_plan(plan, *gguf, source@.len() as int, order)
                        &&& forall|p: int|
                            0 <= p < planned@.len() ==> relink_of(
                                *gguf,
                                source@.len() as int,
                                order,
                            ).plans(#[trigger] planned@[p], p)
                    }
            },
            Err(e) => plan_fails(*gguf, source@.len() as int, e@),
        },
{
    let (architecture, chosen, bytes) = match profile_transform(gguf) {
        Ok(t) => t,
        Err(e) => {
            return Err(e);
        },
    };
    let source_len: u64 = source.len() as u64;
    let tensors = &gguf.tensors;
    proof {
        assert forall|i: int, j: int| 0 <= i < j < tensors@.len() implies (
        #[trigger] tensors@[i]).offset != (#[trigger] tensors@[j]).offset by {
            assert(crate::gguf::reader::is_tensor_of(tensors@[i], source@, i));
            assert(crate::gguf::reader::is_tensor_of(tensors@[j], source@, j));
            crate::gguf::laws::lemma_usable(source@, i);
            assert(directory_of(source@)[j].relative_offset
                != directory_of(source@)[i].relative_offset);
        }
    }
    let order = physical_order(tensors);
    let ghost relink = relink_of(*gguf, source@.len() as int, order@);
    proof {
        assert(is_order(order@, tensors@));
        lemma_relink_in_order(*gguf, source@, order@);
    }
    let (planned, output_bytes) = match lay_out(
        tensors,
        &order,
        source_len,
        gguf.data_section_start,
        gguf.alignment,
        chosen,
        GgmlType::Q6K,
        bytes,
    ) {
        Ok(l) => l,
        Err(e) => {
            return Err(e);
        },
    };
    let (plans, changes) = describe_plan(
        tensors,
        &planned,
        gguf.data_section_start,
        chosen,
        Ghost(relink),
    );
    let plan = LinkPlan {
        profile,
        architecture,
        source_bytes: source_len,
        output_bytes,
        alignment: gguf.alignment,
        tensor_count: gguf.tensor_count,
        tensors: plans,
        changes,
    };
    proof {
        assert(is_plan(plan, *gguf, source@.len() as int, order@));
    }
    Ok((plan, planned))
}

/// `plan` is the layout of the artifact of a source.
pub open spec fn plans_source(plan: LinkPlan, source: Seq<u8>) -> bool {
    &&& file_fault(source) is None
    &&& exists|file: GgufFile<'_>, order: Seq<usize>|
        {
            &&& #[trigger] file.describes(source)
            &&& #[trigger] is_order(order, file.tensors@)
            &&& profile_fault(file) is None
            &&& relink_of(file, source.len() as int, order).fault() is None
            &&& is_plan(plan, file, source.len() as int, order)
        }
}

/// `e` is why a source has no artifact: it cannot be read, or its relink cannot be
/// planned.
pub open spec fn source_fails(source: Seq<u8>, e: Fault) -> bool {
    ||| file_fault(source) == Some(e)
    ||| file_fault(source) is None && exists|file: GgufFile<'_>| #[trigger]
        file.describes(source) && plan_fails(file, source.len() as int, e)
}

/// Checks a file against a profile and lays out the artifact. What the file
/// holds is settled by its bytes, so the outcome is too.
pub fn plan_artifact(source: &[u8], profile: ArtifactProfile) -> (r: Result<
    LinkPlan,
    WillametteError,
>)
    ensures
        match r {
            Ok(plan) => plans_source(plan, source@),
            Err(e) => source_fails(source@, e@),
        },
{
    let gguf = match GgufFile::parse(source) {
        Ok(f) => f,
        Err(e) => {
            return Err(e);
        },
    };
    match build_plan(source, &gguf, profile) {
        Ok((plan, _)) => Ok(plan),
        Err(e) => Err(e),
    }
}

} // verus!
