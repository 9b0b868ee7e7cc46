//! Laying tensors out again, one after the other, when one of them changes its
//! type and its size.

use crate::error::{Fault, WillametteError};
use crate::gguf::layout::aligned;
use crate::gguf::reader::align_offset;
use crate::gguf::tensor::TensorView;
use crate::gguf::types::GgmlType;
use crate::text::{cat2, owned, quote, quoted};
use vstd::prelude::*;

verus! {

/// What happens to one tensor.
#[derive(Debug, Clone, Copy, PartialEq, Eq, Structural)]
pub enum TensorAction {
    /// Its bytes are copied.
    Copy,
    /// Its half-precision values are quantised to Q6_K.
    QuantizeF16ToQ6K,
}

/// The place of one tensor in the output.
#[derive(Debug, Clone, Copy)]
pub struct PlannedTensor {
    /// The tensor's number in the source directory.
    pub source_index: usize,
    /// Where the bytes that go with the tensor end in the source: at the next
    /// tensor, or at the end of the file.
    pub source_slot_end: u64,
    /// Where the tensor starts in the output, from the start of tensor data.
    pub output_relative_offset: u64,
    pub output_type: GgmlType,
    /// The bytes of the tensor in the output, without what follows it.
    pub output_primary_bytes: u64,
    pub action: TensorAction,
}

/// What a relink depends on: the tensors of the source in the order in which
/// they lie there, and the one that changes.
pub struct Relink {
    pub tensors: Seq<Piece>,
    /// `order[p]` is the number of the tensor that lies in place `p`.
    pub order: Seq<usize>,
    pub source_len: int,
    pub start: int,
    pub alignment: int,
    /// The tensor that changes.
    pub chosen: int,
    pub chosen_type: GgmlType,
    pub chosen_bytes: int,
}

/// One tensor of the source.
pub struct Piece {
    pub name: Seq<char>,
    pub ggml_type: GgmlType,
    pub offset: int,
    pub len: int,
}

/// The tensors of a file as pieces.
pub open spec fn pieces(tensors: Seq<TensorView<'_>>) -> Seq<Piece> {
    tensors.map_values(
        |t: TensorView<'_>|
            Piece {
                name: t.name@,
                ggml_type: t.ggml_type,
                offset: t.offset as int,
                len: t.byte_len as int,
            },
    )
}

impl Relink {
    /// The tensor in a place.
    pub open spec fn at(self, p: int) -> Piece {
        self.tensors[self.order[p] as int]
    }

    /// Where the bytes that go with the tensor in a place end in the source.
    pub open spec fn slot_end(self, p: int) -> int {
        if p + 1 < self.order.len() {
            self.at(p + 1).offset
        } else {
            self.source_len
        }
    }

    /// How many bytes follow the tensor up to the end of its slot.
    pub open spec fn suffix(self, p: int) -> int {
        self.slot_end(p) - (self.at(p).offset + self.at(p).len)
    }

    /// The bytes of the tensor in the output.
    pub open spec fn primary(self, p: int) -> int {
        if self.order[p] == self.chosen {
            self.chosen_bytes
        } else {
            self.at(p).len
        }
    }

    /// The type of the tensor in the output.
    pub open spec fn output_type(self, p: int) -> GgmlType {
        if self.order[p] == self.chosen {
            self.chosen_type
        } else {
            self.at(p).ggml_type
        }
    }

    /// What happens to the tensor in a place.
    pub open spec fn action(self, p: int) -> TensorAction {
        if self.order[p] == self.chosen {
            TensorAction::QuantizeF16ToQ6K
        } else {
            TensorAction::Copy
        }
    }

    /// How far the first `p` slots reach in the output.
    pub open spec fn reach(self, p: int) -> int
        decreases p, 0int,
    {
        if p <= 0 {
            0
        } else {
            self.place(p - 1) + self.primary(p - 1) + self.suffix(p - 1)
        }
    }

    /// Where the slot in a place starts in the output, from the start of the
    /// tensor data.
    pub open spec fn place(self, p: int) -> int
        decreases p, 1int,
    {
        aligned(self.reach(p), self.alignment)
    }

    /// The bytes from a slot up to the next one, padding included.
    pub open spec fn slot(self, p: int) -> int {
        if p + 1 < self.order.len() {
            self.place(p + 1) - self.place(p)
        } else {
            self.primary(p) + self.suffix(p)
        }
    }

    /// The size of the output.
    pub open spec fn output_len(self) -> int {
        self.start + self.reach(self.order.len() as int)
    }

    /// The first number that does not fit in 64 bits, when the slots are laid
    /// out one after the other.
    pub open spec fn slot_fault(self, p: int) -> Option<Fault> {
        let name = self.at(p).name;
        if self.place(p) > u64::MAX {
            Some(Fault::GgufParse("artifact tensor offset overflow"@))
        } else if self.primary(p) + self.suffix(p) > u64::MAX {
            Some(Fault::GgufParse("artifact slot size overflow at "@ + quoted(name)))
        } else if self.place(p) + (self.primary(p) + self.suffix(p)) > u64::MAX {
            Some(Fault::GgufParse("artifact offset overflow after "@ + quoted(name)))
        } else if self.start + self.place(p) > u64::MAX {
            Some(Fault::GgufParse("artifact absolute tensor offset overflow"@))
        } else {
            None
        }
    }

    /// The first fault among the first `p` slots.
    pub open spec fn slots_fault(self, p: int) -> Option<Fault>
        decreases p,
    {
        if p <= 0 {
            None
        } else if self.slots_fault(p - 1) is Some {
            self.slots_fault(p - 1)
        } else {
            self.slot_fault(p - 1)
        }
    }

    /// What keeps the output from being laid out.
    pub open spec fn fault(self) -> Option<Fault> {
        if self.slots_fault(self.order.len() as int) is Some {
            self.slots_fault(self.order.len() as int)
        } else if self.output_len() > u64::MAX {
            Some(Fault::GgufParse("artifact size overflow"@))
        } else {
            None
        }
    }

    /// The order lists every tensor once, by rising offset, and the tensors lie
    /// apart from each other between the start of tensor data and the end of
    /// the source.
    pub open spec fn wf(self) -> bool {
        &&& self.order.len() == self.tensors.len()
        &&& self.alignment > 0
        &&& 0 <= self.start
        &&& 0 <= self.source_len <= u64::MAX
        &&& 0 <= self.chosen_bytes
        &&& forall|p: int| 0 <= p < self.order.len() ==> #[trigger] self.order[p] < self.tensors.len()
        &&& forall|i: int|
            0 <= i < self.tensors.len() ==> #[trigger] self.order.contains(i as usize)
        &&& forall|p: int, q: int|
            #![trigger self.at(p), self.at(q)]
            0 <= p < q < self.order.len() ==> self.at(p).offset < self.at(q).offset
        &&& forall|i: int|
            #![trigger self.tensors[i]]
            0 <= i < self.tensors.len() ==> self.start <= self.tensors[i].offset && 0
                <= self.tensors[i].len && self.tensors[i].offset + self.tensors[i].len
                <= self.source_len
        &&& forall|i: int, j: int|
            #![trigger self.tensors[i], self.tensors[j]]
            0 <= i < self.tensors.len() && 0 <= j < self.tensors.len()
                && self.tensors[i].offset < self.tensors[j].offset ==> self.tensors[i].offset
                + self.tensors[i].len <= self.tensors[j].offset
    }

    /// `t` is the plan for the tensor in a place.
    pub open spec fn plans(self, t: PlannedTensor, p: int) -> bool {
        &&& t.source_index == self.order[p]
        &&& t.source_slot_end == self.slot_end(p)
        &&& t.output_relative_offset == self.place(p)
        &&& t.output_type == self.output_type(p)
        &&& t.output_primary_bytes == self.primary(p)
        &&& t.action == self.action(p)
    }
}

/// The bytes behind a tensor in its slot are not negative in number.
pub proof fn slots_hold_their_tensors(r: Relink, p: int)
    requires
        r.wf(),
        0 <= p < r.order.len(),
    ensures
        r.suffix(p) >= 0,
        r.at(p).len >= 0,
        r.slot_end(p) <= r.source_len,
{
    let i = r.order[p] as int;
    assert(r.tensors[i].offset + r.tensors[i].len <= r.source_len);
    if p + 1 < r.order.len() {
        let j = r.order[p + 1] as int;
        assert(r.at(p).offset < r.at(p + 1).offset);
        assert(r.tensors[i].offset + r.tensors[i].len <= r.tensors[j].offset);
        assert(r.tensors[j].offset + r.tensors[j].len <= r.source_len);
    }
}

/// How far the slots reach grows from slot to slot.
proof fn lemma_reach_nonneg(r: Relink, p: int)
    requires
        r.wf(),
        0 <= p <= r.order.len(),
    ensures
        0 <= r.reach(p),
        p < r.order.len() ==> r.reach(p) <= r.place(p),
    decreases p,
{
    if p > 0 {
        lemma_reach_nonneg(r, p - 1);
        slots_hold_their_tensors(r, p - 1);
    }
    if p < r.order.len() {
        crate::gguf::laws::alignment_reaches_the_next_multiple(r.reach(p), r.alignment);
    }
}

/// Every slot of the output starts at a multiple of the alignment, counted
/// from the start of tensor data, and holds its tensor and what follows it;
/// the next slot starts behind it, less than one alignment further on.
pub proof fn slots_are_aligned_and_apart(r: Relink, p: int)
    requires
        r.wf(),
        0 <= p < r.order.len(),
    ensures
        0 <= r.place(p),
        r.place(p) % r.alignment == 0,
        r.place(p) + r.primary(p) + r.suffix(p) == r.reach(p + 1),
        p + 1 < r.order.len() ==> r.reach(p + 1) <= r.place(p + 1) < r.reach(p + 1)
            + r.alignment,
{
    lemma_reach_nonneg(r, p);
    slots_hold_their_tensors(r, p);
    crate::gguf::laws::alignment_reaches_the_next_multiple(r.reach(p), r.alignment);
    if p + 1 < r.order.len() {
        lemma_reach_nonneg(r, p + 1);
        crate::gguf::laws::alignment_reaches_the_next_multiple(r.reach(p + 1), r.alignment);
    }
}

/// A slot that cannot be laid out stops the layout.
proof fn lemma_slots_stop(r: Relink, n: int, m: int)
    requires
        0 <= n <= m,
        r.slots_fault(n) is Some,
    ensures
        r.slots_fault(m) == r.slots_fault(n),
    decreases m - n,
{
    if n < m {
        lemma_slots_stop(r, n, m - 1);
    }
}

/// The numbers of the tensors by rising offset.
pub(crate) fn physical_order(tensors: &Vec<TensorView<'_>>) -> (order: Vec<usize>)
    requires
        forall|i: int, j: int|
            0 <= i < j < tensors@.len() ==> (#[trigger] tensors@[i]).offset != (
            #[trigger] tensors@[j]).offset,
    ensures
        order@.len() == tensors@.len(),
        forall|p: int| 0 <= p < order@.len() ==> #[trigger] order@[p] < tensors@.len(),
        forall|i: int| 0 <= i < tensors@.len() ==> #[trigger] order@.contains(i as usize),
        forall|p: int, q: int|
            0 <= p < q < order@.len() ==> tensors@[#[trigger] order@[p] as int].offset
                < tensors@[#[trigger] order@[q] as int].offset,
{
    let mut order: Vec<usize> = Vec::new();
    let mut i: usize = 0;
    while i < tensors.len()
        invariant
            i <= tensors.len(),
            forall|a: int, b: int|
                0 <= a < b < tensors@.len() ==> (#[trigger] tensors@[a]).offset != (
                #[trigger] tensors@[b]).offset,
            order@.len() == i,
            forall|p: int| 0 <= p < order@.len() ==> #[trigger] order@[p] < i,
            forall|k: int| 0 <= k < i ==> #[trigger] order@.contains(k as usize),
            forall|p: int, q: int|
                0 <= p < q < order@.len() ==> tensors@[#[trigger] order@[p] as int].offset
                    < tensors@[#[trigger] order@[q] as int].offset,
        decreases tensors.len() - i,
    {
        let mut at: usize = 0;
        while at < order.len() && tensors[order[at]].offset < tensors[i].offset
            invariant
                at <= order.len(),
                i < tensors.len(),
                forall|p: int| 0 <= p < order@.len() ==> #[trigger] order@[p] < i,
                forall|p: int|
                    0 <= p < at ==> tensors@[#[trigger] order@[p] as int].offset
                        < tensors@[i as int].offset,
            decreases order.len() - at,
        {
            at = at + 1;
        }
        let ghost before = order@;
        proof {
            assert forall|p: int| at <= p < before.len() implies tensors@[i as int].offset
                < tensors@[#[trigger] before[p] as int].offset by {
                assert(tensors@[before[at as int] as int].offset
                    != tensors@[i as int].offset);
                if at < p {
                    assert(tensors@[before[at as int] as int].offset
                        < tensors@[before[p] as int].offset);
                }
            }
        }
        order.insert(at, i);
        proof {
            assert forall|k: int| 0 <= k < i + 1 implies #[trigger] order@.contains(
                k as usize,
            ) by {
                if k == i {
                    assert(order@[at as int] == k as usize);
                } else {
                    assert(before.contains(k as usize));
                    let p = choose|p: int| 0 <= p < before.len() && before[p] == k as usize;
                    if p < at {
                        assert(order@[p] == k as usize);
                    } else {
                        assert(order@[p + 1] == k as usize);
                    }
                }
            }
            assert forall|p: int, q: int| 0 <= p < q < order@.len() implies tensors@[
                #[trigger] order@[p] as int].offset < tensors@[
                #[trigger] order@[q] as int].offset by {
                let p0 = if p < at {
                    p
                } else {
                    p - 1
                };
                let q0 = if q < at {
                    q
                } else {
                    q - 1
                };
                if p != at && q != at {
                    assert(order@[p] == before[p0] && order@[q] == before[q0]);
                } else if p == at {
                    assert(order@[q] == before[q0]);
                } else {
                    assert(order@[p] == before[p0]);
                }
            }
        }
        i = i + 1;
    }
    order
}

/// Lays the slots out one after the other, and gives the size of the output
/// with them.
pub(crate) fn lay_out(
    tensors: &Vec<TensorView<'_>>,
    order: &Vec<usize>,
    source_len: u64,
    start: u64,
    alignment: u64,
    chosen: usize,
    chosen_type: GgmlType,
    chosen_bytes: u64,
) -> (r: Result<(Vec<PlannedTensor>, u64), WillametteError>)
    requires
        (Relink {
            tensors: pieces(tensors@),
            order: order@,
            source_len: source_len as int,
            start: start as int,
            alignment: alignment as int,
            chosen: chosen as int,
            chosen_type,
            chosen_bytes: chosen_bytes as int,
        }).wf(),
    ensures
        ({
            let relink = Relink {
                tensors: pieces(tensors@),
                order: order@,
                source_len: source_len as int,
                start: start as int,
                alignment: alignment as int,
                chosen: chosen as int,
                chosen_type,
                chosen_bytes: chosen_bytes as int,
            };
            match r {
                Ok((planned, size)) => {
                    &&& relink.fault() is None
                    &&& size == relink.output_len()
                    &&& planned@.len() == order@.len()
                    &&& forall|p: int|
                        0 <= p < planned@.len() ==> relink.plans(#[trigger] planned@[p], p)
                },
                Err(e) => relink.fault() == Some(e@),
            }
        }),
{
    let ghost relink = Relink {
        tensors: pieces(tensors@),
        order: order@,
        source_len: source_len as int,
        start: start as int,
        alignment: alignment as int,
        chosen: chosen as int,
        chosen_type,
        chosen_bytes: chosen_bytes as int,
    };
    let mut planned: Vec<PlannedTensor> = Vec::new();
    let mut running: u64 = 0;
    let mut p: usize = 0;
    while p < order.len()
        invariant
            p <= order.len(),
            relink.wf(),
            relink.tensors == pieces(tensors@),
            relink.order == order@,
            relink.source_len == source_len,
            relink.start == start,
            relink.alignment == alignment,
            relink.chosen == chosen,
            relink.chosen_type == chosen_type,
            relink.chosen_bytes == chosen_bytes,
            running == relink.reach(p as int),
            relink.slots_fault(p as int) is None,
            planned@.len() == p,
            forall|k: int| 0 <= k < p ==> relink.plans(#[trigger] planned@[k], k),
        decreases order.len() - p,
    {
        let index: usize = order[p];
        proof {
            slots_hold_their_tensors(relink, p as int);
            lemma_reach_nonneg(relink, p as int);
            assert(index < relink.tensors.len());
        }
        let tensor = &tensors[index];
        proof {
            assert(relink.at(p as int) == relink.tensors[index as int]);
            assert(relink.at(p as int).name == tensor.name@);
            assert(relink.at(p as int).offset == tensor.offset);
            assert(relink.at(p as int).len == tensor.byte_len);
            if relink.slot_fault(p as int) is Some {
                lemma_slots_stop(relink, p + 1, order@.len() as int);
            }
        }
        let slot_end: u64 = if p + 1 < order.len() {
            let next: usize = order[p + 1];
            proof {
                assert(relink.at(p + 1) == relink.tensors[next as int]);
            }
            tensors[next].offset
        } else {
            source_len
        };
        let suffix: u64 = slot_end - (tensor.offset + tensor.byte_len);
        let place: u64 = match align_offset(running, alignment) {
            Some(n) => n,
            None => {
                return Err(
                    WillametteError::GgufParse(owned("artifact tensor offset overflow")),
                );
            },
        };
        let primary: u64 = if index == chosen {
            chosen_bytes
        } else {
            tensor.byte_len
        };
        let slot: u64 = match primary.checked_add(suffix) {
            Some(n) => n,
            None => {
                let name = quote(tensor.name.as_str());
                return Err(
                    WillametteError::GgufParse(
                        cat2("artifact slot size overflow at ", name.as_str()),
                    ),
                );
            },
        };
        running = match place.checked_add(slot) {
            Some(n) => n,
            None => {
                let name = quote(tensor.name.as_str());
                return Err(
                    WillametteError::GgufParse(
                        cat2("artifact offset overflow after ", name.as_str()),
                    ),
                );
            },
        };
        if start.checked_add(place).is_none() {
            return Err(
                WillametteError::GgufParse(owned("artifact absolute tensor offset overflow")),
            );
        }
        planned.push(
            PlannedTensor {
                source_index: index,
                source_slot_end: slot_end,
                output_relative_offset: place,
                output_type: if index == chosen {
                    chosen_type
                } else {
                    tensor.ggml_type
                },
                output_primary_bytes: primary,
                action: if index == chosen {
                    TensorAction::QuantizeF16ToQ6K
                } else {
                    TensorAction::Copy
                },
            },
        );
        p = p + 1;
    }
    match start.checked_add(running) {
        Some(size) => Ok((planned, size)),
        None => Err(WillametteError::GgufParse(owned("artifact size overflow"))),
    }
}

} // verus!
