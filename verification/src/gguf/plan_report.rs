//! The plan of an artifact as text.

use crate::gguf::linker::{LinkPlan, TensorChange, TensorPlan};
use crate::gguf::relink::TensorAction;
use crate::gguf::types::ggml_name;
use crate::text::{cat2, cat6, dec, decimal, views};
use vstd::prelude::*;

verus! {

/// A change from one number to another.
pub open spec fn change_text(from: u64, to: u64) -> Seq<char> {
    dec(from as int) + " -> "@ + dec(to as int)
}

/// The line about a tensor that changes.
pub open spec fn changed_line(c: TensorChange) -> Seq<char> {
    "  "@ + c.name@ + ": "@ + ggml_name(c.source_type) + " -> "@ + ggml_name(c.output_type) + ", "@
        + change_text(c.source_bytes, c.output_bytes) + " bytes, offset "@ + change_text(
        c.source_offset,
        c.output_offset,
    )
}

/// What happens to a tensor.
pub open spec fn action_text(a: TensorAction) -> Seq<char> {
    match a {
        TensorAction::Copy => "copy"@,
        TensorAction::QuantizeF16ToQ6K => "f16-to-q6-k"@,
    }
}

/// The line about the place of a tensor.
pub open spec fn layout_line(t: TensorPlan) -> Seq<char> {
    "  "@ + t.name@ + ": "@ + action_text(t.action) + ", "@ + ggml_name(t.source_type) + " -> "@
        + ggml_name(t.output_type) + ", primary "@ + change_text(
        t.source_primary_bytes,
        t.output_primary_bytes,
    ) + ", slot "@ + change_text(t.source_slot_bytes, t.output_slot_bytes) + ", offset "@
        + change_text(t.source_offset, t.output_offset)
}

/// The lines about a plan.
pub open spec fn plan_lines(plan: LinkPlan, include_tensor_layout: bool) -> Seq<Seq<char>> {
    let head = seq![
        "Profile:         "@ + "embedding-q6-k"@,
        "Architecture:    "@ + plan.architecture@,
        "Source bytes:    "@ + dec(plan.source_bytes as int),
        "Output bytes:    "@ + dec(plan.output_bytes as int),
        "Alignment:       "@ + dec(plan.alignment as int),
        "Tensor count:    "@ + dec(plan.tensor_count as int),
        "Changed tensors: "@ + dec(plan.changes@.len() as int),
    ] + Seq::new(plan.changes@.len(), |i: int| changed_line(plan.changes@[i]));
    if include_tensor_layout {
        head.push("Tensor layout:"@) + Seq::new(
            plan.tensors@.len(),
            |i: int| layout_line(plan.tensors@[i]),
        )
    } else {
        head
    }
}

/// A change from one number to another.
fn push_change(line: &mut String, from: u64, to: u64)
    ensures
        final(line)@ == old(line)@ + change_text(from, to),
{
    let a = decimal(from);
    let b = decimal(to);
    let mut text = cat2(a.as_str(), " -> ");
    text.append(b.as_str());
    line.append(text.as_str());
}

/// The line about a tensor that changes.
fn format_change(c: &TensorChange) -> (line: String)
    ensures
        line@ == changed_line(*c),
{
    let mut line = cat6(
        "  ",
        c.name.as_str(),
        ": ",
        c.source_type.name().as_str(),
        " -> ",
        c.output_type.name().as_str(),
    );
    line.append(", ");
    push_change(&mut line, c.source_bytes, c.output_bytes);
    line.append(" bytes, offset ");
    push_change(&mut line, c.source_offset, c.output_offset);
    line
}

/// The line about the place of a tensor.
fn format_layout(t: &TensorPlan) -> (line: String)
    ensures
        line@ == layout_line(*t),
{
    let action = match t.action {
        TensorAction::Copy => "copy",
        TensorAction::QuantizeF16ToQ6K => "f16-to-q6-k",
    };
    let mut line = cat6(
        "  ",
        t.name.as_str(),
        ": ",
        action,
        ", ",
        t.source_type.name().as_str(),
    );
    line.append(" -> ");
    line.append(t.output_type.name().as_str());
    line.append(", primary ");
    push_change(&mut line, t.source_primary_bytes, t.output_primary_bytes);
    line.append(", slot ");
    push_change(&mut line, t.source_slot_bytes, t.output_slot_bytes);
    line.append(", offset ");
    push_change(&mut line, t.source_offset, t.output_offset);
    line
}

/// Adds a name and a number.
fn push_fact(lines: &mut Vec<String>, name: &str, value: &str)
    ensures
        views(final(lines)@) == views(old(lines)@).push(name@ + value@),
{
    let ghost before = views(lines@);
    let line = cat2(name, value);
    lines.push(line);
    proof {
        assert(views(lines@) =~= before.push(line@));
    }
}

/// The lines about a plan: what it is for, the sizes, the tensors that change,
/// and the places of all tensors where they are asked for.
pub fn format_plan(plan: &LinkPlan, include_tensor_layout: bool) -> (lines: Vec<String>)
    ensures
        views(lines@) == plan_lines(*plan, include_tensor_layout),
{
    let mut lines: Vec<String> = Vec::new();
    let source = decimal(plan.source_bytes);
    let output = decimal(plan.output_bytes);
    let alignment = decimal(plan.alignment);
    let tensors = decimal(plan.tensor_count);
    let changes = decimal(plan.changes.len() as u64);
    push_fact(&mut lines, "Profile:         ", plan.profile.as_str());
    push_fact(&mut lines, "Architecture:    ", plan.architecture.as_str());
    push_fact(&mut lines, "Source bytes:    ", source.as_str());
    push_fact(&mut lines, "Output bytes:    ", output.as_str());
    push_fact(&mut lines, "Alignment:       ", alignment.as_str());
    push_fact(&mut lines, "Tensor count:    ", tensors.as_str());
    push_fact(&mut lines, "Changed tensors: ", changes.as_str());
    let ghost start = views(lines@);
    let ghost changed = Seq::new(plan.changes@.len(), |i: int| changed_line(plan.changes@[i]));
    let mut i: usize = 0;
    proof {
        assert(start + changed.take(0) =~= start);
    }
    while i < plan.changes.len()
        invariant
            i <= plan.changes@.len(),
            changed == Seq::new(plan.changes@.len(), |k: int| changed_line(plan.changes@[k])),
            views(lines@) == start + changed.take(i as int),
        decreases plan.changes.len() - i,
    {
        let line = format_change(&plan.changes[i]);
        let ghost before = views(lines@);
        lines.push(line);
        i = i + 1;
        proof {
            assert(views(lines@) =~= before.push(line@));
            assert(start + changed.take(i as int) =~= before.push(line@));
        }
    }
    proof {
        assert(changed.take(i as int) =~= changed);
        assert(start + changed == plan_lines(*plan, false));
    }
    if include_tensor_layout {
        let ghost so_far = views(lines@);
        push_fact(&mut lines, "Tensor layout:", "");
        let ghost head = views(lines@);
        proof {
            reveal_strlit("");
            assert("Tensor layout:"@ + ""@ =~= "Tensor layout:"@);
            assert(head == so_far.push("Tensor layout:"@));
        }
        let ghost placed = Seq::new(plan.tensors@.len(), |k: int| layout_line(plan.tensors@[k]));
        let mut j: usize = 0;
        proof {
            assert(head + placed.take(0) =~= head);
        }
        while j < plan.tensors.len()
            invariant
                j <= plan.tensors@.len(),
                placed == Seq::new(plan.tensors@.len(), |k: int| layout_line(plan.tensors@[k])),
                views(lines@) == head + placed.take(j as int),
            decreases plan.tensors.len() - j,
        {
            let line = format_layout(&plan.tensors[j]);
            let ghost before = views(lines@);
            lines.push(line);
            j = j + 1;
            proof {
                assert(views(lines@) =~= before.push(line@));
                assert(head + placed.take(j as int) =~= before.push(line@));
            }
        }
        proof {
            assert(placed.take(j as int) =~= placed);
        }
    }
    lines
}

} // verus!
