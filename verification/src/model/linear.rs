//! Products of a matrix with vectors, whatever the matrix is stored in: what is
//! checked before, where the rows lie, and which kernel is chosen.

use crate::error::{Fault, WillametteError};
use crate::gguf::bytes::le32;
use crate::gguf::tensor::{block_byte_len, block_fault, product, TensorView};
use crate::gguf::types::{raw_of_type, GgmlType};
use crate::model::bitlinear::{
    check_matvec, matvec_fault, packed_fits, I2sMatvec, MatvecKernel,
};
use crate::model::dispatch::CpuFeatures;
use crate::text::{
    bracket, bracketed, cat2, cat3, cat4, cat5, cat6, cat7, cat8, dec, decimal, owned, quote,
    quoted,
};
use vstd::prelude::*;

verus! {

/// The kernel for rows of Q4_K.
#[derive(Debug, Clone, Copy, PartialEq, Eq, Structural)]
pub enum Q4KBackend {
    Avx2,
    Sse2,
    Scalar,
}

/// The kernel for rows of Q6_K.
#[derive(Debug, Clone, Copy, PartialEq, Eq, Structural)]
pub enum Q6KBackend {
    Avx2,
}

/// How the products with a matrix of a loaded model are computed.
#[derive(Debug, Clone, Copy, PartialEq, Eq, Structural)]
pub enum GraphLinearBackend {
    /// With all checks, by the type of the matrix.
    Checked,
    Q4K(Q4KBackend),
    Q6K(Q6KBackend),
}

/// The kernel for a type of matrix on a processor.
pub open spec fn backend_of(t: GgmlType, cpu: CpuFeatures) -> GraphLinearBackend {
    if t == GgmlType::Q6K && cpu.x86() && cpu.avx2 {
        GraphLinearBackend::Q6K(Q6KBackend::Avx2)
    } else if t != GgmlType::Q4K {
        GraphLinearBackend::Checked
    } else if cpu.x86() && cpu.avx2 {
        GraphLinearBackend::Q4K(Q4KBackend::Avx2)
    } else if cpu.x86() && cpu.sse2 {
        GraphLinearBackend::Q4K(Q4KBackend::Sse2)
    } else {
        GraphLinearBackend::Q4K(Q4KBackend::Scalar)
    }
}

impl GraphLinearBackend {
    /// The kernel for a matrix on a processor.
    pub fn resolve(weight: &TensorView<'_>, cpu: &CpuFeatures) -> (b: Self)
        ensures
            b == backend_of(weight.ggml_type, *cpu),
    {
        if weight.ggml_type == GgmlType::Q6K && cpu.is_x86() && cpu.avx2 {
            return GraphLinearBackend::Q6K(Q6KBackend::Avx2);
        }
        if weight.ggml_type != GgmlType::Q4K {
            return GraphLinearBackend::Checked;
        }
        if cpu.is_x86() {
            if cpu.avx2 {
                return GraphLinearBackend::Q4K(Q4KBackend::Avx2);
            }
            if cpu.sse2 {
                return GraphLinearBackend::Q4K(Q4KBackend::Sse2);
            }
        }
        GraphLinearBackend::Q4K(Q4KBackend::Scalar)
    }

    /// The kernel takes quantised activations.
    pub open spec fn takes_q8_k(self) -> bool {
        match self {
            GraphLinearBackend::Q4K(Q4KBackend::Avx2) => true,
            GraphLinearBackend::Q6K(_) => true,
            _ => false,
        }
    }

    /// Whether the kernel takes quantised activations.
    pub fn uses_q8_k(self) -> (b: bool)
        ensures
            b == self.takes_q8_k(),
    {
        match self {
            GraphLinearBackend::Q4K(Q4KBackend::Avx2) => true,
            GraphLinearBackend::Q6K(_) => true,
            _ => false,
        }
    }
}

/// Where the rows of a matrix lie: row `j` has the bytes from `j * row_bytes` on.
#[derive(Debug, Clone, Copy, PartialEq, Eq, Structural)]
pub struct RowPlan {
    pub in_dim: usize,
    pub out_dim: usize,
    pub row_bytes: usize,
}

/// How a type of matrix stores its rows in blocks.
#[derive(Debug, Clone, Copy, PartialEq, Eq, Structural)]
pub enum BlockLayout {
    Q4_0,
    Q8_0,
    Q4K,
    Q6K,
}

impl BlockLayout {
    /// What the layout is called.
    pub open spec fn label(self) -> Seq<char> {
        match self {
            BlockLayout::Q4_0 => "Q4_0"@,
            BlockLayout::Q8_0 => "Q8_0"@,
            BlockLayout::Q4K => "Q4_K"@,
            BlockLayout::Q6K => "Q6_K"@,
        }
    }

    /// The type with this layout.
    pub open spec fn of_type(self) -> GgmlType {
        match self {
            BlockLayout::Q4_0 => GgmlType::Q4_0,
            BlockLayout::Q8_0 => GgmlType::Q8_0,
            BlockLayout::Q4K => GgmlType::Q4K,
            BlockLayout::Q6K => GgmlType::Q6K,
        }
    }

    /// The values of a block.
    pub open spec fn elements(self) -> u64 {
        match self {
            BlockLayout::Q4_0 => 32,
            BlockLayout::Q8_0 => 32,
            BlockLayout::Q4K => 256,
            BlockLayout::Q6K => 256,
        }
    }

    /// The bytes of a block.
    pub open spec fn bytes(self) -> u64 {
        match self {
            BlockLayout::Q4_0 => 18,
            BlockLayout::Q8_0 => 34,
            BlockLayout::Q4K => 144,
            BlockLayout::Q6K => 210,
        }
    }

    /// What the layout is called.
    pub fn name(self) -> (s: &'static str)
        ensures
            s@ == self.label(),
    {
        match self {
            BlockLayout::Q4_0 => "Q4_0",
            BlockLayout::Q8_0 => "Q8_0",
            BlockLayout::Q4K => "Q4_K",
            BlockLayout::Q6K => "Q6_K",
        }
    }

    /// The type with this layout.
    pub fn ggml_type(self) -> (t: GgmlType)
        ensures
            t == self.of_type(),
    {
        match self {
            BlockLayout::Q4_0 => GgmlType::Q4_0,
            BlockLayout::Q8_0 => GgmlType::Q8_0,
            BlockLayout::Q4K => GgmlType::Q4K,
            BlockLayout::Q6K => GgmlType::Q6K,
        }
    }

    /// The values and bytes of a block.
    pub fn sizes(self) -> (r: (u64, u64))
        ensures
            r.0 == self.elements(),
            r.1 == self.bytes(),
    {
        match self {
            BlockLayout::Q4_0 => (32, 18),
            BlockLayout::Q8_0 => (32, 34),
            BlockLayout::Q4K => (256, 144),
            BlockLayout::Q6K => (256, 210),
        }
    }
}

/// A matrix has not two dimensions. The text starts with the one given.
pub open spec fn dims_text(start: Seq<char>, w: TensorView<'_>) -> Seq<char> {
    start + quoted(w.name@) + ": expected 2 dimensions, got "@ + bracketed(w.shape@)
}

/// The vectors of a product have other lengths than the matrix.
pub open spec fn lengths_text(start: Seq<char>, w: TensorView<'_>, input: int, output: int) -> Seq<
    char,
> {
    start + quoted(w.name@) + ": input/output lengths "@ + dec(input) + "/"@ + dec(output)
        + " != "@ + dec(w.shape@[0] as int) + "/"@ + dec(w.shape@[1] as int)
}

/// A matrix has not the bytes that its shape takes.
pub open spec fn size_text(start: Seq<char>, w: TensorView<'_>, expected: int) -> Seq<char> {
    start + quoted(w.name@) + ": data length "@ + dec(w.data@.len() as int) + " != expected "@
        + dec(expected)
}

/// The message for a matrix that has not two dimensions.
fn tell_dims(start: &str, w: &TensorView<'_>) -> (s: String)
    ensures
        s@ == dims_text(start@, *w),
{
    let name = quote(w.name.as_str());
    let shape = bracket(w.shape.as_slice());
    cat4(start, name.as_str(), ": expected 2 dimensions, got ", shape.as_str())
}

/// The message for vectors of other lengths than the matrix.
fn tell_lengths(start: &str, w: &TensorView<'_>, input: usize, output: usize) -> (s: String)
    requires
        w.shape@.len() == 2,
    ensures
        s@ == lengths_text(start@, *w, input as int, output as int),
{
    let name = quote(w.name.as_str());
    let a = decimal(input as u64);
    let b = decimal(output as u64);
    let c = decimal(w.shape[0]);
    let d = decimal(w.shape[1]);
    let head = cat4(start, name.as_str(), ": input/output lengths ", a.as_str());
    cat7(head.as_str(), "/", b.as_str(), " != ", c.as_str(), "/", d.as_str())
}

/// The message for a matrix that has not the bytes that its shape takes.
fn tell_size(start: &str, w: &TensorView<'_>, expected: usize) -> (s: String)
    ensures
        s@ == size_text(start@, *w, expected as int),
{
    let name = quote(w.name.as_str());
    let a = decimal(w.data.len() as u64);
    let b = decimal(expected as u64);
    cat6(start, name.as_str(), ": data length ", a.as_str(), " != expected ", b.as_str())
}

/// What is wrong with the storage of a matrix whose rows are made of blocks.
pub open spec fn storage_fault(layout: BlockLayout, w: TensorView<'_>) -> Option<Fault> {
    let label = layout.label();
    let row = seq![w.shape@[0]];
    let row_bytes = w.shape@[0] as int / (layout.elements() as int) * layout.bytes();
    if block_fault(row, layout.elements(), layout.bytes(), label) is Some {
        Some(Fault::GgufParse(block_fault(row, layout.elements(), layout.bytes(), label)->0))
    } else if row_bytes > usize::MAX {
        Some(Fault::GgufParse(label + " row size overflow"@))
    } else if row_bytes * w.shape@[1] > usize::MAX {
        Some(Fault::GgufParse(label + " tensor size overflow"@))
    } else if w.data@.len() != row_bytes * w.shape@[1] {
        Some(Fault::GgufParse(size_text(label + " linear "@, w, row_bytes * w.shape@[1])))
    } else {
        None
    }
}

/// What keeps a matrix whose rows are made of blocks from being multiplied with a
/// vector.
pub open spec fn quantized_fault(
    layout: BlockLayout,
    w: TensorView<'_>,
    input: int,
    output: int,
) -> Option<Fault> {
    let label = layout.label();
    if w.ggml_type != layout.of_type() {
        Some(Fault::UnsupportedTensorType(raw_of_type(w.ggml_type)))
    } else if w.shape@.len() != 2 {
        Some(Fault::GgufParse(dims_text(label + " linear "@, w)))
    } else if w.shape@[0] > usize::MAX {
        Some(Fault::GgufParse(label + " input dimension overflow"@))
    } else if w.shape@[1] > usize::MAX {
        Some(Fault::GgufParse(label + " output dimension overflow"@))
    } else if input != w.shape@[0] || output != w.shape@[1] {
        Some(Fault::GgufParse(lengths_text(label + " linear "@, w, input, output)))
    } else {
        storage_fault(layout, w)
    }
}

/// Checks the storage of a matrix whose rows are made of blocks, and says how many
/// bytes a row takes.
fn check_storage(layout: BlockLayout, weight: &TensorView<'_>) -> (r: Result<
    usize,
    WillametteError,
>)
    requires
        weight.shape@.len() == 2,
        weight.shape@[0] <= usize::MAX,
        weight.shape@[1] <= usize::MAX,
    ensures
        match r {
            Ok(n) => storage_fault(layout, *weight) is None && n == weight.shape@[0] as int / (
            layout.elements() as int) * layout.bytes(),
            Err(e) => storage_fault(layout, *weight) == Some(e@),
        },
{
    let label = layout.name();
    let (elements, bytes) = layout.sizes();
    let mut row: Vec<u64> = Vec::new();
    row.push(weight.shape[0]);
    proof {
        assert(row@ =~= seq![weight.shape@[0]]);
        assert(row@.drop_last() =~= Seq::<u64>::empty());
        assert(row@.drop_first() =~= Seq::<u64>::empty());
        reveal_with_fuel(product, 2);
        assert(product(row@) == weight.shape@[0]);
    }
    let row_bytes: u64 = match block_byte_len(row.as_slice(), elements, bytes, label) {
        Ok(n) => n,
        Err(e) => {
            return Err(e);
        },
    };
    if row_bytes > usize::MAX as u64 {
        return Err(WillametteError::GgufParse(cat2(label, " row size overflow")));
    }
    let width: usize = row_bytes as usize;
    let expected: usize = match width.checked_mul(weight.shape[1] as usize) {
        Some(n) => n,
        None => {
            return Err(WillametteError::GgufParse(cat2(label, " tensor size overflow")));
        },
    };
    if weight.data.len() != expected {
        let start = cat2(label, " linear ");
        return Err(WillametteError::GgufParse(tell_size(start.as_str(), weight, expected)));
    }
    Ok(width)
}

/// Checks a matrix whose rows are made of blocks against the vectors of a product,
/// and says where its rows lie.
pub fn plan_quantized(layout: BlockLayout, weight: &TensorView<'_>, input: usize, output: usize) -> (r:
    Result<RowPlan, WillametteError>)
    ensures
        match r {
            Ok(p) => {
                &&& quantized_fault(layout, *weight, input as int, output as int) is None
                &&& p.in_dim == input
                &&& p.out_dim == output
                &&& p.row_bytes == input as int / (layout.elements() as int) * layout.bytes()
            },
            Err(e) => quantized_fault(layout, *weight, input as int, output as int) == Some(e@),
        },
{
    if weight.ggml_type != layout.ggml_type() {
        return Err(WillametteError::UnsupportedTensorType(weight.ggml_type.to_raw()));
    }
    let label = layout.name();
    if weight.shape.len() != 2 {
        let start = cat2(label, " linear ");
        return Err(WillametteError::GgufParse(tell_dims(start.as_str(), weight)));
    }
    if weight.shape[0] > usize::MAX as u64 {
        return Err(WillametteError::GgufParse(cat2(label, " input dimension overflow")));
    }
    if weight.shape[1] > usize::MAX as u64 {
        return Err(WillametteError::GgufParse(cat2(label, " output dimension overflow")));
    }
    if input as u64 != weight.shape[0] || output as u64 != weight.shape[1] {
        let start = cat2(label, " linear ");
        return Err(
            WillametteError::GgufParse(tell_lengths(start.as_str(), weight, input, output)),
        );
    }
    match check_storage(layout, weight) {
        Ok(row_bytes) => Ok(RowPlan { in_dim: input, out_dim: output, row_bytes }),
        Err(e) => Err(e),
    }
}

/// What keeps a half-precision matrix from being multiplied with a vector.
pub open spec fn halves_fault(w: TensorView<'_>, input: int, output: int) -> Option<Fault> {
    if w.ggml_type != GgmlType::F16 {
        Some(Fault::UnsupportedTensorType(raw_of_type(w.ggml_type)))
    } else if w.shape@.len() != 2 {
        Some(Fault::GgufParse(dims_text("F16 linear "@, w)))
    } else if w.shape@[0] > usize::MAX {
        Some(
            Fault::GgufParse(
                "F16 linear "@ + quoted(w.name@) + ": input dimension overflow"@,
            ),
        )
    } else if w.shape@[1] > usize::MAX {
        Some(
            Fault::GgufParse(
                "F16 linear "@ + quoted(w.name@) + ": output dimension overflow"@,
            ),
        )
    } else if input != w.shape@[0] || output != w.shape@[1] {
        Some(Fault::GgufParse(lengths_text("F16 linear "@, w, input, output)))
    } else if 2 * input > usize::MAX {
        Some(Fault::GgufParse("F16 linear row size overflow"@))
    } else if 2 * input * output > usize::MAX {
        Some(Fault::GgufParse("F16 linear tensor size overflow"@))
    } else if w.data@.len() != 2 * input * output {
        Some(Fault::GgufParse(size_text("F16 linear "@, w, 2 * input * output)))
    } else {
        None
    }
}

/// Checks a half-precision matrix against the vectors of a product, and says where
/// its rows lie.
pub fn plan_halves(weight: &TensorView<'_>, input: usize, output: usize) -> (r: Result<
    RowPlan,
    WillametteError,
>)
    ensures
        match r {
            Ok(p) => {
                &&& halves_fault(*weight, input as int, output as int) is None
                &&& p.in_dim == input
                &&& p.out_dim == output
                &&& p.row_bytes == 2 * input
            },
            Err(e) => halves_fault(*weight, input as int, output as int) == Some(e@),
        },
{
    if weight.ggml_type != GgmlType::F16 {
        return Err(WillametteError::UnsupportedTensorType(weight.ggml_type.to_raw()));
    }
    if weight.shape.len() != 2 {
        return Err(WillametteError::GgufParse(tell_dims("F16 linear ", weight)));
    }
    if weight.shape[0] > usize::MAX as u64 {
        let name = quote(weight.name.as_str());
        return Err(
            WillametteError::GgufParse(
                cat3("F16 linear ", name.as_str(), ": input dimension overflow"),
            ),
        );
    }
    if weight.shape[1] > usize::MAX as u64 {
        let name = quote(weight.name.as_str());
        return Err(
            WillametteError::GgufParse(
                cat3("F16 linear ", name.as_str(), ": output dimension overflow"),
            ),
        );
    }
    if input as u64 != weight.shape[0] || output as u64 != weight.shape[1] {
        return Err(
            WillametteError::GgufParse(tell_lengths("F16 linear ", weight, input, output)),
        );
    }
    let row_bytes: usize = match input.checked_mul(2) {
        Some(n) => n,
        None => {
            return Err(WillametteError::GgufParse(owned("F16 linear row size overflow")));
        },
    };
    let expected: usize = match row_bytes.checked_mul(output) {
        Some(n) => n,
        None => {
            return Err(WillametteError::GgufParse(owned("F16 linear tensor size overflow")));
        },
    };
    if weight.data.len() != expected {
        return Err(WillametteError::GgufParse(tell_size("F16 linear ", weight, expected)));
    }
    Ok(RowPlan { in_dim: input, out_dim: output, row_bytes })
}

/// How the product of a matrix with a vector is computed.
#[derive(Debug, Clone, Copy, PartialEq, Eq, Structural)]
pub enum LinearPlan {
    Ternary(I2sMatvec),
    Halves(RowPlan),
    Blocks(BlockLayout, RowPlan),
}

/// What keeps a matrix from being multiplied with a vector.
pub open spec fn linear_fault(
    kernel: MatvecKernel,
    w: TensorView<'_>,
    input: int,
    output: int,
) -> Option<Fault> {
    match w.ggml_type {
        GgmlType::BitNetI2S => matvec_fault(kernel, w, input, output),
        GgmlType::F16 => halves_fault(w, input, output),
        GgmlType::Q4_0 => quantized_fault(BlockLayout::Q4_0, w, input, output),
        GgmlType::Q4K => quantized_fault(BlockLayout::Q4K, w, input, output),
        GgmlType::Q6K => quantized_fault(BlockLayout::Q6K, w, input, output),
        GgmlType::Q8_0 => quantized_fault(BlockLayout::Q8_0, w, input, output),
        _ => Some(Fault::UnsupportedTensorType(raw_of_type(w.ggml_type))),
    }
}

/// A plan says how a matrix is stored.
pub open spec fn fits(plan: LinearPlan, w: TensorView<'_>, input: int, output: int) -> bool {
    match plan {
        LinearPlan::Ternary(m) => {
            &&& w.ggml_type == GgmlType::BitNetI2S
            &&& m.in_dim == input
            &&& m.out_dim == output
            &&& m.bytes_per_row == input / 4
            &&& m.scale == le32(w.scale_data->0@)
        },
        LinearPlan::Halves(p) => {
            &&& w.ggml_type == GgmlType::F16
            &&& p.in_dim == input
            &&& p.out_dim == output
            &&& p.row_bytes == 2 * input
        },
        LinearPlan::Blocks(layout, p) => {
            &&& w.ggml_type == layout.of_type()
            &&& p.in_dim == input
            &&& p.out_dim == output
            &&& p.row_bytes == input / (layout.elements() as int) * layout.bytes()
        },
    }
}

/// A plan for rows of blocks, or what is in its way.
fn plan_blocks(layout: BlockLayout, weight: &TensorView<'_>, input: usize, output: usize) -> (r:
    Result<LinearPlan, WillametteError>)
    requires
        weight.ggml_type == layout.of_type(),
    ensures
        match r {
            Ok(plan) => quantized_fault(layout, *weight, input as int, output as int) is None
                && fits(plan, *weight, input as int, output as int),
            Err(e) => quantized_fault(layout, *weight, input as int, output as int) == Some(e@),
        },
{
    match plan_quantized(layout, weight, input, output) {
        Ok(p) => Ok(LinearPlan::Blocks(layout, p)),
        Err(e) => Err(e),
    }
}

/// Checks a matrix against the vectors of a product, by its type. The kernel is
/// the one for ternary products.
pub fn plan_linear(kernel: MatvecKernel, weight: &TensorView<'_>, input: usize, output: usize) -> (r:
    Result<LinearPlan, WillametteError>)
    requires
        packed_fits(*weight, input as int, output as int),
    ensures
        match r {
            Ok(plan) => linear_fault(kernel, *weight, input as int, output as int) is None && fits(
                plan,
                *weight,
                input as int,
                output as int,
            ),
            Err(e) => linear_fault(kernel, *weight, input as int, output as int) == Some(e@),
        },
{
    match weight.ggml_type {
        GgmlType::BitNetI2S => match check_matvec(kernel, weight, input, output) {
            Ok(m) => Ok(LinearPlan::Ternary(m)),
            Err(e) => Err(e),
        },
        GgmlType::F16 => match plan_halves(weight, input, output) {
            Ok(p) => Ok(LinearPlan::Halves(p)),
            Err(e) => Err(e),
        },
        GgmlType::Q4_0 => plan_blocks(BlockLayout::Q4_0, weight, input, output),
        GgmlType::Q4K => plan_blocks(BlockLayout::Q4K, weight, input, output),
        GgmlType::Q6K => plan_blocks(BlockLayout::Q6K, weight, input, output),
        GgmlType::Q8_0 => plan_blocks(BlockLayout::Q8_0, weight, input, output),
        _ => Err(WillametteError::UnsupportedTensorType(weight.ggml_type.to_raw())),
    }
}

/// What keeps a matrix from being multiplied with the vectors of several tokens.
pub open spec fn batch_fault(w: TensorView<'_>, input: int, output: int) -> Option<Fault> {
    let start = "batched linear "@ + quoted(w.name@);
    if w.shape@.len() != 2 {
        Some(Fault::GgufParse(dims_text("batched linear "@, w)))
    } else if w.shape@[0] > usize::MAX {
        Some(Fault::GgufParse("batched input dimension overflow"@))
    } else if w.shape@[1] > usize::MAX {
        Some(Fault::GgufParse("batched output dimension overflow"@))
    } else if w.shape@[0] == 0 || w.shape@[1] == 0 {
        Some(Fault::GgufParse(start + ": dimensions must be nonzero"@))
    } else if input == 0 || input % (w.shape@[0] as int) != 0 {
        Some(
            Fault::GgufParse(
                start + ": input length "@ + dec(input) + " is not a positive multiple of "@ + dec(
                    w.shape@[0] as int,
                ),
            ),
        )
    } else if input / (w.shape@[0] as int) * w.shape@[1] > usize::MAX {
        Some(Fault::GgufParse("batched linear output size overflow"@))
    } else if output != input / (w.shape@[0] as int) * w.shape@[1] {
        Some(
            Fault::GgufParse(
                start + ": output length "@ + dec(output) + " != "@ + dec(
                    input / (w.shape@[0] as int),
                ) + " * "@ + dec(w.shape@[1] as int),
            ),
        )
    } else {
        None
    }
}

/// Checks a matrix against the vectors of several tokens, and gives its width, its
/// height and how many tokens there are.
pub fn batched_dimensions(weight: &TensorView<'_>, input: usize, output: usize) -> (r: Result<
    (usize, usize, usize),
    WillametteError,
>)
    ensures
        match r {
            Ok((in_dim, out_dim, tokens)) => {
                &&& batch_fault(*weight, input as int, output as int) is None
                &&& in_dim == weight.shape@[0]
                &&& out_dim == weight.shape@[1]
                &&& 0 < tokens
                &&& tokens * in_dim == input
                &&& tokens * out_dim == output
            },
            Err(e) => batch_fault(*weight, input as int, output as int) == Some(e@),
        },
{
    if weight.shape.len() != 2 {
        return Err(WillametteError::GgufParse(tell_dims("batched linear ", weight)));
    }
    if weight.shape[0] > usize::MAX as u64 {
        return Err(WillametteError::GgufParse(owned("batched input dimension overflow")));
    }
    if weight.shape[1] > usize::MAX as u64 {
        return Err(WillametteError::GgufParse(owned("batched output dimension overflow")));
    }
    let in_dim: usize = weight.shape[0] as usize;
    let out_dim: usize = weight.shape[1] as usize;
    let name = quote(weight.name.as_str());
    if in_dim == 0 || out_dim == 0 {
        return Err(
            WillametteError::GgufParse(
                cat3("batched linear ", name.as_str(), ": dimensions must be nonzero"),
            ),
        );
    }
    if input == 0 || input % in_dim != 0 {
        let a = decimal(input as u64);
        let b = decimal(in_dim as u64);
        return Err(
            WillametteError::GgufParse(
                cat6(
                    "batched linear ",
                    name.as_str(),
                    ": input length ",
                    a.as_str(),
                    " is not a positive multiple of ",
                    b.as_str(),
                ),
            ),
        );
    }
    let tokens: usize = input / in_dim;
    proof {
        vstd::arithmetic::div_mod::lemma_fundamental_div_mod(input as int, in_dim as int);
        assert(0 < tokens && tokens * in_dim == input) by (nonlinear_arith)
            requires
                input == in_dim * tokens,
                0 < input,
                0 < in_dim,
        ;
    }
    let expected: usize = match tokens.checked_mul(out_dim) {
        Some(n) => n,
        None => {
            return Err(WillametteError::GgufParse(owned("batched linear output size overflow")));
        },
    };
    if output != expected {
        let a = decimal(output as u64);
        let b = decimal(tokens as u64);
        let c = decimal(out_dim as u64);
        return Err(
            WillametteError::GgufParse(
                cat8(
                    "batched linear ",
                    name.as_str(),
                    ": output length ",
                    a.as_str(),
                    " != ",
                    b.as_str(),
                    " * ",
                    c.as_str(),
                ),
            ),
        );
    }
    Ok((in_dim, out_dim, tokens))
}

/// How the products of a matrix with the vectors of several tokens are computed.
#[derive(Debug, Clone, Copy, PartialEq, Eq, Structural)]
pub enum BatchPlan {
    /// One token after the other.
    ByToken { in_dim: usize, out_dim: usize, tokens: usize },
    /// One row of Q4_K after the other, each for all tokens.
    ByRow { rows: RowPlan, tokens: usize },
}

/// What keeps a matrix from being multiplied with the vectors of several tokens,
/// by its type.
pub open spec fn linear_batch_fault(w: TensorView<'_>, input: int, output: int) -> Option<Fault> {
    match w.ggml_type {
        GgmlType::Q4K => if batch_fault(w, input, output) is Some {
            batch_fault(w, input, output)
        } else {
            storage_fault(BlockLayout::Q4K, w)
        },
        GgmlType::BitNetI2S => batch_fault(w, input, output),
        GgmlType::F16 => batch_fault(w, input, output),
        GgmlType::Q4_0 => batch_fault(w, input, output),
        GgmlType::Q6K => batch_fault(w, input, output),
        GgmlType::Q8_0 => batch_fault(w, input, output),
        _ => Some(Fault::UnsupportedTensorType(raw_of_type(w.ggml_type))),
    }
}

/// A plan says how a matrix and the vectors of several tokens go together.
pub open spec fn batch_fits(plan: BatchPlan, w: TensorView<'_>, input: int, output: int) -> bool {
    match plan {
        BatchPlan::ByToken { in_dim, out_dim, tokens } => {
            &&& w.ggml_type != GgmlType::Q4K
            &&& in_dim == w.shape@[0]
            &&& out_dim == w.shape@[1]
            &&& 0 < tokens
            &&& tokens * in_dim == input
            &&& tokens * out_dim == output
        },
        BatchPlan::ByRow { rows, tokens } => {
            &&& w.ggml_type == GgmlType::Q4K
            &&& rows.in_dim == w.shape@[0]
            &&& rows.out_dim == w.shape@[1]
            &&& rows.row_bytes == rows.in_dim as int / 256 * 144
            &&& 0 < tokens
            &&& tokens * rows.in_dim == input
            &&& tokens * rows.out_dim == output
        },
    }
}

/// Checks a matrix against the vectors of several tokens, by its type.
pub fn plan_batch(weight: &TensorView<'_>, input: usize, output: usize) -> (r: Result<
    BatchPlan,
    WillametteError,
>)
    ensures
        match r {
            Ok(plan) => linear_batch_fault(*weight, input as int, output as int) is None
                && batch_fits(plan, *weight, input as int, output as int),
            Err(e) => linear_batch_fault(*weight, input as int, output as int) == Some(e@),
        },
{
    let by_row = match weight.ggml_type {
        GgmlType::Q4K => true,
        GgmlType::BitNetI2S => false,
        GgmlType::F16 => false,
        GgmlType::Q4_0 => false,
        GgmlType::Q6K => false,
        GgmlType::Q8_0 => false,
        _ => {
            return Err(WillametteError::UnsupportedTensorType(weight.ggml_type.to_raw()));
        },
    };
    let (in_dim, out_dim, tokens) = match batched_dimensions(weight, input, output) {
        Ok(d) => d,
        Err(e) => {
            return Err(e);
        },
    };
    if !by_row {
        return Ok(BatchPlan::ByToken { in_dim, out_dim, tokens });
    }
    match check_storage(BlockLayout::Q4K, weight) {
        Ok(row_bytes) => Ok(
            BatchPlan::ByRow { rows: RowPlan { in_dim, out_dim, row_bytes }, tokens },
        ),
        Err(e) => Err(e),
    }
}

/// Turns results that are listed row by row, each for all tokens, into a list token
/// by token, each with all rows.
pub fn token_major(rows: &[u32], tokens: usize, out_dim: usize) -> (out: Vec<u32>)
    requires
        rows.len() == tokens * out_dim,
    ensures
        out@.len() == rows@.len(),
        forall|t: int, j: int|
            0 <= t < tokens && 0 <= j < out_dim ==> #[trigger] out@[t * out_dim + j] == rows@[j
                * tokens + t],
{
    let mut out: Vec<u32> = Vec::new();
    let mut t: usize = 0;
    proof {
        assert(0 * out_dim == 0) by (nonlinear_arith);
    }
    while t < tokens
        invariant
            t <= tokens,
            rows.len() == tokens * out_dim,
            out@.len() == t * out_dim,
            forall|u: int, j: int|
                0 <= u < t && 0 <= j < out_dim ==> #[trigger] out@[u * out_dim + j] == rows@[j
                    * tokens + u],
        decreases tokens - t,
    {
        let ghost done = out@;
        let mut j: usize = 0;
        while j < out_dim
            invariant
                t < tokens,
                j <= out_dim,
                rows.len() == tokens * out_dim,
                done.len() == t * out_dim,
                out@.len() == t * out_dim + j,
                forall|i: int| 0 <= i < done.len() ==> #[trigger] out@[i] == done[i],
                forall|k: int| 0 <= k < j ==> #[trigger] out@[t * out_dim + k] == rows@[k * tokens
                    + t],
            decreases out_dim - j,
        {
            proof {
                assert(0 <= j * tokens && j * tokens + t < tokens * out_dim) by (nonlinear_arith)
                    requires
                        0 <= j < out_dim,
                        0 <= t < tokens,
                ;
            }
            out.push(rows[j * tokens + t]);
            j = j + 1;
        }
        proof {
            assert((t + 1) * out_dim == t * out_dim + out_dim) by (nonlinear_arith);
            assert forall|u: int, k: int|
                0 <= u < t + 1 && 0 <= k < out_dim implies #[trigger] out@[u * out_dim + k]
                == rows@[k * tokens + u] by {
                if u < t {
                    assert(0 <= u * out_dim + k < t * out_dim) by (nonlinear_arith)
                        requires
                            0 <= u < t,
                            0 <= k < out_dim,
                    ;
                    assert(out@[u * out_dim + k] == done[u * out_dim + k]);
                }
            }
        }
        t = t + 1;
    }
    proof {
        assert(tokens * out_dim == rows@.len());
    }
    out
}

/// What keeps a matrix of a loaded model from being multiplied with a quantised
/// vector.
pub open spec fn prequantized_fault(
    layout: BlockLayout,
    w: TensorView<'_>,
    input: int,
    activation: int,
    output: int,
) -> Option<Fault> {
    let start = "graph "@ + layout.label();
    if w.shape@.len() < 1 {
        Some(Fault::GgufParse(start + " linear has no input dimension"@))
    } else if w.shape@[0] > usize::MAX {
        Some(Fault::GgufParse(start + " input dimension overflow"@))
    } else if w.shape@.len() < 2 {
        Some(Fault::GgufParse(start + " linear has no output dimension"@))
    } else if w.shape@[1] > usize::MAX {
        Some(Fault::GgufParse(start + " output dimension overflow"@))
    } else if input != w.shape@[0] || activation != w.shape@[0] || output != w.shape@[1] {
        Some(
            Fault::GgufParse(
                start + " linear dimensions input="@ + dec(input) + " activation="@ + dec(
                    activation,
                ) + " output="@ + dec(output) + " != ["@ + dec(w.shape@[0] as int) + ", "@ + dec(
                    w.shape@[1] as int,
                ) + "]"@,
            ),
        )
    } else {
        None
    }
}

/// Checks a matrix of a loaded model against a vector, its quantised form and the
/// result, and says where the rows lie.
pub fn plan_prequantized(
    layout: BlockLayout,
    weight: &TensorView<'_>,
    input: usize,
    activation: usize,
    output: usize,
) -> (r: Result<RowPlan, WillametteError>)
    requires
        input as int / (layout.elements() as int) * layout.bytes() <= usize::MAX,
    ensures
        match r {
            Ok(p) => {
                &&& prequantized_fault(
                    layout,
                    *weight,
                    input as int,
                    activation as int,
                    output as int,
                ) is None
                &&& p.in_dim == input
                &&& p.out_dim == output
                &&& p.row_bytes == input as int / (layout.elements() as int) * layout.bytes()
            },
            Err(e) => prequantized_fault(
                layout,
                *weight,
                input as int,
                activation as int,
                output as int,
            ) == Some(e@),
        },
{
    let start = cat2("graph ", layout.name());
    if weight.shape.len() < 1 {
        return Err(
            WillametteError::GgufParse(cat2(start.as_str(), " linear has no input dimension")),
        );
    }
    if weight.shape[0] > usize::MAX as u64 {
        return Err(WillametteError::GgufParse(cat2(start.as_str(), " input dimension overflow")));
    }
    if weight.shape.len() < 2 {
        return Err(
            WillametteError::GgufParse(cat2(start.as_str(), " linear has no output dimension")),
        );
    }
    if weight.shape[1] > usize::MAX as u64 {
        return Err(WillametteError::GgufParse(cat2(start.as_str(), " output dimension overflow")));
    }
    if input as u64 != weight.shape[0] || activation as u64 != weight.shape[0] || output as u64
        != weight.shape[1] {
        let a = decimal(input as u64);
        let b = decimal(activation as u64);
        let c = decimal(output as u64);
        let d = decimal(weight.shape[0]);
        let e = decimal(weight.shape[1]);
        let head = cat5(
            start.as_str(),
            " linear dimensions input=",
            a.as_str(),
            " activation=",
            b.as_str(),
        );
        return Err(
            WillametteError::GgufParse(
                cat8(
                    head.as_str(),
                    " output=",
                    c.as_str(),
                    " != [",
                    d.as_str(),
                    ", ",
                    e.as_str(),
                    "]",
                ),
            ),
        );
    }
    let (elements, bytes) = layout.sizes();
    let row_bytes: usize = input / elements as usize * bytes as usize;
    Ok(RowPlan { in_dim: input, out_dim: output, row_bytes })
}

/// Quantised activations are used only where the processor has AVX2.
pub proof fn quantised_activations_need_avx2(t: GgmlType, cpu: CpuFeatures)
    ensures
        backend_of(t, cpu).takes_q8_k() ==> cpu.avx2 && cpu.x86() && (t == GgmlType::Q4K || t
            == GgmlType::Q6K),
{
}

/// Q4_K matrices get the widest kernel that an x86 processor has and the plain one
/// elsewhere, Q6_K matrices one for AVX2 where there is it, and any other type the checked
/// product.
pub proof fn wider_kernels_come_first(t: GgmlType, cpu: CpuFeatures)
    ensures
        t != GgmlType::Q4K && t != GgmlType::Q6K ==> backend_of(t, cpu)
            == GraphLinearBackend::Checked,
        t == GgmlType::Q6K ==> (backend_of(t, cpu) == GraphLinearBackend::Q6K(Q6KBackend::Avx2)
            <==> cpu.x86() && cpu.avx2),
        t == GgmlType::Q6K && !(cpu.x86() && cpu.avx2) ==> backend_of(t, cpu)
            == GraphLinearBackend::Checked,
        t == GgmlType::Q4K ==> (backend_of(t, cpu) == GraphLinearBackend::Q4K(Q4KBackend::Avx2)
            <==> cpu.x86() && cpu.avx2),
        t == GgmlType::Q4K ==> (backend_of(t, cpu) == GraphLinearBackend::Q4K(Q4KBackend::Sse2)
            <==> cpu.x86() && cpu.sse2 && !cpu.avx2),
        t == GgmlType::Q4K ==> (backend_of(t, cpu) == GraphLinearBackend::Q4K(Q4KBackend::Scalar)
            <==> !(cpu.x86() && (cpu.sse2 || cpu.avx2))),
{
}

/// The blocks of a layout are those of its type in a file.
pub proof fn layouts_are_those_of_files(layout: BlockLayout, shape: Seq<u64>)
    ensures
        crate::gguf::layout::tensor_bytes(shape, layout.of_type()) is Ok ==> (
        crate::gguf::layout::tensor_bytes(shape, layout.of_type())->Ok_0) == Some(
            crate::gguf::tensor::product(shape) / (layout.elements() as int) * layout.bytes(),
        ),
{
}


/// Quantised activations go to every kernel that is as wide as they need, and a layout is
/// called as the type that has it.
pub proof fn wide_kernels_take_quantised_activations(t: GgmlType, cpu: CpuFeatures, l: BlockLayout)
    ensures
        backend_of(t, cpu).takes_q8_k() <==> cpu.avx2 && cpu.x86() && (t == GgmlType::Q4K || t
            == GgmlType::Q6K),
        l.label() == crate::gguf::types::ggml_name(l.of_type()),
{
}

/// The kernel for Q4_K rows is called by what it uses.
pub proof fn kernels_are_called_by_what_they_use(cpu: CpuFeatures)
    ensures
        backend_of(GgmlType::Q4K, cpu) == GraphLinearBackend::Q4K(Q4KBackend::Avx2)
            ==> crate::model::q4_k::kernel_label(cpu) == "Q4_K AVX2"@,
        backend_of(GgmlType::Q4K, cpu) == GraphLinearBackend::Q4K(Q4KBackend::Sse2)
            ==> crate::model::q4_k::kernel_label(cpu) == "Q4_K SSE2"@,
        backend_of(GgmlType::Q4K, cpu) == GraphLinearBackend::Q4K(Q4KBackend::Scalar)
            ==> crate::model::q4_k::kernel_label(cpu) == "Q4_K scalar"@,
{
}

} // verus!
