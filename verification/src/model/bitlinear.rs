//! Ternary weights in I2_S: how a row is packed, what is checked before a product,
//! and products with whole numbers.

use crate::error::{Fault, WillametteError};
use crate::gguf::bytes::le32;
use crate::gguf::tensor::{i2s_scale_fault, TensorView};
use crate::gguf::types::{raw_of_type, GgmlType};
use crate::text::{
    bracket, bracketed, cat2, cat3, cat4, cat5, cat6, cat7, dec, decimal, quote, quoted,
};
use vstd::prelude::*;

verus! {

/// The value of a two-bit code. The code 3 is not produced by the packer, and
/// stands for zero as 1 does.
pub open spec fn ternary(code: int) -> int {
    if code % 4 == 0 {
        -1
    } else if code % 4 == 2 {
        1
    } else {
        0
    }
}

/// The value of a two-bit code.
pub fn ternary_from_code(code: u8) -> (t: i8)
    ensures
        t == ternary(code as int),
{
    match code % 4 {
        0 => -1,
        2 => 1,
        _ => 0,
    }
}

/// Code `i` of a row that starts at `at`. A block of 128 codes takes 32 bytes:
/// each byte holds four codes, which stand 32 places apart, the first in its
/// highest bits.
pub open spec fn code_at(data: Seq<u8>, at: int, i: int) -> int {
    let byte = data[at + i / 128 * 32 + i % 32] as int;
    let lane = i % 128 / 32;
    if lane == 0 {
        byte / 64
    } else if lane == 1 {
        byte / 16 % 4
    } else if lane == 2 {
        byte / 4 % 4
    } else {
        byte % 4
    }
}

/// Weight `i` of a row that starts at `at`, without the scale.
pub open spec fn weight_at(data: Seq<u8>, at: int, i: int) -> int {
    ternary(code_at(data, at, i))
}

/// One weight of a row.
pub fn read_weight(data: &[u8], at: usize, i: usize) -> (t: i8)
    requires
        at + i / 128 * 32 + i % 32 < data.len(),
    ensures
        t == weight_at(data@, at as int, i as int),
{
    let byte: u8 = data[at + i / 128 * 32 + i % 32];
    let lane: usize = i % 128 / 32;
    let code: u8 = if lane == 0 {
        byte / 64
    } else if lane == 1 {
        byte / 16 % 4
    } else if lane == 2 {
        byte / 4 % 4
    } else {
        byte % 4
    };
    ternary_from_code(code)
}

/// Unpacks a row of `in_dim` weights.
pub fn unpack_row(data: &[u8], at: usize, in_dim: usize) -> (row: Vec<i8>)
    requires
        in_dim % 128 == 0,
        at + in_dim / 4 <= data.len(),
    ensures
        row@.len() == in_dim,
        forall|i: int| 0 <= i < in_dim ==> #[trigger] row@[i] == weight_at(data@, at as int, i),
{
    let mut row: Vec<i8> = Vec::new();
    let mut i: usize = 0;
    while i < in_dim
        invariant
            i <= in_dim,
            in_dim % 128 == 0,
            at + in_dim / 4 <= data.len(),
            row@.len() == i,
            forall|k: int| 0 <= k < i ==> #[trigger] row@[k] == weight_at(data@, at as int, k),
        decreases in_dim - i,
    {
        row.push(read_weight(data, at, i));
        i = i + 1;
    }
    row
}

/// What keeps a row from being unpacked.
pub open spec fn unpack_fault(w: TensorView<'_>, row: int) -> Option<Fault> {
    if w.ggml_type != GgmlType::BitNetI2S {
        Some(Fault::UnsupportedTensorType(raw_of_type(w.ggml_type)))
    } else if w.shape@.len() != 2 {
        Some(
            Fault::GgufParse(
                "i2s_unpack_row_to_i8: weight "@ + quoted(w.name@) + " is not 2-D"@,
            ),
        )
    } else if row >= w.shape@[1] {
        Some(
            Fault::GgufParse(
                "i2s_unpack_row_to_i8: row_idx "@ + dec(row) + " out of range (out_dim="@ + dec(
                    w.shape@[1] as int,
                ) + ")"@,
            ),
        )
    } else if w.shape@[0] == 0 || w.shape@[0] % 128 != 0 {
        Some(
            Fault::GgufParse(
                "i2s_unpack_row_to_i8: in_dim "@ + dec(w.shape@[0] as int)
                    + " is not a positive multiple of 128"@,
            ),
        )
    } else if (row + 1) * (w.shape@[0] as int / 4) > w.data@.len() {
        Some(
            Fault::GgufParse(
                "i2s_unpack_row_to_i8: row bytes out of range for weight "@ + quoted(w.name@),
            ),
        )
    } else {
        None
    }
}

/// Unpacks one row of a tensor.
pub fn i2s_unpack_row_to_i8(weight: &TensorView<'_>, row_idx: usize) -> (r: Result<
    Vec<i8>,
    WillametteError,
>)
    requires
        weight.shape@.len() == 2 ==> weight.shape@[0] <= usize::MAX && weight.shape@[1]
            <= usize::MAX,
    ensures
        match r {
            Ok(row) => {
                &&& unpack_fault(*weight, row_idx as int) is None
                &&& row@.len() == weight.shape@[0]
                &&& forall|i: int|
                    0 <= i < row@.len() ==> #[trigger] row@[i] == weight_at(
                        weight.data@,
                        row_idx * (weight.shape@[0] as int / 4),
                        i,
                    )
            },
            Err(e) => unpack_fault(*weight, row_idx as int) == Some(e@),
        },
{
    if weight.ggml_type != GgmlType::BitNetI2S {
        return Err(WillametteError::UnsupportedTensorType(weight.ggml_type.to_raw()));
    }
    if weight.shape.len() != 2 {
        let name = quote(weight.name.as_str());
        return Err(
            WillametteError::GgufParse(
                cat3("i2s_unpack_row_to_i8: weight ", name.as_str(), " is not 2-D"),
            ),
        );
    }
    let in_dim: usize = weight.shape[0] as usize;
    let out_dim: usize = weight.shape[1] as usize;
    if row_idx >= out_dim {
        let a = decimal(row_idx as u64);
        let b = decimal(out_dim as u64);
        return Err(
            WillametteError::GgufParse(
                cat5(
                    "i2s_unpack_row_to_i8: row_idx ",
                    a.as_str(),
                    " out of range (out_dim=",
                    b.as_str(),
                    ")",
                ),
            ),
        );
    }
    if in_dim == 0 || in_dim % 128 != 0 {
        let a = decimal(in_dim as u64);
        return Err(
            WillametteError::GgufParse(
                cat3(
                    "i2s_unpack_row_to_i8: in_dim ",
                    a.as_str(),
                    " is not a positive multiple of 128",
                ),
            ),
        );
    }
    let bytes: usize = in_dim / 4;
    let size: usize = weight.data.len();
    proof {
        assert((row_idx + 1) * bytes == row_idx * bytes + bytes) by (nonlinear_arith);
    }
    let inside = match row_idx.checked_mul(bytes) {
        Some(start) => start <= size && bytes <= size - start,
        None => false,
    };
    if !inside {
        let name = quote(weight.name.as_str());
        return Err(
            WillametteError::GgufParse(
                cat2("i2s_unpack_row_to_i8: row bytes out of range for weight ", name.as_str()),
            ),
        );
    }
    Ok(unpack_row(weight.data, row_idx * bytes, in_dim))
}

/// The ways in which a product of a ternary tensor with a vector is computed.
#[derive(Debug, Clone, Copy, PartialEq, Eq, Structural)]
pub enum MatvecKernel {
    /// One weight after the other.
    Scalar,
    /// One table for each byte of a row.
    Lut,
    /// NEON, on unpacked rows.
    Neon,
    /// SSE2, on unpacked blocks.
    Sse2,
}

/// The name under which a kernel reports what is wrong.
pub open spec fn reporter(kernel: MatvecKernel) -> Seq<char> {
    match kernel {
        MatvecKernel::Scalar => "bitlinear_i2s_matvec_f32"@,
        MatvecKernel::Lut => "bitlinear_lut_scalar"@,
        MatvecKernel::Neon => "neon matvec"@,
        MatvecKernel::Sse2 => "bitlinear_i2s_matvec_f32_sse2"@,
    }
}

/// The name under which a kernel reports what is wrong.
fn reporter_name(kernel: MatvecKernel) -> (s: &'static str)
    ensures
        s@ == reporter(kernel),
{
    match kernel {
        MatvecKernel::Scalar => "bitlinear_i2s_matvec_f32",
        MatvecKernel::Lut => "bitlinear_lut_scalar",
        MatvecKernel::Neon => "neon matvec",
        MatvecKernel::Sse2 => "bitlinear_i2s_matvec_f32_sse2",
    }
}

/// What a kernel says of a tensor that is no matrix.
pub open spec fn not_a_matrix(kernel: MatvecKernel, w: TensorView<'_>) -> Seq<char> {
    let start = reporter(kernel) + ": weight "@ + quoted(w.name@);
    match kernel {
        MatvecKernel::Scalar => start + " is not 2-D (shape="@ + bracketed(w.shape@) + ")"@,
        MatvecKernel::Lut => start + " not 2-D (shape="@ + bracketed(w.shape@) + ")"@,
        MatvecKernel::Neon => start + " is not 2-D (shape="@ + bracketed(w.shape@) + ")"@,
        MatvecKernel::Sse2 => start + " is not 2-D"@,
    }
}

/// What a kernel says of a vector of a wrong length.
pub open spec fn wrong_length(
    kernel: MatvecKernel,
    w: TensorView<'_>,
    found: Seq<char>,
    len: int,
    wanted: Seq<char>,
    dim: int,
) -> Seq<char> {
    let start = reporter(kernel) + found + dec(len) + wanted + dec(dim);
    match kernel {
        MatvecKernel::Scalar => start + " (weight "@ + quoted(w.name@) + ")"@,
        MatvecKernel::Neon => start + " ("@ + quoted(w.name@) + ")"@,
        _ => start,
    }
}

/// What a kernel says of rows that do not hold whole blocks.
pub open spec fn wrong_width(kernel: MatvecKernel, dim: int) -> Seq<char> {
    let start = reporter(kernel) + ": in_dim "@ + dec(dim);
    match kernel {
        MatvecKernel::Scalar => start + " is not a positive multiple of 128 (QK_I2_S)"@,
        MatvecKernel::Lut => start + " not a positive multiple of 128"@,
        _ => start + " is not a positive multiple of 128"@,
    }
}

/// What a kernel says of a tensor with too few or too many bytes.
pub open spec fn wrong_size(kernel: MatvecKernel, w: TensorView<'_>, expected: int) -> Seq<char> {
    let len = dec(w.data@.len() as int);
    match kernel {
        MatvecKernel::Scalar => reporter(kernel) + ": weight "@ + quoted(w.name@) + " data.len()="@
            + len + " != expected packed "@ + dec(expected) + " (= in_dim/4 × out_dim)"@,
        MatvecKernel::Lut => reporter(kernel) + ": weight data.len()="@ + len + " != expected "@
            + dec(expected) + " (in_dim/4 × out_dim)"@,
        MatvecKernel::Neon => reporter(kernel) + ": weight "@ + quoted(w.name@) + " data.len()="@
            + len + " != expected "@ + dec(expected),
        MatvecKernel::Sse2 => reporter(kernel) + ": weight data.len()="@ + len + if w.data@.len()
            < expected {
            " < "@
        } else {
            " > "@
        } + dec(expected) + " (in_dim/4 × out_dim)"@,
    }
}

/// Where the lengths of a product are those of the tensor, its packed size can be
/// counted.
pub open spec fn packed_fits(w: TensorView<'_>, input: int, output: int) -> bool {
    w.ggml_type == GgmlType::BitNetI2S && w.shape@.len() == 2 && input == w.shape@[0] && output
        == w.shape@[1] && input > 0 && input % 128 == 0 ==> input / 4 * output <= usize::MAX
}

/// What keeps a tensor from being multiplied with a vector, apart from its scale.
pub open spec fn matvec_shape_fault(
    kernel: MatvecKernel,
    w: TensorView<'_>,
    input: int,
    output: int,
) -> Option<Fault> {
    if w.ggml_type != GgmlType::BitNetI2S {
        Some(Fault::UnsupportedTensorType(raw_of_type(w.ggml_type)))
    } else if w.shape@.len() != 2 {
        Some(Fault::GgufParse(not_a_matrix(kernel, w)))
    } else if input != w.shape@[0] {
        Some(
            Fault::GgufParse(
                wrong_length(
                    kernel,
                    w,
                    ": input.len()="@,
                    input,
                    " != in_dim="@,
                    w.shape@[0] as int,
                ),
            ),
        )
    } else if output != w.shape@[1] {
        Some(
            Fault::GgufParse(
                wrong_length(
                    kernel,
                    w,
                    ": output.len()="@,
                    output,
                    " != out_dim="@,
                    w.shape@[1] as int,
                ),
            ),
        )
    } else if input == 0 || input % 128 != 0 {
        Some(Fault::GgufParse(wrong_width(kernel, input)))
    } else if w.data@.len() != input / 4 * output {
        Some(Fault::GgufParse(wrong_size(kernel, w, input / 4 * output)))
    } else {
        None
    }
}

/// What keeps a tensor from being multiplied with a vector.
pub open spec fn matvec_fault(
    kernel: MatvecKernel,
    w: TensorView<'_>,
    input: int,
    output: int,
) -> Option<Fault> {
    if matvec_shape_fault(kernel, w, input, output) is Some {
        matvec_shape_fault(kernel, w, input, output)
    } else {
        i2s_scale_fault(w)
    }
}

/// What a product of a ternary tensor with a vector needs to know.
#[derive(Debug, Clone, Copy, PartialEq, Eq, Structural)]
pub struct I2sMatvec {
    pub in_dim: usize,
    pub out_dim: usize,
    /// How many bytes a row takes.
    pub bytes_per_row: usize,
    /// The scale, as single-precision bits.
    pub scale: u32,
}

/// The message for a tensor that is no matrix.
fn tell_not_a_matrix(kernel: MatvecKernel, w: &TensorView<'_>) -> (s: String)
    ensures
        s@ == not_a_matrix(kernel, *w),
{
    let who = reporter_name(kernel);
    let name = quote(w.name.as_str());
    let shape = bracket(w.shape.as_slice());
    match kernel {
        MatvecKernel::Sse2 => cat4(who, ": weight ", name.as_str(), " is not 2-D"),
        MatvecKernel::Lut => cat6(
            who,
            ": weight ",
            name.as_str(),
            " not 2-D (shape=",
            shape.as_str(),
            ")",
        ),
        _ => cat6(
            who,
            ": weight ",
            name.as_str(),
            " is not 2-D (shape=",
            shape.as_str(),
            ")",
        ),
    }
}

/// The message for a vector of a wrong length.
fn tell_wrong_length(
    kernel: MatvecKernel,
    w: &TensorView<'_>,
    found: &str,
    len: usize,
    wanted: &str,
    dim: u64,
) -> (s: String)
    ensures
        s@ == wrong_length(kernel, *w, found@, len as int, wanted@, dim as int),
{
    let who = reporter_name(kernel);
    let a = decimal(len as u64);
    let b = decimal(dim);
    let start = cat5(who, found, a.as_str(), wanted, b.as_str());
    match kernel {
        MatvecKernel::Scalar => {
            let name = quote(w.name.as_str());
            cat4(start.as_str(), " (weight ", name.as_str(), ")")
        },
        MatvecKernel::Neon => {
            let name = quote(w.name.as_str());
            cat4(start.as_str(), " (", name.as_str(), ")")
        },
        _ => start,
    }
}

/// The message for rows that do not hold whole blocks.
fn tell_wrong_width(kernel: MatvecKernel, dim: usize) -> (s: String)
    ensures
        s@ == wrong_width(kernel, dim as int),
{
    let who = reporter_name(kernel);
    let a = decimal(dim as u64);
    match kernel {
        MatvecKernel::Scalar => cat4(
            who,
            ": in_dim ",
            a.as_str(),
            " is not a positive multiple of 128 (QK_I2_S)",
        ),
        MatvecKernel::Lut => cat4(who, ": in_dim ", a.as_str(), " not a positive multiple of 128"),
        _ => cat4(who, ": in_dim ", a.as_str(), " is not a positive multiple of 128"),
    }
}

/// The message for a tensor with too few or too many bytes.
fn tell_wrong_size(kernel: MatvecKernel, w: &TensorView<'_>, expected: usize) -> (s: String)
    ensures
        s@ == wrong_size(kernel, *w, expected as int),
{
    let who = reporter_name(kernel);
    let name = quote(w.name.as_str());
    let a = decimal(w.data.len() as u64);
    let b = decimal(expected as u64);
    match kernel {
        MatvecKernel::Scalar => {
            let start = cat5(who, ": weight ", name.as_str(), " data.len()=", a.as_str());
            cat4(
                start.as_str(),
                " != expected packed ",
                b.as_str(),
                " (= in_dim/4 × out_dim)",
            )
        },
        MatvecKernel::Lut => cat6(
            who,
            ": weight data.len()=",
            a.as_str(),
            " != expected ",
            b.as_str(),
            " (in_dim/4 × out_dim)",
        ),
        MatvecKernel::Neon => cat7(
            who,
            ": weight ",
            name.as_str(),
            " data.len()=",
            a.as_str(),
            " != expected ",
            b.as_str(),
        ),
        MatvecKernel::Sse2 => cat6(
            who,
            ": weight data.len()=",
            a.as_str(),
            if w.data.len() < expected {
                " < "
            } else {
                " > "
            },
            b.as_str(),
            " (in_dim/4 × out_dim)",
        ),
    }
}

/// Checks a tensor against the vectors of a product.
pub fn check_matvec(kernel: MatvecKernel, weight: &TensorView<'_>, input: usize, output: usize) -> (r:
    Result<I2sMatvec, WillametteError>)
    requires
        packed_fits(*weight, input as int, output as int),
    ensures
        match r {
            Ok(m) => {
                &&& matvec_fault(kernel, *weight, input as int, output as int) is None
                &&& m.in_dim == input
                &&& m.out_dim == output
                &&& m.bytes_per_row == input / 4
                &&& m.scale == le32(weight.scale_data->0@)
            },
            Err(e) => matvec_fault(kernel, *weight, input as int, output as int) == Some(e@),
        },
{
    if weight.ggml_type != GgmlType::BitNetI2S {
        return Err(WillametteError::UnsupportedTensorType(weight.ggml_type.to_raw()));
    }
    if weight.shape.len() != 2 {
        return Err(WillametteError::GgufParse(tell_not_a_matrix(kernel, weight)));
    }
    if input as u64 != weight.shape[0] {
        return Err(
            WillametteError::GgufParse(
                tell_wrong_length(
                    kernel,
                    weight,
                    ": input.len()=",
                    input,
                    " != in_dim=",
                    weight.shape[0],
                ),
            ),
        );
    }
    if output as u64 != weight.shape[1] {
        return Err(
            WillametteError::GgufParse(
                tell_wrong_length(
                    kernel,
                    weight,
                    ": output.len()=",
                    output,
                    " != out_dim=",
                    weight.shape[1],
                ),
            ),
        );
    }
    let in_dim: usize = input;
    let out_dim: usize = output;
    if in_dim == 0 || in_dim % 128 != 0 {
        return Err(WillametteError::GgufParse(tell_wrong_width(kernel, in_dim)));
    }
    let bytes_per_row: usize = in_dim / 4;
    let expected: usize = bytes_per_row * out_dim;
    if weight.data.len() != expected {
        return Err(WillametteError::GgufParse(tell_wrong_size(kernel, weight, expected)));
    }
    match weight.i2s_scale() {
        Ok(scale) => Ok(I2sMatvec { in_dim, out_dim, bytes_per_row, scale }),
        Err(e) => Err(e),
    }
}

/// The product of the weights from `from` to before `to` with their activations.
pub open spec fn dot(data: Seq<u8>, at: int, act: Seq<i8>, from: int, to: int) -> int
    decreases to - from,
{
    if to <= from {
        0
    } else {
        dot(data, at, act, from, to - 1) + weight_at(data, at, to - 1) * act[to - 1]
    }
}

/// Products that meet are one.
pub proof fn lemma_dot_joins(data: Seq<u8>, at: int, act: Seq<i8>, from: int, mid: int, to: int)
    requires
        from <= mid <= to,
    ensures
        dot(data, at, act, from, mid) + dot(data, at, act, mid, to) == dot(
            data,
            at,
            act,
            from,
            to,
        ),
    decreases to - mid,
{
    if mid < to {
        lemma_dot_joins(data, at, act, from, mid, to - 1);
    }
}

/// A product is bounded by its length.
pub proof fn lemma_dot_bound(data: Seq<u8>, at: int, act: Seq<i8>, from: int, to: int)
    requires
        0 <= from <= to <= act.len(),
    ensures
        -128 * (to - from) <= dot(data, at, act, from, to) <= 128 * (to - from),
    decreases to - from,
{
    if from < to {
        lemma_dot_bound(data, at, act, from, to - 1);
        let w = weight_at(data, at, to - 1);
        let a = act[to - 1] as int;
        assert(-128 <= w * a <= 128) by (nonlinear_arith)
            requires
                -1 <= w <= 1,
                -128 <= a <= 127,
        ;
    }
}

} // verus!
