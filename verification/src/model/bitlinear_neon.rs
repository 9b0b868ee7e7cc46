//! Ternary products with NEON: what is checked before, and the rows that they
//! work on.

use crate::error::WillametteError;
use crate::gguf::bytes::le32;
use crate::gguf::tensor::TensorView;
use crate::model::bitlinear::{
    check_matvec, matvec_fault, packed_fits, ternary, unpack_row, weight_at, I2sMatvec,
    MatvecKernel,
};
use vstd::prelude::*;

verus! {

/// The value of a two-bit code.
pub fn ternary_lut(code: u8) -> (t: i8)
    ensures
        t == ternary(code as int),
{
    match code % 4 {
        0 => -1,
        1 => 0,
        2 => 1,
        _ => 0,
    }
}

/// Checks a tensor against the vectors of a product.
pub fn check_neon_matvec(weight: &TensorView<'_>, input: usize, output: usize) -> (r: Result<
    I2sMatvec,
    WillametteError,
>)
    requires
        packed_fits(*weight, input as int, output as int),
    ensures
        match r {
            Ok(m) => {
                &&& matvec_fault(MatvecKernel::Neon, *weight, input as int, output as int) is None
                &&& m.in_dim == input
                &&& m.out_dim == output
                &&& m.bytes_per_row == input / 4
                &&& m.scale == le32(weight.scale_data->0@)
            },
            Err(e) => matvec_fault(MatvecKernel::Neon, *weight, input as int, output as int)
                == Some(e@),
        },
{
    check_matvec(MatvecKernel::Neon, weight, input, output)
}

/// The weights of one packed row, as the NEON product takes them.
pub fn unpack_packed_row(packed_row: &[u8], in_dim: usize) -> (row: Vec<i8>)
    requires
        in_dim % 128 == 0,
        packed_row.len() == in_dim / 4,
    ensures
        row@.len() == in_dim,
        forall|i: int| 0 <= i < in_dim ==> #[trigger] row@[i] == weight_at(packed_row@, 0, i),
{
    unpack_row(packed_row, 0, in_dim)
}

} // verus!
