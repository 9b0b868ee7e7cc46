//! Ternary products by table lookup: what is checked before, and what the table
//! of a byte stands for.

use crate::error::WillametteError;
use crate::gguf::bytes::le32;
use crate::gguf::tensor::TensorView;
use crate::model::bitlinear::{
    check_matvec, matvec_fault, packed_fits, ternary, ternary_from_code, I2sMatvec, MatvecKernel,
};
use vstd::prelude::*;

verus! {

/// Checks a tensor against the vectors of a product.
pub fn check_lut_matvec(weight: &TensorView<'_>, input: usize, output: usize) -> (r: Result<
    I2sMatvec,
    WillametteError,
>)
    requires
        packed_fits(*weight, input as int, output as int),
    ensures
        match r {
            Ok(m) => {
                &&& matvec_fault(MatvecKernel::Lut, *weight, input as int, output as int) is None
                &&& m.in_dim == input
                &&& m.out_dim == output
                &&& m.bytes_per_row == input / 4
                &&& m.scale == le32(weight.scale_data->0@)
            },
            Err(e) => matvec_fault(MatvecKernel::Lut, *weight, input as int, output as int)
                == Some(e@),
        },
{
    check_matvec(MatvecKernel::Lut, weight, input, output)
}

/// The four weights that a byte holds, first the one of its highest bits.
pub open spec fn weights_of(byte: u8) -> Seq<int> {
    seq![
        ternary(byte as int / 64),
        ternary(byte as int / 16),
        ternary(byte as int / 4),
        ternary(byte as int),
    ]
}

/// The four weights that a byte holds: entry `byte` of the table for four
/// activations is the sum of the activations times these.
pub fn table_weights(byte: u8) -> (w: (i8, i8, i8, i8))
    ensures
        w.0 == weights_of(byte)[0],
        w.1 == weights_of(byte)[1],
        w.2 == weights_of(byte)[2],
        w.3 == weights_of(byte)[3],
{
    (
        ternary_from_code(byte / 64),
        ternary_from_code(byte / 16 % 4),
        ternary_from_code(byte / 4 % 4),
        ternary_from_code(byte % 4),
    )
}

} // verus!
