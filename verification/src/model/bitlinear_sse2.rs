//! Ternary products with SSE2: what is checked before, the blocks that they work
//! on, and the product with quantised activations, which is one of whole numbers.

use crate::error::WillametteError;
use crate::gguf::bytes::le32;
use crate::gguf::tensor::TensorView;
use crate::model::bitlinear::{
    check_matvec, dot, lemma_dot_bound, lemma_dot_joins, matvec_fault, packed_fits, read_weight,
    ternary, weight_at, I2sMatvec, MatvecKernel,
};
use vstd::prelude::*;

verus! {

/// The value of a two-bit code.
pub fn code_to_ternary(code: u8) -> (t: i8)
    ensures
        t == ternary(code as int),
{
    match code % 4 {
        0 => -1,
        2 => 1,
        _ => 0,
    }
}

/// Checks a tensor against the vectors of a product.
pub fn validate_inputs(weight: &TensorView<'_>, input: usize, output: usize) -> (r: Result<
    I2sMatvec,
    WillametteError,
>)
    requires
        packed_fits(*weight, input as int, output as int),
    ensures
        match r {
            Ok(m) => {
                &&& matvec_fault(MatvecKernel::Sse2, *weight, input as int, output as int) is None
                &&& m.in_dim == input
                &&& m.out_dim == output
                &&& m.bytes_per_row == input / 4
                &&& m.scale == le32(weight.scale_data->0@)
            },
            Err(e) => matvec_fault(MatvecKernel::Sse2, *weight, input as int, output as int)
                == Some(e@),
        },
{
    check_matvec(MatvecKernel::Sse2, weight, input, output)
}

/// The 128 weights of the block of 32 bytes that starts at `at`.
pub fn unpack_block(data: &[u8], at: usize) -> (block: Vec<i8>)
    requires
        at + 32 <= data.len(),
    ensures
        block@.len() == 128,
        forall|i: int| 0 <= i < 128 ==> #[trigger] block@[i] == weight_at(data@, at as int, i),
{
    let mut block: Vec<i8> = Vec::new();
    let mut i: usize = 0;
    while i < 128
        invariant
            i <= 128,
            at + 32 <= data.len(),
            block@.len() == i,
            forall|k: int| 0 <= k < i ==> #[trigger] block@[k] == weight_at(data@, at as int, k),
        decreases 128 - i,
    {
        block.push(read_weight(data, at, i));
        i = i + 1;
    }
    block
}

/// The product of the first `n` weights of a block with their activations.
pub open spec fn block_dot(block: Seq<i8>, act: Seq<i8>, from: int, n: int) -> int
    decreases n,
{
    if n <= 0 {
        0
    } else {
        block_dot(block, act, from, n - 1) + block[n - 1] * act[from + n - 1]
    }
}

/// The product of one block of ternary weights with the activations from `from`
/// on.
pub fn dot_i8_ternary(block: &[i8], act: &[i8], from: usize) -> (d: i32)
    requires
        block@.len() == 128,
        forall|i: int| 0 <= i < 128 ==> -1 <= #[trigger] block@[i] <= 1,
        from + 128 <= act.len(),
    ensures
        d == block_dot(block@, act@, from as int, 128),
        -16384 <= d <= 16384,
{
    let mut sum: i32 = 0;
    let mut i: usize = 0;
    while i < 128
        invariant
            i <= 128,
            block@.len() == 128,
            forall|k: int| 0 <= k < 128 ==> -1 <= #[trigger] block@[k] <= 1,
            from + 128 <= act.len(),
            sum == block_dot(block@, act@, from as int, i as int),
            -128 * i <= sum <= 128 * i,
        decreases 128 - i,
    {
        let w: i32 = block[i] as i32;
        let a: i32 = act[from + i] as i32;
        proof {
            assert(-1 <= block@[i as int] <= 1);
            assert(-128 <= w * a <= 128) by (nonlinear_arith)
                requires
                    -1 <= w <= 1,
                    -128 <= a <= 127,
            ;
        }
        sum = sum + w * a;
        i = i + 1;
    }
    sum
}

/// A block is a stretch of its row.
proof fn lemma_block_of_row(
    data: Seq<u8>,
    at: int,
    b: int,
    block: Seq<i8>,
    act: Seq<i8>,
    n: int,
)
    requires
        0 <= b,
        0 <= n <= 128,
        block.len() == 128,
        forall|i: int| 0 <= i < 128 ==> #[trigger] block[i] == weight_at(data, at + 32 * b, i),
    ensures
        block_dot(block, act, 128 * b, n) == dot(data, at, act, 128 * b, 128 * b + n),
    decreases n,
{
    if n > 0 {
        lemma_block_of_row(data, at, b, block, act, n - 1);
        let i = n - 1;
        assert((128 * b + i) / 128 == b);
        assert((128 * b + i) % 32 == i % 32);
        assert((128 * b + i) % 128 == i);
        assert(block[i] == weight_at(data, at, 128 * b + i));
    }
}

/// The product of a row that starts at `at` with quantised activations.
pub fn row_dot(data: &[u8], at: usize, act: &[i8]) -> (d: i32)
    requires
        act@.len() % 128 == 0,
        at + act@.len() / 4 <= data.len(),
        act@.len() * 128 <= i32::MAX,
    ensures
        d == dot(data@, at as int, act@, 0, act@.len() as int),
{
    let blocks: usize = act.len() / 128;
    let mut sum: i32 = 0;
    let mut b: usize = 0;
    while b < blocks
        invariant
            b <= blocks,
            act.len() == 128 * blocks,
            at + act.len() / 4 <= data.len(),
            act.len() * 128 <= i32::MAX,
            sum == dot(data@, at as int, act@, 0, 128 * b as int),
        decreases blocks - b,
    {
        let block = unpack_block(data, at + 32 * b);
        let part: i32 = dot_i8_ternary(block.as_slice(), act, 128 * b);
        proof {
            lemma_block_of_row(data@, at as int, b as int, block@, act@, 128);
            lemma_dot_joins(data@, at as int, act@, 0, 128 * b as int, 128 * b as int + 128);
            lemma_dot_bound(data@, at as int, act@, 0, 128 * b as int);
            lemma_dot_bound(data@, at as int, act@, 0, 128 * b as int + 128);
        }
        sum = sum + part;
        b = b + 1;
    }
    sum
}

/// The products of all rows with quantised activations, with what the tensor has
/// to be multiplied with after that.
pub fn matvec_i8(weight: &TensorView<'_>, act: &[i8], output: usize) -> (r: Result<
    (I2sMatvec, Vec<i32>),
    WillametteError,
>)
    requires
        packed_fits(*weight, act@.len() as int, output as int),
        act@.len() * 128 <= i32::MAX,
    ensures
        match r {
            Ok((m, dots)) => {
                &&& matvec_fault(MatvecKernel::Sse2, *weight, act@.len() as int, output as int)
                    is None
                &&& m.in_dim == act@.len()
                &&& m.out_dim == output
                &&& m.bytes_per_row == act@.len() / 4
                &&& m.scale == le32(weight.scale_data->0@)
                &&& dots@.len() == output
                &&& forall|j: int|
                    0 <= j < output ==> #[trigger] dots@[j] == dot(
                        weight.data@,
                        j * (act@.len() as int / 4),
                        act@,
                        0,
                        act@.len() as int,
                    )
            },
            Err(e) => matvec_fault(MatvecKernel::Sse2, *weight, act@.len() as int, output as int)
                == Some(e@),
        },
{
    let n: usize = act.len();
    let m = match validate_inputs(weight, n, output) {
        Ok(m) => m,
        Err(e) => {
            return Err(e);
        },
    };
    let bytes: usize = m.bytes_per_row;
    let mut dots: Vec<i32> = Vec::new();
    let mut j: usize = 0;
    while j < output
        invariant
            j <= output,
            n == act.len(),
            n % 128 == 0,
            bytes == n / 4,
            act@.len() * 128 <= i32::MAX,
            bytes * output <= weight.data.len(),
            dots@.len() == j,
            forall|k: int|
                0 <= k < j ==> #[trigger] dots@[k] == dot(
                    weight.data@,
                    k * (act@.len() as int / 4),
                    act@,
                    0,
                    act@.len() as int,
                ),
        decreases output - j,
    {
        proof {
            assert(0 <= j * bytes && j * bytes + bytes <= bytes * output) by (nonlinear_arith)
                requires
                    0 <= j < output,
                    0 <= bytes,
            ;
        }
        dots.push(row_dot(weight.data, j * bytes, act));
        j = j + 1;
    }
    Ok((m, dots))
}

} // verus!
