//! Rows of Q4_0: blocks of 32 values of four bits under one half-precision scale.

use crate::error::{Fault, WillametteError};
use crate::model::config::first;
use crate::model::lengths::{check_len, len_fault};
use crate::model::primitives::{f16_to_f32, finite_half, widened, widening_keeps_finiteness};
use crate::text::{cat3, dec, decimal, owned};
use crate::gguf::tensor::is_finite_bits;
use vstd::prelude::*;

verus! {

/// The half-precision pattern at a place.
pub open spec fn half_at(data: Seq<u8>, at: int) -> u16 {
    (data[at] + 0x100 * data[at + 1]) as u16
}

/// The half-precision pattern at a place.
pub fn read_half(data: &[u8], at: usize) -> (bits: u16)
    requires
        at + 1 < data.len(),
    ensures
        bits == half_at(data@, at as int),
{
    data[at] as u16 + 0x100 * data[at + 1] as u16
}

/// A decoded block: each value is `scale` times its quant.
#[derive(Debug)]
pub struct Q4Block {
    /// The scale as single-precision bits.
    pub scale: u32,
    /// The 32 quants, from -8 to 7.
    pub quants: Vec<i8>,
}

/// The lengths of a row do not go together.
pub open spec fn lengths_fault(data: int, values: int) -> Option<Fault> {
    if values % 32 != 0 {
        Some(
            Fault::GgufParse(
                "Q4_0 row length "@ + dec(values) + " is not a multiple of 32"@,
            ),
        )
    } else {
        len_fault("Q4_0 row data length "@, data, " != expected "@, values / 32 * 18)
    }
}

/// Quant `i` of block `b`: the low halves of the sixteen bytes behind the scale
/// come first, then their high halves.
pub open spec fn quant(data: Seq<u8>, b: int, i: int) -> int {
    if i < 16 {
        data[18 * b + 2 + i] as int % 16 - 8
    } else {
        data[18 * b + 2 + i - 16] as int / 16 - 8
    }
}

/// All scales of a row are finite.
pub open spec fn scales_are_finite(data: Seq<u8>, blocks: int) -> bool {
    forall|b: int| 0 <= b < blocks ==> finite_half(#[trigger] half_at(data, 18 * b))
}

/// What keeps a row from being decoded.
pub open spec fn row_fault(data: Seq<u8>, values: int) -> Option<Fault> {
    first(
        lengths_fault(data.len() as int, values),
        if scales_are_finite(data, values / 32) {
            None
        } else {
            Some(Fault::GgufParse("Q4_0 block has a non-finite scale"@))
        },
    )
}

/// A block as the row holds it.
pub open spec fn is_block(block: Q4Block, data: Seq<u8>, b: int) -> bool {
    &&& block.scale == widened(half_at(data, 18 * b))
    &&& block.quants@.len() == 32
    &&& forall|i: int| 0 <= i < 32 ==> #[trigger] block.quants@[i] == quant(data, b, i)
}

/// Checks that the lengths of a row go together.
fn validate_lengths(data: usize, values: usize) -> (r: Result<(), WillametteError>)
    ensures
        match r {
            Ok(_) => lengths_fault(data as int, values as int) is None,
            Err(e) => lengths_fault(data as int, values as int) == Some(e@),
        },
{
    if values % 32 != 0 {
        let n = decimal(values as u64);
        return Err(
            WillametteError::GgufParse(
                cat3("Q4_0 row length ", n.as_str(), " is not a multiple of 32"),
            ),
        );
    }
    check_len("Q4_0 row data length ", data, " != expected ", values / 32 * 18)
}

/// The scale of a block, as single-precision bits.
fn block_scale(data: &[u8], b: usize) -> (r: Result<u32, WillametteError>)
    requires
        18 * b + 1 < data.len(),
    ensures
        match r {
            Ok(bits) => finite_half(half_at(data@, 18 * b as int)) && bits == widened(
                half_at(data@, 18 * b as int),
            ),
            Err(e) => !finite_half(half_at(data@, 18 * b as int)) && e@ == Fault::GgufParse(
                "Q4_0 block has a non-finite scale"@,
            ),
        },
{
    let half: u16 = read_half(data, 18 * b);
    let scale: u32 = f16_to_f32(half);
    proof {
        widening_keeps_finiteness(half);
    }
    if !is_finite_bits(scale) {
        return Err(WillametteError::GgufParse(owned("Q4_0 block has a non-finite scale")));
    }
    Ok(scale)
}

/// The quants of a block.
fn block_quants(data: &[u8], b: usize) -> (quants: Vec<i8>)
    requires
        18 * b + 18 <= data.len(),
    ensures
        quants@.len() == 32,
        forall|i: int| 0 <= i < 32 ==> #[trigger] quants@[i] == quant(data@, b as int, i),
{
    let mut out: Vec<i8> = Vec::new();
    let mut i: usize = 0;
    while i < 16
        invariant
            i <= 16,
            18 * b + 18 <= data.len(),
            out@.len() == i,
            forall|k: int| 0 <= k < i ==> #[trigger] out@[k] == quant(data@, b as int, k),
        decreases 16 - i,
    {
        out.push((data[18 * b + 2 + i] % 16) as i8 - 8);
        i = i + 1;
    }
    let mut j: usize = 0;
    while j < 16
        invariant
            j <= 16,
            18 * b + 18 <= data.len(),
            out@.len() == 16 + j,
            forall|k: int| 0 <= k < 16 + j ==> #[trigger] out@[k] == quant(data@, b as int, k),
        decreases 16 - j,
    {
        out.push((data[18 * b + 2 + j] / 16) as i8 - 8);
        j = j + 1;
    }
    out
}

/// Decodes a row of `values` values.
pub fn decode_row(data: &[u8], values: usize) -> (r: Result<Vec<Q4Block>, WillametteError>)
    ensures
        match r {
            Ok(blocks) => {
                &&& row_fault(data@, values as int) is None
                &&& blocks@.len() == values / 32
                &&& forall|b: int|
                    0 <= b < blocks@.len() ==> is_block(#[trigger] blocks@[b], data@, b)
            },
            Err(e) => row_fault(data@, values as int) == Some(e@),
        },
{
    match validate_lengths(data.len(), values) {
        Ok(_) => {},
        Err(e) => {
            return Err(e);
        },
    }
    let n: usize = values / 32;
    let mut blocks: Vec<Q4Block> = Vec::new();
    let mut b: usize = 0;
    while b < n
        invariant
            b <= n,
            n == values / 32,
            data.len() == 18 * n,
            lengths_fault(data@.len() as int, values as int) is None,
            blocks@.len() == b,
            scales_are_finite(data@, b as int),
            forall|k: int| 0 <= k < b ==> is_block(#[trigger] blocks@[k], data@, k),
        decreases n - b,
    {
        let scale: u32 = match block_scale(data, b) {
            Ok(s) => s,
            Err(e) => {
                return Err(e);
            },
        };
        let quants = block_quants(data, b);
        blocks.push(Q4Block { scale, quants });
        b = b + 1;
    }
    Ok(blocks)
}

} // verus!
