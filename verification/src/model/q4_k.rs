//! Rows of Q4_K and activations of Q8_K: how they are laid out, and the whole
//! numbers that their products are made of.

use crate::error::{Fault, WillametteError};
use crate::gguf::tensor::is_finite_bits;
use crate::model::cached_forward::{all_finite, are_finite};
use crate::model::config::first;
use crate::model::dispatch::CpuFeatures;
use crate::model::lengths::{check_len, len_fault};
use crate::model::primitives::{f16_to_f32, finite_half, widened, widening_keeps_finiteness};
use crate::model::q4_0::{half_at, read_half};
use crate::text::{cat3, cat4, dec, decimal, owned};
use vstd::prelude::*;

verus! {

/// A decoded block of 256 weights. Weight `i` of group `g`, which holds 32 of
/// them, is `d * scales[g] * quants[i] - dmin * mins[g]`.
#[derive(Debug)]
pub struct Q4KBlock {
    /// The scale of the scales, as single-precision bits.
    pub d: u32,
    /// The scale of the minimums, as single-precision bits.
    pub dmin: u32,
    pub scales: Vec<u8>,
    pub mins: Vec<u8>,
    pub quants: Vec<u8>,
}

/// The scale of a group, out of the twelve bytes that start at `at`: six bits,
/// which for the last four groups stand in two places.
pub open spec fn scale_of(row: Seq<u8>, at: int, group: int) -> int {
    if group < 4 {
        row[at + group] as int % 64
    } else {
        row[at + group + 4] as int % 16 + row[at + group - 4] as int / 64 * 16
    }
}

/// The minimum of a group, out of the twelve bytes that start at `at`.
pub open spec fn min_of(row: Seq<u8>, at: int, group: int) -> int {
    if group < 4 {
        row[at + group + 4] as int % 64
    } else {
        row[at + group + 4] as int / 16 + row[at + group] as int / 64 * 16
    }
}

/// Quant `i` out of the 128 bytes that start at `at`: each 32 bytes hold two
/// groups, the first in their low halves and the second in their high halves.
pub open spec fn quant_of(row: Seq<u8>, at: int, i: int) -> int {
    let byte = row[at + i / 64 * 32 + i % 32] as int;
    if i / 32 % 2 == 0 {
        byte % 16
    } else {
        byte / 16
    }
}

/// Scale and minimum of a group.
pub fn scale_min(row: &[u8], at: usize, group: usize) -> (r: (u8, u8))
    requires
        group < 8,
        at + 12 <= row.len(),
    ensures
        r.0 == scale_of(row@, at as int, group as int),
        r.1 == min_of(row@, at as int, group as int),
        r.0 < 64,
        r.1 < 64,
{
    if group < 4 {
        (row[at + group] % 64, row[at + group + 4] % 64)
    } else {
        (
            row[at + group + 4] % 16 + row[at + group - 4] / 64 * 16,
            row[at + group + 4] / 16 + row[at + group] / 64 * 16,
        )
    }
}

/// One quant.
fn quant_at(row: &[u8], at: usize, i: usize) -> (q: u8)
    requires
        i < 256,
        at + 128 <= row.len(),
    ensures
        q == quant_of(row@, at as int, i as int),
        q < 16,
{
    let byte: u8 = row[at + i / 64 * 32 + i % 32];
    if i / 32 % 2 == 0 {
        byte % 16
    } else {
        byte / 16
    }
}

/// A row has not the bytes that its values take.
pub open spec fn row_len_fault(bytes: int, values: int) -> Option<Fault> {
    if values == 0 || values % 256 != 0 {
        Some(
            Fault::GgufParse(
                "Q4_K value count "@ + dec(values) + " is not a positive multiple of 256"@,
            ),
        )
    } else {
        len_fault("Q4_K row has "@, bytes, " bytes, expected "@, values / 256 * 144)
    }
}

/// Checks that a row has the bytes that its values take.
pub fn validate_row(row: &[u8], values: usize) -> (r: Result<(), WillametteError>)
    ensures
        match r {
            Ok(_) => row_len_fault(row@.len() as int, values as int) is None,
            Err(e) => row_len_fault(row@.len() as int, values as int) == Some(e@),
        },
{
    if values == 0 || values % 256 != 0 {
        let n = decimal(values as u64);
        return Err(
            WillametteError::GgufParse(
                cat3("Q4_K value count ", n.as_str(), " is not a positive multiple of 256"),
            ),
        );
    }
    check_len("Q4_K row has ", row.len(), " bytes, expected ", values / 256 * 144)
}

/// Both scales of a block are finite.
pub open spec fn block_is_finite(row: Seq<u8>, b: int) -> bool {
    finite_half(half_at(row, 144 * b)) && finite_half(half_at(row, 144 * b + 2))
}

/// The scales of all blocks are finite.
pub open spec fn super_scales_are_finite(row: Seq<u8>, blocks: int) -> bool {
    forall|b: int| 0 <= b < blocks ==> #[trigger] block_is_finite(row, b)
}

/// A block has a scale that is no finite number.
pub open spec fn super_scale_fault() -> Fault {
    Fault::GgufParse("Q4_K block has a non-finite d or dmin scale"@)
}

/// The two scales of a block, as single-precision bits.
pub fn block_super_scales(row: &[u8], b: usize) -> (r: Result<(u32, u32), WillametteError>)
    requires
        144 * b + 4 <= row.len(),
    ensures
        match r {
            Ok((d, dmin)) => {
                &&& block_is_finite(row@, b as int)
                &&& d == widened(half_at(row@, 144 * b as int))
                &&& dmin == widened(half_at(row@, 144 * b as int + 2))
            },
            Err(e) => !block_is_finite(row@, b as int) && e@ == super_scale_fault(),
        },
{
    let first_half: u16 = read_half(row, 144 * b);
    let second_half: u16 = read_half(row, 144 * b + 2);
    let d: u32 = f16_to_f32(first_half);
    let dmin: u32 = f16_to_f32(second_half);
    proof {
        widening_keeps_finiteness(first_half);
        widening_keeps_finiteness(second_half);
    }
    if !is_finite_bits(d) || !is_finite_bits(dmin) {
        return Err(
            WillametteError::GgufParse(owned("Q4_K block has a non-finite d or dmin scale")),
        );
    }
    Ok((d, dmin))
}

/// Checks the scales of all blocks of a row.
pub fn validate_super_scales(row: &[u8]) -> (r: Result<(), WillametteError>)
    ensures
        match r {
            Ok(_) => super_scales_are_finite(row@, row@.len() as int / 144),
            Err(e) => !super_scales_are_finite(row@, row@.len() as int / 144) && e@
                == super_scale_fault(),
        },
{
    let n: usize = row.len() / 144;
    let mut b: usize = 0;
    while b < n
        invariant
            b <= n,
            n == row@.len() / 144,
            super_scales_are_finite(row@, b as int),
        decreases n - b,
    {
        match block_super_scales(row, b) {
            Ok(_) => {},
            Err(e) => {
                return Err(e);
            },
        }
        b = b + 1;
    }
    Ok(())
}

/// What keeps a row from being decoded.
pub open spec fn row_fault(row: Seq<u8>, values: int) -> Option<Fault> {
    first(
        row_len_fault(row.len() as int, values),
        if super_scales_are_finite(row, row.len() as int / 144) {
            None
        } else {
            Some(super_scale_fault())
        },
    )
}

/// A block as the row holds it.
pub open spec fn is_block(block: Q4KBlock, row: Seq<u8>, b: int) -> bool {
    &&& block.d == widened(half_at(row, 144 * b))
    &&& block.dmin == widened(half_at(row, 144 * b + 2))
    &&& block.scales@.len() == 8
    &&& block.mins@.len() == 8
    &&& block.quants@.len() == 256
    &&& forall|g: int|
        0 <= g < 8 ==> #[trigger] block.scales@[g] == scale_of(row, 144 * b + 4, g)
    &&& forall|g: int| 0 <= g < 8 ==> #[trigger] block.mins@[g] == min_of(row, 144 * b + 4, g)
    &&& forall|i: int|
        0 <= i < 256 ==> #[trigger] block.quants@[i] == quant_of(row, 144 * b + 16, i)
}

/// Decodes one block.
fn decode_block(row: &[u8], b: usize) -> (r: Result<Q4KBlock, WillametteError>)
    requires
        144 * b + 144 <= row.len(),
    ensures
        match r {
            Ok(block) => block_is_finite(row@, b as int) && is_block(block, row@, b as int),
            Err(e) => !block_is_finite(row@, b as int) && e@ == super_scale_fault(),
        },
{
    let (d, dmin) = match block_super_scales(row, b) {
        Ok(pair) => pair,
        Err(e) => {
            return Err(e);
        },
    };
    let mut scales: Vec<u8> = Vec::new();
    let mut mins: Vec<u8> = Vec::new();
    let mut g: usize = 0;
    while g < 8
        invariant
            g <= 8,
            144 * b + 144 <= row.len(),
            scales@.len() == g,
            mins@.len() == g,
            forall|k: int|
                0 <= k < g ==> #[trigger] scales@[k] == scale_of(row@, 144 * b + 4, k),
            forall|k: int| 0 <= k < g ==> #[trigger] mins@[k] == min_of(row@, 144 * b + 4, k),
        decreases 8 - g,
    {
        let (scale, minimum) = scale_min(row, 144 * b + 4, g);
        scales.push(scale);
        mins.push(minimum);
        g = g + 1;
    }
    let mut quants: Vec<u8> = Vec::new();
    let mut i: usize = 0;
    while i < 256
        invariant
            i <= 256,
            144 * b + 144 <= row.len(),
            quants@.len() == i,
            forall|k: int|
                0 <= k < i ==> #[trigger] quants@[k] == quant_of(row@, 144 * b + 16, k),
        decreases 256 - i,
    {
        quants.push(quant_at(row, 144 * b + 16, i));
        i = i + 1;
    }
    Ok(Q4KBlock { d, dmin, scales, mins, quants })
}

/// Decodes a row of `values` weights.
pub fn decode_row(row: &[u8], values: usize) -> (r: Result<Vec<Q4KBlock>, WillametteError>)
    ensures
        match r {
            Ok(blocks) => {
                &&& row_fault(row@, values as int) is None
                &&& blocks@.len() == values / 256
                &&& forall|b: int|
                    0 <= b < blocks@.len() ==> is_block(#[trigger] blocks@[b], row@, b)
            },
            Err(e) => row_fault(row@, values as int) == Some(e@),
        },
{
    match validate_row(row, values) {
        Ok(_) => {},
        Err(e) => {
            return Err(e);
        },
    }
    let n: usize = values / 256;
    let mut blocks: Vec<Q4KBlock> = Vec::new();
    let mut b: usize = 0;
    while b < n
        invariant
            b <= n,
            n == values / 256,
            row.len() == 144 * n,
            row_len_fault(row@.len() as int, values as int) is None,
            blocks@.len() == b,
            super_scales_are_finite(row@, b as int),
            forall|k: int| 0 <= k < b ==> is_block(#[trigger] blocks@[k], row@, k),
        decreases n - b,
    {
        match decode_block(row, b) {
            Ok(block) => {
                blocks.push(block);
            },
            Err(e) => {
                proof {
                    assert(row@.len() as int / 144 == n);
                }
                return Err(e);
            },
        }
        b = b + 1;
    }
    proof {
        assert(row@.len() as int / 144 == n);
    }
    Ok(blocks)
}

/// What keeps one row from being multiplied with several inputs at once.
pub open spec fn rows_fault(row: Seq<u8>, inputs: int, input_dim: int, outputs: int) -> Option<
    Fault,
> {
    if row_len_fault(row.len() as int, input_dim) is Some {
        row_len_fault(row.len() as int, input_dim)
    } else if input_dim * outputs > usize::MAX {
        Some(Fault::GgufParse("Q4_K batched input size overflow"@))
    } else if inputs != input_dim * outputs {
        Some(
            Fault::GgufParse(
                "Q4_K batched input length "@ + dec(inputs) + " != expected "@ + dec(
                    input_dim * outputs,
                ),
            ),
        )
    } else if outputs == 0 {
        Some(Fault::GgufParse("Q4_K batched token count must be positive"@))
    } else if !super_scales_are_finite(row, row.len() as int / 144) {
        Some(super_scale_fault())
    } else {
        None
    }
}

/// Checks one row against several inputs, each of `input_dim` values, and the
/// outputs, one for each input.
pub fn check_dot_rows(row: &[u8], inputs: usize, input_dim: usize, outputs: usize) -> (r: Result<
    (),
    WillametteError,
>)
    ensures
        match r {
            Ok(_) => rows_fault(row@, inputs as int, input_dim as int, outputs as int) is None,
            Err(e) => rows_fault(row@, inputs as int, input_dim as int, outputs as int) == Some(
                e@,
            ),
        },
{
    match validate_row(row, input_dim) {
        Ok(_) => {},
        Err(e) => {
            return Err(e);
        },
    }
    let expected: usize = match input_dim.checked_mul(outputs) {
        Some(n) => n,
        None => {
            return Err(WillametteError::GgufParse(owned("Q4_K batched input size overflow")));
        },
    };
    if inputs != expected {
        let a = decimal(inputs as u64);
        let b = decimal(expected as u64);
        return Err(
            WillametteError::GgufParse(
                cat4("Q4_K batched input length ", a.as_str(), " != expected ", b.as_str()),
            ),
        );
    }
    if outputs == 0 {
        return Err(
            WillametteError::GgufParse(owned("Q4_K batched token count must be positive")),
        );
    }
    validate_super_scales(row)
}

/// The sum of the quants from `from` to before `to`.
pub open spec fn quant_sum(qs: Seq<i8>, from: int, to: int) -> int
    decreases to - from,
{
    if to <= from {
        0
    } else {
        quant_sum(qs, from, to - 1) + qs[to - 1]
    }
}

/// A block of 256 quantised activations. Activation `i` is `d` times its quant.
#[derive(Debug)]
pub struct Q8KBlock {
    /// The scale, as single-precision bits.
    pub d: u32,
    pub qs: Vec<i8>,
    /// The sums of each sixteen quants.
    pub bsums: Vec<i16>,
}

impl Q8KBlock {
    /// The block has 256 quants and the sums of each sixteen.
    pub open spec fn wf(&self) -> bool {
        &&& self.qs@.len() == 256
        &&& self.bsums@.len() == 16
        &&& forall|g: int|
            0 <= g < 16 ==> #[trigger] self.bsums@[g] == quant_sum(self.qs@, 16 * g, 16 * g + 16)
    }
}

/// A sum of quants is bounded by their number.
proof fn lemma_quant_sum_bound(qs: Seq<i8>, from: int, to: int)
    requires
        0 <= from <= to <= qs.len(),
    ensures
        -128 * (to - from) <= quant_sum(qs, from, to) <= 127 * (to - from),
    decreases to - from,
{
    if from < to {
        lemma_quant_sum_bound(qs, from, to - 1);
    }
}

/// Two sums that meet are one.
proof fn lemma_quant_sum_joins(qs: Seq<i8>, from: int, mid: int, to: int)
    requires
        from <= mid <= to,
    ensures
        quant_sum(qs, from, mid) + quant_sum(qs, mid, to) == quant_sum(qs, from, to),
    decreases to - mid,
{
    if mid < to {
        lemma_quant_sum_joins(qs, from, mid, to - 1);
    }
}

/// The sum of one group of sixteen quants.
fn sum_sixteen(qs: &[i8], from: usize) -> (s: i16)
    requires
        from + 16 <= qs.len(),
    ensures
        s == quant_sum(qs@, from as int, from as int + 16),
{
    let mut sum: i16 = 0;
    let mut i: usize = 0;
    while i < 16
        invariant
            i <= 16,
            from + 16 <= qs.len(),
            sum == quant_sum(qs@, from as int, from + i),
        decreases 16 - i,
    {
        proof {
            lemma_quant_sum_bound(qs@, from as int, from + i);
        }
        sum = sum + qs[from + i] as i16;
        i = i + 1;
    }
    sum
}

/// The sums of each sixteen of 256 quants.
fn sums_of(qs: &[i8]) -> (bsums: Vec<i16>)
    requires
        qs@.len() == 256,
    ensures
        bsums@.len() == 16,
        forall|g: int|
            0 <= g < 16 ==> #[trigger] bsums@[g] == quant_sum(qs@, 16 * g, 16 * g + 16),
{
    let mut bsums: Vec<i16> = Vec::new();
    let mut g: usize = 0;
    while g < 16
        invariant
            g <= 16,
            qs@.len() == 256,
            bsums@.len() == g,
            forall|k: int|
                0 <= k < g ==> #[trigger] bsums@[k] == quant_sum(qs@, 16 * k, 16 * k + 16),
        decreases 16 - g,
    {
        bsums.push(sum_sixteen(qs, 16 * g));
        g = g + 1;
    }
    bsums
}

/// The size of a number, out of its bits.
pub open spec fn magnitude(bits: u32) -> int {
    bits as int % 0x8000_0000
}

/// Of the first `n` numbers from `from` on, the first one of the largest size;
/// zero where there is none.
pub open spec fn extreme(input: Seq<u32>, from: int, n: int) -> u32
    decreases n,
{
    if n <= 0 {
        0
    } else {
        let m = extreme(input, from, n - 1);
        if magnitude(input[from + n - 1]) > magnitude(m) {
            input[from + n - 1]
        } else {
            m
        }
    }
}

/// The bits of the number by which block `b` of an activation is scaled.
pub fn block_extreme(input: &[u32], b: usize) -> (bits: u32)
    requires
        256 * b + 256 <= input.len(),
    ensures
        bits == extreme(input@, 256 * b as int, 256),
{
    let mut m: u32 = 0;
    let mut i: usize = 0;
    while i < 256
        invariant
            i <= 256,
            256 * b + 256 <= input.len(),
            m == extreme(input@, 256 * b as int, i as int),
        decreases 256 - i,
    {
        let v: u32 = input[256 * b + i];
        if v % 0x8000_0000 > m % 0x8000_0000 {
            m = v;
        }
        i = i + 1;
    }
    m
}

/// The extreme is at least as large as each of the numbers, and of two of the
/// same size it is the first.
pub proof fn extreme_is_first_and_largest(input: Seq<u32>, from: int, n: int)
    requires
        0 <= from,
        0 <= n,
        from + n <= input.len(),
    ensures
        forall|i: int|
            from <= i < from + n ==> magnitude(#[trigger] input[i]) <= magnitude(
                extreme(input, from, n),
            ),
        magnitude(extreme(input, from, n)) > 0 ==> exists|i: int|
            #![trigger input[i]]
            from <= i < from + n && input[i] == extreme(input, from, n) && (forall|j: int|
                from <= j < i ==> magnitude(#[trigger] input[j]) < magnitude(input[i])),
    decreases n,
{
    if n > 0 {
        extreme_is_first_and_largest(input, from, n - 1);
        let m = extreme(input, from, n - 1);
        let last = input[from + n - 1];
        if magnitude(last) > magnitude(m) {
            assert(extreme(input, from, n) == last);
        } else if magnitude(m) > 0 {
            let i = choose|i: int|
                #![trigger input[i]]
                from <= i < from + n - 1 && input[i] == m && (forall|j: int|
                    from <= j < i ==> magnitude(#[trigger] input[j]) < magnitude(input[i]));
            assert(input[i] == extreme(input, from, n));
        }
    }
}

/// What keeps numbers from being quantised.
pub open spec fn activation_fault(input: Seq<u32>) -> Option<Fault> {
    if input.len() == 0 || input.len() % 256 != 0 {
        Some(
            Fault::GgufParse(
                "Q8_K activation length "@ + dec(input.len() as int)
                    + " is not a positive multiple of 256"@,
            ),
        )
    } else if !all_finite(input) {
        Some(Fault::GgufParse("Q8_K activation contains a non-finite value"@))
    } else {
        None
    }
}

/// Quantised activations.
#[derive(Debug)]
pub struct Q8KActivation {
    pub blocks: Vec<Q8KBlock>,
    pub values: usize,
}

/// Block `b` of quantised activations: nothing but zeros where all numbers are
/// zero, and otherwise the scale and the quants that were computed for it.
pub open spec fn is_quantized(block: Q8KBlock, input: Seq<u32>, b: int, scaled: (u32, Vec<i8>)) -> bool {
    &&& block.wf()
    &&& if magnitude(extreme(input, 256 * b, 256)) == 0 {
        block.d == 0 && forall|i: int| 0 <= i < 256 ==> #[trigger] block.qs@[i] == 0
    } else {
        block.d == scaled.0 && block.qs@ == scaled.1@
    }
}

/// A list of zeros.
fn zeros() -> (qs: Vec<i8>)
    ensures
        qs@.len() == 256,
        forall|i: int| 0 <= i < 256 ==> #[trigger] qs@[i] == 0,
{
    let mut qs: Vec<i8> = Vec::new();
    let mut i: usize = 0;
    while i < 256
        invariant
            i <= 256,
            qs@.len() == i,
            forall|k: int| 0 <= k < i ==> #[trigger] qs@[k] == 0,
        decreases 256 - i,
    {
        qs.push(0);
        i = i + 1;
    }
    qs
}

/// A copy of a list of quants.
fn copied(from: &Vec<i8>) -> (qs: Vec<i8>)
    ensures
        qs@ == from@,
{
    let mut qs: Vec<i8> = Vec::new();
    let mut i: usize = 0;
    while i < from.len()
        invariant
            i <= from@.len(),
            qs@ =~= from@.take(i as int),
        decreases from@.len() - i,
    {
        qs.push(from[i]);
        i = i + 1;
    }
    proof {
        assert(from@.take(from@.len() as int) =~= from@);
    }
    qs
}

impl Q8KActivation {
    /// Every block is as it should be.
    pub open spec fn wf(&self) -> bool {
        forall|b: int| 0 <= b < self.blocks@.len() ==> (#[trigger] self.blocks@[b]).wf()
    }

    /// Activations without values.
    pub fn new() -> (a: Self)
        ensures
            a.wf(),
            a.blocks@.len() == 0,
            a.values == 0,
    {
        Q8KActivation { blocks: Vec::new(), values: 0 }
    }

    /// Quantised activations of numbers, which are given as bits. For each block
    /// `scaled` has what was computed from its extreme: the scale, as bits, and
    /// the quants.
    pub fn from_f32(input: &[u32], scaled: &[(u32, Vec<i8>)]) -> (r: Result<Self, WillametteError>)
        requires
            activation_fault(input@) is None ==> scaled@.len() == input@.len() / 256 && forall|
                b: int,
            |
                0 <= b < scaled@.len() ==> (#[trigger] scaled@[b]).1@.len() == 256,
        ensures
            match r {
                Ok(a) => {
                    &&& activation_fault(input@) is None
                    &&& a.wf()
                    &&& a.values == input@.len()
                    &&& a.blocks@.len() == input@.len() / 256
                    &&& forall|b: int|
                        0 <= b < a.blocks@.len() ==> is_quantized(
                            #[trigger] a.blocks@[b],
                            input@,
                            b,
                            scaled@[b],
                        )
                },
                Err(e) => activation_fault(input@) == Some(e@),
            },
    {
        let mut a = Self::new();
        match a.quantize(input, scaled) {
            Ok(_) => Ok(a),
            Err(e) => Err(e),
        }
    }

    /// Replaces the activations. Where the numbers cannot be quantised, they stay
    /// as they were.
    pub fn quantize(&mut self, input: &[u32], scaled: &[(u32, Vec<i8>)]) -> (r: Result<
        (),
        WillametteError,
    >)
        requires
            activation_fault(input@) is None ==> scaled@.len() == input@.len() / 256 && forall|
                b: int,
            |
                0 <= b < scaled@.len() ==> (#[trigger] scaled@[b]).1@.len() == 256,
        ensures
            match r {
                Ok(_) => {
                    &&& activation_fault(input@) is None
                    &&& final(self).wf()
                    &&& final(self).values == input@.len()
                    &&& final(self).blocks@.len() == input@.len() / 256
                    &&& forall|b: int|
                        0 <= b < final(self).blocks@.len() ==> is_quantized(
                            #[trigger] final(self).blocks@[b],
                            input@,
                            b,
                            scaled@[b],
                        )
                },
                Err(e) => activation_fault(input@) == Some(e@) && *final(self) == *old(self),
            },
    {
        let len: usize = input.len();
        if len == 0 || len % 256 != 0 {
            let n = decimal(len as u64);
            return Err(
                WillametteError::GgufParse(
                    cat3(
                        "Q8_K activation length ",
                        n.as_str(),
                        " is not a positive multiple of 256",
                    ),
                ),
            );
        }
        if !are_finite(input) {
            return Err(
                WillametteError::GgufParse(owned("Q8_K activation contains a non-finite value")),
            );
        }
        let count: usize = len / 256;
        let mut blocks: Vec<Q8KBlock> = Vec::new();
        let mut b: usize = 0;
        while b < count
            invariant
                b <= count,
                count == input@.len() / 256,
                scaled@.len() == count,
                forall|k: int| 0 <= k < scaled@.len() ==> (#[trigger] scaled@[k]).1@.len() == 256,
                blocks@.len() == b,
                forall|k: int|
                    0 <= k < b ==> is_quantized(#[trigger] blocks@[k], input@, k, scaled@[k]),
            decreases count - b,
        {
            let block = if block_extreme(input, b) % 0x8000_0000 == 0 {
                let qs = zeros();
                let bsums = sums_of(qs.as_slice());
                Q8KBlock { d: 0, qs, bsums }
            } else {
                let qs = copied(&scaled[b].1);
                let bsums = sums_of(qs.as_slice());
                Q8KBlock { d: scaled[b].0, qs, bsums }
            };
            blocks.push(block);
            b = b + 1;
        }
        self.blocks = blocks;
        self.values = len;
        Ok(())
    }

    /// How many values there are.
    pub fn len(&self) -> (n: usize)
        ensures
            n == self.values,
    {
        self.values
    }

    /// Whether there are no values.
    pub fn is_empty(&self) -> (b: bool)
        ensures
            b == (self.values == 0),
    {
        self.values == 0
    }
}

/// The product of the first `n` quants of a group with their activations.
pub open spec fn group_dot(row: Seq<u8>, at: int, qs: Seq<i8>, group: int, n: int) -> int
    decreases n,
{
    if n <= 0 {
        0
    } else {
        group_dot(row, at, qs, group, n - 1) + quant_of(row, at, 32 * group + n - 1) * qs[32
            * group + n - 1]
    }
}

/// The products of the first `groups` groups, each times its scale. The block
/// starts at `at`.
pub open spec fn scaled_sum(row: Seq<u8>, at: int, qs: Seq<i8>, groups: int) -> int
    decreases groups,
{
    if groups <= 0 {
        0
    } else {
        scaled_sum(row, at, qs, groups - 1) + scale_of(row, at + 4, groups - 1) * group_dot(
            row,
            at + 16,
            qs,
            groups - 1,
            32,
        )
    }
}

/// The sums of the activations of the first `groups` groups, each times its
/// minimum.
pub open spec fn minimum_sum(row: Seq<u8>, at: int, bsums: Seq<i16>, groups: int) -> int
    decreases groups,
{
    if groups <= 0 {
        0
    } else {
        minimum_sum(row, at, bsums, groups - 1) + min_of(row, at + 4, groups - 1) * (bsums[2 * (
        groups - 1)] + bsums[2 * (groups - 1) + 1])
    }
}

/// What the product of a block of weights with a block of activations is made
/// of: it is `d * activation_d * scaled - dmin * activation_d * minimum`. Scales
/// are held as single-precision bits.
#[derive(Debug, Clone, Copy, PartialEq, Eq, Structural)]
pub struct BlockDot {
    pub d: u32,
    pub dmin: u32,
    pub activation_d: u32,
    pub scaled: i32,
    pub minimum: i32,
}

/// The product of a group with its activations.
fn dot_group(row: &[u8], at: usize, qs: &[i8], group: usize) -> (dot: i32)
    requires
        group < 8,
        at + 128 <= row.len(),
        qs@.len() == 256,
    ensures
        dot == group_dot(row@, at as int, qs@, group as int, 32),
        -61440 <= dot <= 61440,
{
    let mut dot: i32 = 0;
    let mut i: usize = 0;
    while i < 32
        invariant
            i <= 32,
            group < 8,
            at + 128 <= row.len(),
            qs@.len() == 256,
            dot == group_dot(row@, at as int, qs@, group as int, i as int),
            -1920 * i <= dot <= 1920 * i,
        decreases 32 - i,
    {
        let q: i32 = quant_at(row, at, 32 * group + i) as i32;
        let a: i32 = qs[32 * group + i] as i32;
        proof {
            assert(-1920 <= q * a <= 1920) by (nonlinear_arith)
                requires
                    0 <= q < 16,
                    -128 <= a <= 127,
            ;
        }
        dot = dot + q * a;
        i = i + 1;
    }
    dot
}

/// The whole numbers behind the product of a block of weights with a block of
/// activations.
fn dot_block(row: &[u8], at: usize, activation: &Q8KBlock) -> (r: (i32, i32))
    requires
        at + 144 <= row.len(),
        activation.wf(),
    ensures
        r.0 == scaled_sum(row@, at as int, activation.qs@, 8),
        r.1 == minimum_sum(row@, at as int, activation.bsums@, 8),
{
    let mut scaled: i32 = 0;
    let mut minimum: i32 = 0;
    let mut g: usize = 0;
    while g < 8
        invariant
            g <= 8,
            at + 144 <= row.len(),
            activation.wf(),
            scaled == scaled_sum(row@, at as int, activation.qs@, g as int),
            minimum == minimum_sum(row@, at as int, activation.bsums@, g as int),
            -3870720 * g <= scaled <= 3870720 * g,
            -258048 * g <= minimum <= 258048 * g,
        decreases 8 - g,
    {
        let (scale, least) = scale_min(row, at + 4, g);
        let dot: i32 = dot_group(row, at + 16, activation.qs.as_slice(), g);
        proof {
            assert(-3870720 <= scale * dot <= 3870720) by (nonlinear_arith)
                requires
                    0 <= scale < 64,
                    -61440 <= dot <= 61440,
            ;
            lemma_quant_sum_bound(activation.qs@, 32 * g as int, 32 * g as int + 16);
            lemma_quant_sum_bound(activation.qs@, 32 * g as int + 16, 32 * g as int + 32);
            assert(activation.bsums@[2 * g as int] == quant_sum(
                activation.qs@,
                32 * g as int,
                32 * g as int + 16,
            ));
            assert(activation.bsums@[2 * g as int + 1] == quant_sum(
                activation.qs@,
                32 * g as int + 16,
                32 * g as int + 32,
            ));
        }
        let sum: i32 = activation.bsums[2 * g] as i32 + activation.bsums[2 * g + 1] as i32;
        proof {
            assert(-258048 <= least * sum <= 258048) by (nonlinear_arith)
                requires
                    0 <= least < 64,
                    -4096 <= sum <= 4096,
            ;
        }
        scaled = scaled + scale as i32 * dot;
        minimum = minimum + least as i32 * sum;
        g = g + 1;
    }
    (scaled, minimum)
}

/// What keeps a row from being multiplied with quantised activations.
pub open spec fn dot_fault(row: Seq<u8>, input: Q8KActivation) -> Option<Fault> {
    if input.values == 0 || input.blocks@.len() * 256 != input.values {
        Some(Fault::GgufParse("Q8_K activation has invalid dimensions"@))
    } else {
        row_fault(row, input.values as int)
    }
}

/// Part `b` of the product of a row with quantised activations.
pub open spec fn is_dot(part: BlockDot, row: Seq<u8>, input: Q8KActivation, b: int) -> bool {
    &&& part.d == widened(half_at(row, 144 * b))
    &&& part.dmin == widened(half_at(row, 144 * b + 2))
    &&& part.activation_d == input.blocks@[b].d
    &&& part.scaled == scaled_sum(row, 144 * b, input.blocks@[b].qs@, 8)
    &&& part.minimum == minimum_sum(row, 144 * b, input.blocks@[b].bsums@, 8)
}

/// The parts of the product of a row with quantised activations, block by block.
pub fn dot_row_q8_k(row: &[u8], input: &Q8KActivation) -> (r: Result<
    Vec<BlockDot>,
    WillametteError,
>)
    requires
        input.wf(),
    ensures
        match r {
            Ok(parts) => {
                &&& dot_fault(row@, *input) is None
                &&& parts@.len() == input.blocks@.len()
                &&& forall|b: int|
                    0 <= b < parts@.len() ==> is_dot(#[trigger] parts@[b], row@, *input, b)
            },
            Err(e) => dot_fault(row@, *input) == Some(e@),
        },
{
    let n: usize = input.blocks.len();
    let whole = match n.checked_mul(256) {
        Some(m) => m == input.values,
        None => false,
    };
    if input.values == 0 || !whole {
        return Err(WillametteError::GgufParse(owned("Q8_K activation has invalid dimensions")));
    }
    match validate_row(row, input.values) {
        Ok(_) => {},
        Err(e) => {
            return Err(e);
        },
    }
    match validate_super_scales(row) {
        Ok(_) => {},
        Err(e) => {
            return Err(e);
        },
    }
    let mut parts: Vec<BlockDot> = Vec::new();
    let mut b: usize = 0;
    while b < n
        invariant
            b <= n,
            n == input.blocks@.len(),
            row.len() == 144 * n,
            input.wf(),
            super_scales_are_finite(row@, n as int),
            parts@.len() == b,
            forall|k: int| 0 <= k < b ==> is_dot(#[trigger] parts@[k], row@, *input, k),
        decreases n - b,
    {
        let (d, dmin) = match block_super_scales(row, b) {
            Ok(pair) => pair,
            Err(e) => {
                proof {
                    assert(block_is_finite(row@, b as int));
                }
                return Err(e);
            },
        };
        let (scaled, minimum) = dot_block(row, 144 * b, &input.blocks[b]);
        parts.push(BlockDot { d, dmin, activation_d: input.blocks[b].d, scaled, minimum });
        b = b + 1;
    }
    Ok(parts)
}

/// Weight `i` of a block times its activation, for whole numbers in place of the
/// scales.
pub open spec fn weighted(row: Seq<u8>, at: int, qs: Seq<i8>, d: int, dmin: int, i: int) -> int {
    (d * scale_of(row, at + 4, i / 32) * quant_of(row, at + 16, i) - dmin * min_of(
        row,
        at + 4,
        i / 32,
    )) * qs[i]
}

/// The product of the first `n` weights of a block with their activations.
pub open spec fn weights_dot(row: Seq<u8>, at: int, qs: Seq<i8>, d: int, dmin: int, n: int) -> int
    decreases n,
{
    if n <= 0 {
        0
    } else {
        weights_dot(row, at, qs, d, dmin, n - 1) + weighted(row, at, qs, d, dmin, n - 1)
    }
}

proof fn lemma_group_of_weights(
    row: Seq<u8>,
    at: int,
    qs: Seq<i8>,
    d: int,
    dmin: int,
    g: int,
    n: int,
)
    requires
        0 <= g,
        0 <= n <= 32,
    ensures
        weights_dot(row, at, qs, d, dmin, 32 * g + n) == weights_dot(row, at, qs, d, dmin, 32 * g)
            + d * scale_of(row, at + 4, g) * group_dot(row, at + 16, qs, g, n) - dmin * min_of(
            row,
            at + 4,
            g,
        ) * quant_sum(qs, 32 * g, 32 * g + n),
    decreases n,
{
    let s = d * scale_of(row, at + 4, g);
    let m = dmin * min_of(row, at + 4, g);
    if n > 0 {
        lemma_group_of_weights(row, at, qs, d, dmin, g, n - 1);
        let i = 32 * g + n - 1;
        assert(i / 32 == g);
        let q = quant_of(row, at + 16, i);
        let a = qs[i] as int;
        let dot = group_dot(row, at + 16, qs, g, n - 1);
        let sum = quant_sum(qs, 32 * g, 32 * g + n - 1);
        assert(weighted(row, at, qs, d, dmin, i) == (s * q - m) * a);
        assert(s * (dot + q * a) - m * (sum + a) == s * dot - m * sum + (s * q - m) * a)
            by (nonlinear_arith);
    } else {
        assert(s * 0 - m * 0 == 0) by (nonlinear_arith);
    }
}

/// The two whole numbers of a block are all that the product of its weights with
/// the activations needs: for every `d` and `dmin`, the sum of the weights times
/// their activations is `d * scaled - dmin * minimum`.
pub proof fn block_product_is_exact(row: Seq<u8>, at: int, block: Q8KBlock, d: int, dmin: int, g: int)
    requires
        block.wf(),
        0 <= g <= 8,
    ensures
        weights_dot(row, at, block.qs@, d, dmin, 32 * g) == d * scaled_sum(row, at, block.qs@, g)
            - dmin * minimum_sum(row, at, block.bsums@, g),
    decreases g,
{
    let qs = block.qs@;
    if g > 0 {
        block_product_is_exact(row, at, block, d, dmin, g - 1);
        lemma_group_of_weights(row, at, qs, d, dmin, g - 1, 32);
        lemma_quant_sum_joins(qs, 32 * (g - 1), 32 * (g - 1) + 16, 32 * g);
        assert(block.bsums@[2 * (g - 1)] == quant_sum(qs, 32 * (g - 1), 32 * (g - 1) + 16));
        assert(block.bsums@[2 * (g - 1) + 1] == quant_sum(qs, 32 * (g - 1) + 16, 32 * g));
        let s = scale_of(row, at + 4, g - 1);
        let m = min_of(row, at + 4, g - 1);
        let dot = group_dot(row, at + 16, qs, g - 1, 32);
        let sum = quant_sum(qs, 32 * (g - 1), 32 * g);
        let before = scaled_sum(row, at, qs, g - 1);
        let least = minimum_sum(row, at, block.bsums@, g - 1);
        assert(d * before - dmin * least + d * s * dot - dmin * m * sum == d * (before + s * dot)
            - dmin * (least + m * sum)) by (nonlinear_arith);
    } else {
        assert(d * 0 - dmin * 0 == 0) by (nonlinear_arith);
    }
}

/// What the kernel for Q4_K rows is called on a processor.
pub open spec fn kernel_label(cpu: CpuFeatures) -> Seq<char> {
    if cpu.x86() && cpu.avx2 {
        "Q4_K AVX2"@
    } else if cpu.x86() && cpu.sse2 {
        "Q4_K SSE2"@
    } else {
        "Q4_K scalar"@
    }
}

/// What the kernel for Q4_K rows is called on a processor.
pub fn active_kernel_label(cpu: &CpuFeatures) -> (s: &'static str)
    ensures
        s@ == kernel_label(*cpu),
{
    if cpu.is_x86() {
        if cpu.avx2 {
            return "Q4_K AVX2";
        }
        if cpu.sse2 {
            return "Q4_K SSE2";
        }
    }
    "Q4_K scalar"
}

} // verus!
