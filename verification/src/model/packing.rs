//! How weights are packed, and that reading gives back what was packed: the laws of
//! the quantised layouts.

use crate::model::bitlinear::{code_at, dot, ternary, weight_at};
use crate::model::bitlinear_lut::weights_of;
use crate::model::bitlinear_sparse::{
    entry_sum, is_sparse, sparse_rows_give_the_same_sums, visited, SparseWeight,
};
use crate::model::bitlinear_sse2::block_dot;
use crate::gguf::tensor::TensorView;
use crate::model::primitives::finite_half;
use crate::model::q4_0;
use crate::model::q4_0::Q4Block;
use crate::model::q4_k;
use crate::model::q4_k::{
    block_product_is_exact, is_dot, min_of, quant_of, quant_sum, scale_of, weighted, weights_dot,
    BlockDot, Q4KBlock, Q8KActivation, Q8KBlock,
};
use crate::number::{half, single, widening_keeps_the_number};
use vstd::arithmetic::power2::*;
use vstd::prelude::*;

verus! {

/// The sum of a list of numbers.
pub open spec fn total(list: Seq<int>) -> int
    decreases list.len(),
{
    if list.len() == 0 {
        0
    } else {
        total(list.drop_last()) + list.last()
    }
}

/// The sum of the products of two lists, element by element.
pub open spec fn inner(a: Seq<int>, b: Seq<int>) -> int {
    total(Seq::new(a.len(), |i: int| a[i] * b[i]))
}

/// The numbers of a list of bytes.
pub open spec fn ints(list: Seq<i8>) -> Seq<int> {
    Seq::new(list.len(), |i: int| list[i] as int)
}

/// One more term.
proof fn lemma_total_grows(n: nat, f: spec_fn(int) -> int)
    requires
        n > 0,
    ensures
        total(Seq::new(n, f)) == total(Seq::new((n - 1) as nat, f)) + f(n - 1),
{
    assert(Seq::new(n, f).drop_last() =~= Seq::new((n - 1) as nat, f));
}

/// The value of a two-bit code is one less than the code; the code 3 is no weight and
/// counts for nothing, and bits above the two have no influence.
pub proof fn ternary_values_follow_the_codes(code: int)
    requires
        0 <= code,
    ensures
        code <= 2 ==> ternary(code) == code - 1,
        code == 3 ==> ternary(code) == 0,
        ternary(code + 4) == ternary(code),
{
}

/// Where byte `g` of each block of 32 bytes holds the codes of the columns `g`,
/// `g + 32`, `g + 64` and `g + 96` of its block of 128, from the highest bits to the
/// lowest, each column reads as its code.
pub proof fn packed_codes_read_back(data: Seq<u8>, at: int, codes: Seq<int>, i: int)
    requires
        codes.len() % 128 == 0,
        forall|k: int| 0 <= k < codes.len() ==> 0 <= #[trigger] codes[k] < 4,
        forall|b: int, g: int|
            #![trigger data[at + 32 * b + g]]
            0 <= b < codes.len() / 128 && 0 <= g < 32 ==> data[at + 32 * b + g] == codes[128 * b
                + g] * 64 + codes[128 * b + g + 32] * 16 + codes[128 * b + g + 64] * 4 + codes[128
                * b + g + 96],
        0 <= i < codes.len(),
    ensures
        code_at(data, at, i) == codes[i],
{
    let b = i / 128;
    let g = i % 32;
    let c0 = codes[128 * b + g];
    let c1 = codes[128 * b + g + 32];
    let c2 = codes[128 * b + g + 64];
    let c3 = codes[128 * b + g + 96];
    let byte = data[at + 32 * b + g] as int;
    assert(byte == c0 * 64 + c1 * 16 + c2 * 4 + c3);
    lemma_lanes(byte, c0, c1, c2, c3);
    let lane = i % 128 / 32;
    assert(at + b * 32 + g == at + 32 * b + g);
    assert(i == 128 * b + g + lane * 32);
    assert(0 <= lane < 4);
}

/// Four codes of two bits in one byte.
proof fn lemma_lanes(byte: int, c0: int, c1: int, c2: int, c3: int)
    requires
        0 <= c0 < 4,
        0 <= c1 < 4,
        0 <= c2 < 4,
        0 <= c3 < 4,
        byte == c0 * 64 + c1 * 16 + c2 * 4 + c3,
    ensures
        byte / 64 == c0,
        byte / 16 % 4 == c1,
        byte / 4 % 4 == c2,
        byte % 4 == c3,
{
    let high = c0 * 4 + c1;
    let upper = high * 4 + c2;
    lemma_low_code(upper, c3);
    lemma_low_code(high, c2);
    lemma_low_code(c0, c1);
    assert(byte == upper * 4 + c3);
    assert(byte / 16 == byte / 4 / 4);
    assert(byte / 64 == byte / 4 / 4 / 4);
}

/// The lowest code of a number, and what stands above it.
proof fn lemma_low_code(above: int, code: int)
    requires
        0 <= above,
        0 <= code < 4,
    ensures
        (above * 4 + code) / 4 == above,
        (above * 4 + code) % 4 == code,
{
}

/// Packed weights read back, each in its own column.
pub proof fn packed_weights_read_back(data: Seq<u8>, at: int, weights: Seq<int>, i: int)
    requires
        weights.len() % 128 == 0,
        forall|k: int| 0 <= k < weights.len() ==> -1 <= #[trigger] weights[k] <= 1,
        forall|b: int, g: int|
            #![trigger data[at + 32 * b + g]]
            0 <= b < weights.len() / 128 && 0 <= g < 32 ==> data[at + 32 * b + g] == (weights[128
                * b + g] + 1) * 64 + (weights[128 * b + g + 32] + 1) * 16 + (weights[128 * b + g
                + 64] + 1) * 4 + (weights[128 * b + g + 96] + 1),
        0 <= i < weights.len(),
    ensures
        weight_at(data, at, i) == weights[i],
{
    let codes = Seq::new(weights.len(), |k: int| weights[k] + 1);
    packed_codes_read_back(data, at, codes, i);
}

/// A product of packed weights with activations is the sum of each weight times its
/// activation.
pub proof fn products_multiply_the_packed_weights(
    data: Seq<u8>,
    at: int,
    weights: Seq<int>,
    act: Seq<i8>,
)
    requires
        weights.len() % 128 == 0,
        act.len() == weights.len(),
        forall|k: int| 0 <= k < weights.len() ==> -1 <= #[trigger] weights[k] <= 1,
        forall|b: int, g: int|
            #![trigger data[at + 32 * b + g]]
            0 <= b < weights.len() / 128 && 0 <= g < 32 ==> data[at + 32 * b + g] == (weights[128
                * b + g] + 1) * 64 + (weights[128 * b + g + 32] + 1) * 16 + (weights[128 * b + g
                + 64] + 1) * 4 + (weights[128 * b + g + 96] + 1),
    ensures
        dot(data, at, act, 0, act.len() as int) == inner(weights, ints(act)),
{
    assert forall|k: int| 0 <= k < weights.len() implies weight_at(data, at, k)
        == #[trigger] weights[k] by {
        packed_weights_read_back(data, at, weights, k);
    }
    lemma_dot_is_inner(data, at, weights, act, act.len());
}

proof fn lemma_dot_is_inner(data: Seq<u8>, at: int, weights: Seq<int>, act: Seq<i8>, n: nat)
    requires
        n <= act.len(),
        act.len() == weights.len(),
        forall|k: int|
            0 <= k < weights.len() ==> weight_at(data, at, k) == #[trigger] weights[k],
    ensures
        dot(data, at, act, 0, n as int) == total(
            Seq::new(n, |i: int| weights[i] * ints(act)[i]),
        ),
    decreases n,
{
    if n > 0 {
        lemma_dot_is_inner(data, at, weights, act, (n - 1) as nat);
        lemma_total_grows(n, |i: int| weights[i] * ints(act)[i]);
        assert(weight_at(data, at, n - 1) == weights[n - 1]);
    }
}

/// Weights without their zeros give the products of the packed weights.
pub proof fn sparse_sums_multiply_the_packed_weights(
    sw: SparseWeight,
    w: TensorView<'_>,
    j: int,
    weights: Seq<int>,
    act: Seq<i8>,
)
    requires
        is_sparse(sw, w),
        sw.in_dim % 128 == 0,
        0 <= j < sw.out_dim,
        weights.len() == sw.in_dim,
        act.len() == sw.in_dim,
        forall|k: int| 0 <= k < weights.len() ==> -1 <= #[trigger] weights[k] <= 1,
        forall|b: int, g: int|
            #![trigger w.data@[j * (sw.in_dim as int / 4) + 32 * b + g]]
            0 <= b < weights.len() / 128 && 0 <= g < 32 ==> w.data@[j * (sw.in_dim as int / 4)
                + 32 * b + g] == (weights[128 * b + g] + 1) * 64 + (weights[128 * b + g + 32] + 1)
                * 16 + (weights[128 * b + g + 64] + 1) * 4 + (weights[128 * b + g + 96] + 1),
    ensures
        entry_sum(
            sw.cols@,
            sw.signs@,
            act,
            sw.row_starts@[j] as int,
            sw.row_starts@[j + 1] as int,
        ) == inner(weights, ints(act)),
{
    sparse_rows_give_the_same_sums(sw, w, act, j);
    products_multiply_the_packed_weights(w.data@, j * (sw.in_dim as int / 4), weights, act);
}

/// The product of a block is the sum of each weight times its activation.
pub proof fn block_products_multiply_the_weights(block: Seq<i8>, act: Seq<i8>, from: int, n: nat)
    requires
        n <= block.len(),
        0 <= from,
        from + n <= act.len(),
    ensures
        block_dot(block, act, from, n as int) == inner(
            ints(block.take(n as int)),
            ints(act.subrange(from, from + n)),
        ),
    decreases n,
{
    let a = ints(block.take(n as int));
    let b = ints(act.subrange(from, from + n));
    if n > 0 {
        block_products_multiply_the_weights(block, act, from, (n - 1) as nat);
        let c = ints(block.take(n - 1));
        let d = ints(act.subrange(from, from + n - 1));
        assert(Seq::new(a.len(), |i: int| a[i] * b[i]).drop_last() =~= Seq::new(
            c.len(),
            |i: int| c[i] * d[i],
        ));
    }
}

/// The four weights of a byte, for a table: those that were packed, from the highest
/// bits to the lowest.
pub proof fn packed_byte_reads_back(byte: u8, weights: Seq<int>)
    requires
        weights.len() == 4,
        forall|k: int| 0 <= k < 4 ==> -1 <= #[trigger] weights[k] <= 1,
        byte == (weights[0] + 1) * 64 + (weights[1] + 1) * 16 + (weights[2] + 1) * 4 + (
        weights[3] + 1),
    ensures
        weights_of(byte) == weights,
{
    let b = byte as int;
    assert(b / 64 == weights[0] + 1);
    assert(b / 16 % 4 == weights[1] + 1);
    assert(b / 4 % 4 == weights[2] + 1);
    assert(b % 4 == weights[3] + 1);
    assert(weights_of(byte) =~= weights);
}

/// A packed block of Q4_0 reads back: the two bytes of its scale, low byte first, and
/// sixteen bytes of which each holds two quants, those sixteen places apart, both moved
/// up by eight.
pub proof fn packed_q4_0_block_reads_back(
    block: Q4Block,
    data: Seq<u8>,
    b: int,
    scale: u16,
    quants: Seq<int>,
)
    requires
        q4_0::is_block(block, data, b),
        quants.len() == 32,
        forall|i: int| 0 <= i < 32 ==> -8 <= #[trigger] quants[i] <= 7,
        data[18 * b] == scale % 256,
        data[18 * b + 1] == scale / 256,
        forall|i: int|
            0 <= i < 16 ==> #[trigger] data[18 * b + 2 + i] == (quants[i] + 8) + (quants[i + 16]
                + 8) * 16,
    ensures
        block.quants@.len() == 32,
        forall|i: int| 0 <= i < 32 ==> #[trigger] block.quants@[i] == quants[i],
        finite_half(scale) ==> single(block.scale) == half(scale) * pow2(125),
{
    assert(q4_0::half_at(data, 18 * b) == scale);
    widening_keeps_the_number(scale);
    assert forall|i: int| 0 <= i < 32 implies #[trigger] block.quants@[i] == quants[i] by {
        assert(block.quants@[i] == q4_0::quant(data, b, i));
        let k = if i < 16 {
            i
        } else {
            i - 16
        };
        let byte = data[18 * b + 2 + k] as int;
        assert(byte == (quants[k] + 8) + (quants[k + 16] + 8) * 16);
        assert(byte % 16 == quants[k] + 8 && byte / 16 == quants[k + 16] + 8);
        assert(18 * b + 2 + i - 16 == 18 * b + 2 + (i - 16));
    }
}

/// Packed scales and minimums of six bits read back, in every group and for every
/// value: of the first four groups they stand in the low bits of four bytes each, of
/// the last four their low halves share four bytes, and their two high bits stand above
/// those of the first four.
pub proof fn packed_scales_read_back(
    row: Seq<u8>,
    at: int,
    scales: Seq<int>,
    mins: Seq<int>,
    g: int,
)
    requires
        scales.len() == 8,
        mins.len() == 8,
        forall|k: int| 0 <= k < 8 ==> 0 <= #[trigger] scales[k] < 64,
        forall|k: int| 0 <= k < 8 ==> 0 <= #[trigger] mins[k] < 64,
        forall|k: int|
            0 <= k < 4 ==> #[trigger] row[at + k] == scales[k] + scales[k + 4] / 16 * 64,
        forall|k: int| 4 <= k < 8 ==> #[trigger] row[at + k] == mins[k - 4] + mins[k] / 16 * 64,
        forall|k: int|
            8 <= k < 12 ==> #[trigger] row[at + k] == scales[k - 4] % 16 + mins[k - 4] % 16 * 16,
        0 <= g < 8,
    ensures
        scale_of(row, at, g) == scales[g],
        min_of(row, at, g) == mins[g],
{
    let k = g % 4;
    let x = row[at + k] as int;
    let y = row[at + (k + 4)] as int;
    let z = row[at + (k + 8)] as int;
    assert(x == scales[k] + scales[k + 4] / 16 * 64);
    assert(y == mins[k] + mins[k + 4] / 16 * 64);
    assert(z == scales[k + 4] % 16 + mins[k + 4] % 16 * 16);
    assert(x % 64 == scales[k] && x / 64 == scales[k + 4] / 16);
    assert(y % 64 == mins[k] && y / 64 == mins[k + 4] / 16);
    assert(z % 16 == scales[k + 4] % 16 && z / 16 == mins[k + 4] % 16);
    if g < 4 {
        assert(at + g + 4 == at + (k + 4));
    } else {
        assert(at + g + 4 == at + (k + 8));
        assert(at + g - 4 == at + k);
        assert(at + g == at + (k + 4));
    }
}

/// Packed quants of four bits read back: each 32 bytes hold the 64 of two groups, the
/// first group in the low halves.
pub proof fn packed_quants_read_back(row: Seq<u8>, at: int, quants: Seq<int>, i: int)
    requires
        quants.len() == 256,
        forall|k: int| 0 <= k < 256 ==> 0 <= #[trigger] quants[k] < 16,
        forall|c: int, j: int|
            #![trigger row[at + 32 * c + j]]
            0 <= c < 4 && 0 <= j < 32 ==> row[at + 32 * c + j] == quants[64 * c + j] + quants[64
                * c + 32 + j] * 16,
        0 <= i < 256,
    ensures
        quant_of(row, at, i) == quants[i],
{
    let c = i / 64;
    let j = i % 32;
    let byte = row[at + 32 * c + j] as int;
    assert(byte == quants[64 * c + j] + quants[64 * c + 32 + j] * 16);
    assert(byte % 16 == quants[64 * c + j] && byte / 16 == quants[64 * c + 32 + j]);
    assert(at + i / 64 * 32 + i % 32 == at + 32 * c + j);
    assert(i == 64 * c + i / 32 % 2 * 32 + j);
}

/// A packed block of Q4_K reads back: in its 144 bytes stand the scale of the scales,
/// the scale of the minimums, the scales and minimums, and the quants.
pub proof fn packed_q4_k_block_reads_back(
    block: Q4KBlock,
    row: Seq<u8>,
    b: int,
    d: u16,
    dmin: u16,
    scales: Seq<int>,
    mins: Seq<int>,
    quants: Seq<int>,
)
    requires
        q4_k::is_block(block, row, b),
        row[144 * b] == d % 256,
        row[144 * b + 1] == d / 256,
        row[144 * b + 2] == dmin % 256,
        row[144 * b + 3] == dmin / 256,
        scales.len() == 8,
        mins.len() == 8,
        quants.len() == 256,
        forall|k: int| 0 <= k < 8 ==> 0 <= #[trigger] scales[k] < 64,
        forall|k: int| 0 <= k < 8 ==> 0 <= #[trigger] mins[k] < 64,
        forall|k: int| 0 <= k < 256 ==> 0 <= #[trigger] quants[k] < 16,
        forall|k: int|
            0 <= k < 4 ==> #[trigger] row[144 * b + 4 + k] == scales[k] + scales[k + 4] / 16 * 64,
        forall|k: int|
            4 <= k < 8 ==> #[trigger] row[144 * b + 4 + k] == mins[k - 4] + mins[k] / 16 * 64,
        forall|k: int|
            8 <= k < 12 ==> #[trigger] row[144 * b + 4 + k] == scales[k - 4] % 16 + mins[k - 4]
                % 16 * 16,
        forall|c: int, j: int|
            #![trigger row[144 * b + 16 + 32 * c + j]]
            0 <= c < 4 && 0 <= j < 32 ==> row[144 * b + 16 + 32 * c + j] == quants[64 * c + j]
                + quants[64 * c + 32 + j] * 16,
    ensures
        finite_half(d) ==> single(block.d) == half(d) * pow2(125),
        finite_half(dmin) ==> single(block.dmin) == half(dmin) * pow2(125),
        block.scales@.len() == 8,
        block.mins@.len() == 8,
        block.quants@.len() == 256,
        forall|g: int| 0 <= g < 8 ==> #[trigger] block.scales@[g] == scales[g],
        forall|g: int| 0 <= g < 8 ==> #[trigger] block.mins@[g] == mins[g],
        forall|i: int| 0 <= i < 256 ==> #[trigger] block.quants@[i] == quants[i],
{
    assert(q4_0::half_at(row, 144 * b) == d);
    assert(q4_0::half_at(row, 144 * b + 2) == dmin);
    widening_keeps_the_number(d);
    widening_keeps_the_number(dmin);
    assert forall|g: int| 0 <= g < 8 implies #[trigger] block.scales@[g] == scales[g] by {
        packed_scales_read_back(row, 144 * b + 4, scales, mins, g);
    }
    assert forall|g: int| 0 <= g < 8 implies #[trigger] block.mins@[g] == mins[g] by {
        packed_scales_read_back(row, 144 * b + 4, scales, mins, g);
    }
    assert forall|i: int| 0 <= i < 256 implies #[trigger] block.quants@[i] == quants[i] by {
        packed_quants_read_back(row, 144 * b + 16, quants, i);
    }
}

/// The product of a block with quantised activations is that of the decoded weights:
/// for all whole numbers in place of the scales, the sum of each weight
/// `d * scale * quant - dmin * minimum` times its activation is what the two whole
/// numbers of the product give.
pub proof fn block_products_multiply_the_decoded_weights(
    part: BlockDot,
    block: Q4KBlock,
    row: Seq<u8>,
    input: Q8KActivation,
    b: int,
    d: int,
    dmin: int,
)
    requires
        is_dot(part, row, input, b),
        q4_k::is_block(block, row, b),
        0 <= b < input.blocks@.len(),
        input.blocks@[b].wf(),
    ensures
        part.d == block.d,
        part.dmin == block.dmin,
        part.activation_d == input.blocks@[b].d,
        total(
            Seq::new(
                256,
                |i: int|
                    (d * block.scales@[i / 32] * block.quants@[i] - dmin * block.mins@[i / 32])
                        * input.blocks@[b].qs@[i],
            ),
        ) == d * part.scaled - dmin * part.minimum,
{
    let qs = input.blocks@[b].qs@;
    block_product_is_exact(row, 144 * b, input.blocks@[b], d, dmin, 8);
    lemma_weights_dot(block, row, b, qs, d, dmin, 256);
}

proof fn lemma_weights_dot(
    block: Q4KBlock,
    row: Seq<u8>,
    b: int,
    qs: Seq<i8>,
    d: int,
    dmin: int,
    n: nat,
)
    requires
        q4_k::is_block(block, row, b),
        n <= 256,
    ensures
        weights_dot(row, 144 * b, qs, d, dmin, n as int) == total(
            Seq::new(
                n,
                |i: int|
                    (d * block.scales@[i / 32] * block.quants@[i] - dmin * block.mins@[i / 32])
                        * qs[i],
            ),
        ),
    decreases n,
{
    let f = |i: int|
        (d * block.scales@[i / 32] * block.quants@[i] - dmin * block.mins@[i / 32]) * qs[i];
    if n > 0 {
        lemma_weights_dot(block, row, b, qs, d, dmin, (n - 1) as nat);
        lemma_total_grows(n, f);
        let i = n - 1;
        assert(block.scales@[i / 32] == scale_of(row, 144 * b + 4, i / 32));
        assert(block.mins@[i / 32] == min_of(row, 144 * b + 4, i / 32));
        assert(block.quants@[i] == quant_of(row, 144 * b + 16, i));
        assert(f(i) == weighted(row, 144 * b, qs, d, dmin, i));
    }
}

/// Each of the sixteen sums of a block of activations is the sum of sixteen quants that
/// follow one another.
pub proof fn sums_add_sixteen_neighbours(block: Q8KBlock, g: int)
    requires
        block.wf(),
        0 <= g < 16,
    ensures
        block.bsums@[g] == total(ints(block.qs@.subrange(16 * g, 16 * g + 16))),
{
    lemma_quant_sum_is_total(block.qs@, 16 * g, 16);
}

proof fn lemma_quant_sum_is_total(qs: Seq<i8>, from: int, n: nat)
    requires
        0 <= from,
        from + n <= qs.len(),
    ensures
        quant_sum(qs, from, from + n) == total(ints(qs.subrange(from, from + n))),
    decreases n,
{
    if n > 0 {
        lemma_quant_sum_is_total(qs, from, (n - 1) as nat);
        assert(ints(qs.subrange(from, from + n)).drop_last() =~= ints(
            qs.subrange(from, from + n - 1),
        ));
    }
}

proof fn lemma_visited(b: int, r: int, l: int)
    requires
        0 <= b,
        0 <= r < 32,
        0 <= l < 4,
    ensures
        visited(128 * b + 4 * r + l) == 128 * b + 32 * l + r,
{
    let k = 128 * b + 4 * r + l;
    assert(k / 128 == b);
    assert(k % 128 == 4 * r + l);
    assert(k % 4 == l);
}

/// Columns without a zero are looked for byte by byte, four columns in each, which lie 32
/// apart; the one in the highest bits comes first. Byte `r` of block `b` is number
/// `32 * b + r`.
pub proof fn columns_are_visited_byte_by_byte(b: int, r: int)
    requires
        0 <= b,
        0 <= r < 32,
    ensures
        ({
            let first = 4 * (32 * b + r);
            &&& visited(first) == 128 * b + r
            &&& visited(first + 1) == visited(first) + 32
            &&& visited(first + 2) == visited(first) + 64
            &&& visited(first + 3) == visited(first) + 96
        }),
{
    lemma_visited(b, r, 0);
    lemma_visited(b, r, 1);
    lemma_visited(b, r, 2);
    lemma_visited(b, r, 3);
}

} // verus!
