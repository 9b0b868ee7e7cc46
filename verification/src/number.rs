//! The numbers behind bit patterns, by the definition of the binary formats, and
//! what the library's work on patterns means for them.

use crate::commands::{limits_of, reaches, ONE_BITS};
use crate::gguf::metadata::{narrowed, narrowed_magnitude, round_half_even};
use crate::gguf::tensor::finite_bits;
use crate::model::config::{positive_bits, DEFAULT_ROPE_FREQ_BASE};
use crate::model::lm_head::{ahead, all_numbers, exceeds, is_largest, is_nan, rank};
use crate::model::primitives::{finite_half, mask_bits, normalised, widened};
use crate::model::q4_k::{extreme, extreme_is_first_and_largest, magnitude};
use vstd::arithmetic::power2::*;
use vstd::prelude::*;

verus! {

/// The size of a binary number with exponent field `e` and fraction `f` of `width`,
/// in units of the smallest positive number of its format.
pub open spec fn size_of(e: int, f: int, width: int) -> int {
    if e == 0 {
        f
    } else {
        (width + f) * pow2((e - 1) as nat)
    }
}

/// The size of a single-precision number, in units of `2^-149`. Infinity takes the
/// place behind the largest finite number.
#[verifier::opaque]
pub open spec fn single_size(bits: u32) -> int {
    size_of(bits as int / 0x80_0000 % 0x100, bits as int % 0x80_0000, 0x80_0000)
}

/// A single-precision number, in units of `2^-149`.
pub open spec fn single(bits: u32) -> int {
    if bits >= 0x8000_0000 {
        -single_size(bits)
    } else {
        single_size(bits)
    }
}

/// A half-precision number, in units of `2^-24`.
pub open spec fn half(bits: u16) -> int {
    let size = size_of(bits as int / 0x400 % 0x20, bits as int % 0x400, 0x400);
    if bits >= 0x8000 {
        -size
    } else {
        size
    }
}

/// A single-precision pattern with all exponent bits set and a fraction stands for
/// no number.
pub open spec fn no_single(bits: u32) -> bool {
    bits as int / 0x80_0000 % 0x100 == 0xff && bits as int % 0x80_0000 != 0
}

/// A half-precision pattern with all exponent bits set and a fraction stands for no
/// number.
pub open spec fn no_half(bits: u16) -> bool {
    bits as int / 0x400 % 0x20 == 0x1f && bits as int % 0x400 != 0
}

/// Larger patterns of one sign stand for larger sizes.
proof fn lemma_sizes_rise(a: u32, b: u32)
    requires
        a < b < 0x8000_0000,
    ensures
        0 <= single_size(a) < single_size(b),
{
    reveal(single_size);
    let e = a as int / 0x80_0000;
    let f = a as int % 0x80_0000;
    let g = b as int / 0x80_0000;
    let h = b as int % 0x80_0000;
    assert(e % 0x100 == e && g % 0x100 == g);
    assert(e <= g);
    if g > 0 {
        lemma_pow2_pos((g - 1) as nat);
        let q = pow2((g - 1) as nat) as int;
        assert((0x80_0000 + h) * q >= 0x80_0000) by (nonlinear_arith)
            requires
                q >= 1,
                h >= 0,
        ;
        if e > 0 {
            lemma_pow2_pos((e - 1) as nat);
            let p = pow2((e - 1) as nat) as int;
            assert((0x80_0000 + f) * p >= 0) by (nonlinear_arith)
                requires
                    p >= 1,
                    f >= 0,
            ;
            if e == g {
                assert((0x80_0000 + f) * p < (0x80_0000 + h) * q) by (nonlinear_arith)
                    requires
                        p == q,
                        p >= 1,
                        f < h,
                ;
            } else {
                lemma_pow2_unfold(e as nat);
                if e < g - 1 {
                    lemma_pow2_strictly_increases(e as nat, (g - 1) as nat);
                }
                assert((0x80_0000 + f) * p < (0x80_0000 + h) * q) by (nonlinear_arith)
                    requires
                        2 * p <= q,
                        p >= 1,
                        0 <= f < 0x80_0000,
                        h >= 0,
                ;
            }
        }
    }
}

/// The size of a number does not depend on its sign.
proof fn lemma_sign_changes_no_size(bits: u32)
    requires
        bits >= 0x8000_0000,
    ensures
        single_size(bits) == single_size((bits - 0x8000_0000) as u32),
{
    reveal(single_size);
}

/// Only the two zeros have no size.
proof fn lemma_size_of_zero(bits: u32)
    ensures
        single_size(bits) >= 0,
        single_size(bits) == 0 <==> bits % 0x8000_0000 == 0,
{
    assert(single_size(0) == 0) by {
        reveal(single_size);
    }
    let m = (bits % 0x8000_0000) as u32;
    if bits >= 0x8000_0000 {
        lemma_sign_changes_no_size(bits);
    }
    if m > 0 {
        lemma_sizes_rise(0, m);
    }
}

/// The order of patterns is that of the numbers: two patterns compare as the real
/// numbers behind them, with both zeros equal, and a pattern without a number
/// exceeds nothing and is exceeded by nothing.
pub proof fn comparisons_compare_the_numbers(a: u32, b: u32)
    ensures
        is_nan(a) == no_single(a),
        exceeds(a, b) <==> !no_single(a) && !no_single(b) && single(a) > single(b),
        reaches(a, b) <==> !no_single(a) && !no_single(b) && single(a) >= single(b),
{
    let m = (a % 0x8000_0000) as u32;
    let n = (b % 0x8000_0000) as u32;
    lemma_size_of_zero(a);
    lemma_size_of_zero(b);
    if a >= 0x8000_0000 {
        lemma_sign_changes_no_size(a);
    }
    if b >= 0x8000_0000 {
        lemma_sign_changes_no_size(b);
    }
    if m < n {
        lemma_sizes_rise(m, n);
    } else if n < m {
        lemma_sizes_rise(n, m);
    }
}

/// The mask leaves the score of a key that is not later than the query as it is, and
/// takes any other below every finite number.
pub proof fn masks_hide_what_is_later(q_pos: int, k_pos: int, score: u32)
    requires
        finite_bits(score),
    ensures
        k_pos <= q_pos ==> single(mask_bits(q_pos, k_pos)) == 0,
        k_pos > q_pos ==> single(mask_bits(q_pos, k_pos)) < single(score) && !no_single(
            mask_bits(q_pos, k_pos),
        ),
{
    lemma_size_of_zero(0);
    comparisons_compare_the_numbers(score, 0xff80_0000);
}

/// The order of patterns by rank is that of the numbers.
proof fn lemma_ranks_order_numbers(a: u32, b: u32)
    requires
        !is_nan(a),
        !is_nan(b),
    ensures
        rank(a) > rank(b) <==> single(a) > single(b),
        rank(a) == rank(b) <==> single(a) == single(b),
{
    comparisons_compare_the_numbers(a, b);
    comparisons_compare_the_numbers(b, a);
}

/// The place of the largest logit holds the greatest number, and every number in
/// front of it is smaller.
pub proof fn largest_logit_is_the_greatest_number(logits: Seq<u32>, i: int)
    requires
        is_largest(logits, i),
        forall|j: int| 0 <= j < logits.len() ==> !no_single(#[trigger] logits[j]),
    ensures
        0 <= i < logits.len(),
        forall|j: int|
            0 <= j < logits.len() ==> single(#[trigger] logits[j]) <= single(logits[i]),
        forall|j: int| 0 <= j < i ==> single(#[trigger] logits[j]) < single(logits[i]),
{
    comparisons_compare_the_numbers(logits[0], logits[0]);
    comparisons_compare_the_numbers(logits[i], logits[i]);
    assert forall|j: int| 0 <= j < logits.len() implies single(#[trigger] logits[j]) <= single(
        logits[i],
    ) && (j < i ==> single(logits[j]) < single(logits[i])) by {
        comparisons_compare_the_numbers(logits[j], logits[j]);
        lemma_ranks_order_numbers(logits[j], logits[i]);
    }
}

/// What is no number is passed over, unless the list starts with it.
pub proof fn numbers_are_preferred(logits: Seq<u32>, i: int)
    requires
        is_largest(logits, i),
    ensures
        no_single(logits[0]) ==> i == 0,
        !no_single(logits[0]) ==> {
            &&& !no_single(logits[i])
            &&& forall|j: int|
                0 <= j < logits.len() && !no_single(#[trigger] logits[j]) ==> single(logits[j])
                    <= single(logits[i])
            &&& forall|j: int|
                0 <= j < i && !no_single(#[trigger] logits[j]) ==> single(logits[j]) < single(
                    logits[i],
                )
        },
{
    comparisons_compare_the_numbers(logits[0], logits[i]);
    assert forall|j: int| 0 <= j < logits.len() && !no_single(#[trigger] logits[j]) && !no_single(
        logits[0],
    ) implies single(logits[j]) <= single(logits[i]) && (j < i ==> single(logits[j]) < single(
        logits[i],
    )) by {
        comparisons_compare_the_numbers(logits[j], logits[i]);
        comparisons_compare_the_numbers(logits[i], logits[j]);
        lemma_ranks_order_numbers(logits[j], logits[i]);
    }
}

/// One entry is ahead of another where its number is greater, or where the numbers
/// are equal and it stands further in front.
pub proof fn entries_are_ordered_by_number(logits: Seq<u32>, i: int, j: int)
    requires
        all_numbers(logits),
        0 <= i < logits.len(),
        0 <= j < logits.len(),
    ensures
        ahead(logits, i, j) <==> single(logits[i]) > single(logits[j]) || (single(logits[i])
            == single(logits[j]) && i < j),
{
    lemma_ranks_order_numbers(logits[i], logits[j]);
}

/// The numbers of a list are all numbers exactly where none of its patterns lacks
/// one.
pub proof fn numbers_are_told_apart(logits: Seq<u32>)
    ensures
        all_numbers(logits) <==> forall|i: int|
            0 <= i < logits.len() ==> !no_single(#[trigger] logits[i]),
{
    assert forall|i: int| 0 <= i < logits.len() implies is_nan(#[trigger] logits[i])
        == no_single(logits[i]) by {
        comparisons_compare_the_numbers(logits[i], logits[i]);
    }
}

/// A pattern is finite where its number is smaller than infinity, and positive where
/// its number is finite and above zero.
pub proof fn finite_patterns_are_finite_numbers(bits: u32)
    ensures
        finite_bits(bits) <==> !no_single(bits) && single(bits) < single(0x7f80_0000)
            && single(bits) > single(0xff80_0000),
        positive_bits(bits) <==> finite_bits(bits) && single(bits) > 0,
{
    comparisons_compare_the_numbers(bits, 0x7f80_0000);
    comparisons_compare_the_numbers(0x7f80_0000, bits);
    comparisons_compare_the_numbers(bits, 0xff80_0000);
    comparisons_compare_the_numbers(bits, 0);
    lemma_size_of_zero(0);
}

/// A limit is kept exactly where it limits something: a count that is not zero, a
/// probability between zero and one, and a factor above one. What stands for no
/// number is kept.
pub proof fn limits_that_limit_nothing_are_left_out(top_k: usize, top_p: u32, penalty: u32)
    ensures
        ({
            let l = limits_of(top_k, top_p, penalty);
            &&& l.top_k == if top_k > 0 {
                Some(top_k)
            } else {
                None
            }
            &&& l.top_p == if no_single(top_p) || 0 < single(top_p) < pow2(149) {
                Some(top_p)
            } else {
                None
            }
            &&& l.repetition_penalty == if no_single(penalty) || single(penalty) > pow2(149) {
                Some(penalty)
            } else {
                None
            }
        }),
{
    lemma_one();
    lemma_size_of_zero(0);
    comparisons_compare_the_numbers(top_p, ONE_BITS);
    comparisons_compare_the_numbers(0, top_p);
    comparisons_compare_the_numbers(ONE_BITS, penalty);
}

/// The pattern of one stands for one.
proof fn lemma_one()
    ensures
        single(ONE_BITS) == pow2(149),
{
    reveal(single_size);
    assert(0x3f80_0000int / 0x80_0000 == 127);
    lemma_pow2_adds(23, 126);
    lemma2_to64();
    assert(single(ONE_BITS) == 0x80_0000 * pow2(126));
}

/// The base of the rotary frequencies that is taken where none is stated is ten
/// thousand.
pub proof fn default_base_is_ten_thousand()
    ensures
        single(DEFAULT_ROPE_FREQ_BASE) == 10000 * pow2(149),
{
    reveal(single_size);
    assert(0x461c_4000int / 0x80_0000 == 140);
    lemma_pow2_adds(10, 139);
    lemma2_to64();
    let p = pow2(139) as int;
    assert(single(DEFAULT_ROPE_FREQ_BASE) == (0x80_0000 + 0x1c_4000) * p);
    assert((0x80_0000 + 0x1c_4000) * p == 10000 * (1024 * p)) by (nonlinear_arith);
    assert(pow2(149) == 1024 * p);
}

/// The number that normalising gives, for a fraction of at most `k` doublings.
proof fn lemma_doublings(x: int, e: int, k: nat)
    requires
        0 < x < 0x800,
        k <= 10,
        e >= k + 1,
        e <= 200,
        pow2((10 - k) as nat) <= x,
    ensures
        0 < normalised(x, e) < 0x7f80_0000,
        single(normalised(x, e) as u32) == x * 0x2000 * pow2((e - 1) as nat),
    decreases k,
{
    reveal(single_size);
    lemma2_to64();
    if x >= 0x400 {
        let bits = e * 0x80_0000 + (x - 0x400) * 0x2000;
        assert(normalised(x, e) == bits);
        assert(bits / 0x80_0000 == e && bits % 0x80_0000 == (x - 0x400) * 0x2000);
        assert(0x80_0000 + (x - 0x400) * 0x2000 == x * 0x2000);
    } else {
        assert(k > 0);
        lemma_pow2_unfold((10 - k + 1) as nat);
        lemma_doublings(2 * x, e - 1, (k - 1) as nat);
        lemma_pow2_unfold((e - 1) as nat);
        let p = pow2((e - 2) as nat) as int;
        assert((2 * x) * 0x2000 * p == x * 0x2000 * (2 * p)) by (nonlinear_arith);
    }
}

/// Widening keeps the number: the single-precision pattern stands for the same real
/// number as the half-precision one, subnormal numbers among them; an infinity stays
/// an infinity of the same sign, and what stands for no number goes on to do so.
pub proof fn widening_keeps_the_number(bits: u16)
    ensures
        0 <= widened(bits) <= u32::MAX,
        finite_half(bits) ==> single(widened(bits) as u32) == half(bits) * pow2(125),
        finite_bits(widened(bits) as u32) <==> finite_half(bits),
        no_half(bits) ==> no_single(widened(bits) as u32),
        !finite_half(bits) && !no_half(bits) ==> widened(bits) == if bits >= 0x8000 {
            0xff80_0000int
        } else {
            0x7f80_0000int
        },
{
    reveal(single_size);
    let e = bits as int / 0x400 % 0x20;
    let f = bits as int % 0x400;
    let low = widened((bits % 0x8000) as u16);
    assert((bits % 0x8000) as int / 0x400 % 0x20 == e && (bits % 0x8000) as int % 0x400 == f);
    lemma2_to64();
    let size = size_of(e, f, 0x400);
    if e == 0 && f == 0 {
        assert(half(bits) == 0);
        assert(single_size(widened(bits) as u32) == 0);
        assert(0 * pow2(125) == 0);
    } else if e != 0x1f {
        if e == 0 {
            lemma_doublings(f, 113, 10);
            lemma_pow2_adds(13, 112);
            let p = pow2(112) as int;
            assert(f * 0x2000 * p == f * (0x2000 * p)) by (nonlinear_arith);
            assert(single(low as u32) == size * pow2(125));
        } else {
            let bits32 = (e + 112) * 0x80_0000 + f * 0x2000;
            assert(low == bits32);
            assert(bits32 / 0x80_0000 == e + 112 && bits32 % 0x80_0000 == f * 0x2000);
            let p = pow2((e - 1) as nat) as int;
            lemma_pow2_adds((e - 1) as nat, 112);
            lemma_pow2_adds(13, 112);
            let r = pow2(112) as int;
            assert((0x80_0000 + f * 0x2000) * (p * r) == (0x400 + f) * p * (0x2000 * r))
                by (nonlinear_arith);
            assert(pow2((e + 111) as nat) == p * r);
            assert(single(low as u32) == size * pow2(125));
        }
        assert(low < 0x7f80_0000);
        if bits >= 0x8000 {
            assert(widened(bits) == low + 0x8000_0000);
            lemma_sign_changes_no_size(widened(bits) as u32);
            assert((-size) * pow2(125) == -(size * pow2(125))) by (nonlinear_arith);
        }
    } else {
        let wide = 0x7f80_0000 + f * 0x2000;
        assert(wide / 0x80_0000 == 0xff && wide % 0x80_0000 == f * 0x2000);
    }
}

/// The extreme of a list is the first of its numbers that is furthest from zero.
pub proof fn extreme_is_the_furthest_from_zero(input: Seq<u32>, from: int, n: int)
    requires
        0 <= from,
        0 <= n,
        from + n <= input.len(),
    ensures
        forall|i: int|
            from <= i < from + n ==> single_size(#[trigger] input[i]) <= single_size(
                extreme(input, from, n),
            ),
        magnitude(extreme(input, from, n)) == 0 <==> (forall|i: int|
            from <= i < from + n ==> single(#[trigger] input[i]) == 0),
        magnitude(extreme(input, from, n)) != 0 ==> exists|i: int|
            #![trigger input[i]]
            from <= i < from + n && input[i] == extreme(input, from, n) && (forall|j: int|
                from <= j < i ==> single_size(#[trigger] input[j]) < single_size(input[i])),
{
    let x = extreme(input, from, n);
    extreme_is_first_and_largest(input, from, n);
    lemma_size_of_zero(x);
    assert forall|i: int| from <= i < from + n implies single_size(#[trigger] input[i])
        <= single_size(x) by {
        lemma_magnitudes(input[i], x);
    }
    if magnitude(x) == 0 {
        assert forall|i: int| from <= i < from + n implies single(#[trigger] input[i]) == 0 by {
            lemma_size_of_zero(input[i]);
            assert(single_size(input[i]) <= single_size(x));
        }
    } else {
        let i = choose|i: int|
            #![trigger input[i]]
            from <= i < from + n && input[i] == x && (forall|j: int|
                from <= j < i ==> magnitude(#[trigger] input[j]) < magnitude(input[i]));
        assert(input[i] == x);
        lemma_size_of_zero(input[i]);
        assert(single(input[i]) != 0);
        assert forall|j: int| from <= j < i implies single_size(#[trigger] input[j])
            < single_size(input[i]) by {
            lemma_magnitudes(input[j], input[i]);
        }
    }
}

/// Magnitudes order patterns as sizes do.
proof fn lemma_magnitudes(a: u32, b: u32)
    ensures
        magnitude(a) < magnitude(b) <==> single_size(a) < single_size(b),
        magnitude(a) == magnitude(b) <==> single_size(a) == single_size(b),
{
    let m = (a % 0x8000_0000) as u32;
    let n = (b % 0x8000_0000) as u32;
    if a >= 0x8000_0000 {
        lemma_sign_changes_no_size(a);
    }
    if b >= 0x8000_0000 {
        lemma_sign_changes_no_size(b);
    }
    if m < n {
        lemma_sizes_rise(m, n);
    } else if n < m {
        lemma_sizes_rise(n, m);
    }
}

/// The size of a double-precision number, in units of `2^-1074`.
pub open spec fn double_size(bits: u64) -> int {
    size_of(
        bits as int / 0x10_0000_0000_0000 % 0x800,
        bits as int % 0x10_0000_0000_0000,
        0x10_0000_0000_0000,
    )
}

/// How far two numbers are apart.
pub open spec fn apart(a: int, b: int) -> int {
    if a >= b {
        a - b
    } else {
        b - a
    }
}

/// `a` is nearer to `x` than `b`, or as near and even where `even` says so.
spec fn nearer(x: int, a: int, b: int, even: bool) -> bool {
    apart(x, a) < apart(x, b) || (apart(x, a) == apart(x, b) && even)
}

/// Rounding gives the nearest number of units, and of two that are equally near the even
/// one.
pub proof fn rounding_finds_the_nearest(x: int, unit: int, k: int)
    requires
        unit > 0,
        k != round_half_even(x, unit),
    ensures
        apart(x, round_half_even(x, unit) * unit) <= apart(x, k * unit),
        apart(x, round_half_even(x, unit) * unit) == apart(x, k * unit) ==> round_half_even(
            x,
            unit,
        ) % 2 == 0,
{
    let n = round_half_even(x, unit);
    let q = x / unit;
    let r = x % unit;
    vstd::arithmetic::div_mod::lemma_fundamental_div_mod(x, unit);
    vstd::arithmetic::div_mod::lemma_mod_bound(x, unit);
    assert(q * unit == unit * q) by (nonlinear_arith);
    assert((q + 1) * unit == q * unit + unit) by (nonlinear_arith);
    if k <= q {
        assert(k * unit <= q * unit) by (nonlinear_arith)
            requires
                k <= q,
                unit > 0,
        ;
        if k < q {
            assert(k * unit <= (q - 1) * unit) by (nonlinear_arith)
                requires
                    k <= q - 1,
                    unit > 0,
            ;
            assert((q - 1) * unit == q * unit - unit) by (nonlinear_arith);
        }
    } else {
        assert((q + 1) * unit <= k * unit) by (nonlinear_arith)
            requires
                q + 1 <= k,
                unit > 0,
        ;
        if k > q + 1 {
            assert((q + 2) * unit <= k * unit) by (nonlinear_arith)
                requires
                    q + 2 <= k,
                    unit > 0,
            ;
            assert((q + 2) * unit == q * unit + 2 * unit) by (nonlinear_arith);
        }
    }
}

/// Distances grow with the unit.
proof fn lemma_scaled(x: int, a: int, b: int, p: int, even: bool)
    requires
        p > 0,
        nearer(x, a, b, even),
    ensures
        nearer(x * p, a * p, b * p, even),
{
    assert(apart(x * p, a * p) == apart(x, a) * p) by (nonlinear_arith)
        requires
            p > 0,
            apart(x * p, a * p) == if x * p >= a * p {
                x * p - a * p
            } else {
                a * p - x * p
            },
            apart(x, a) == if x >= a {
                x - a
            } else {
                a - x
            },
    ;
    assert(apart(x * p, b * p) == apart(x, b) * p) by (nonlinear_arith)
        requires
            p > 0,
            apart(x * p, b * p) == if x * p >= b * p {
                x * p - b * p
            } else {
                b * p - x * p
            },
            apart(x, b) == if x >= b {
                x - b
            } else {
                b - x
            },
    ;
    let y = apart(x, a);
    let z = apart(x, b);
    if y < z {
        assert(y * p < z * p) by (nonlinear_arith)
            requires
                y < z,
                p > 0,
        ;
    }
}

/// The sizes of small numbers are their patterns.
proof fn lemma_small_size(bits: u32)
    requires
        bits <= 0x100_0000,
    ensures
        single_size(bits) == bits,
{
    reveal(single_size);
    lemma2_to64();
    let e = bits as int / 0x80_0000;
    let f = bits as int % 0x80_0000;
    assert(e % 0x100 == e);
    if e == 1 {
        assert(pow2((e - 1) as nat) == 1);
        assert((0x80_0000 + f) * 1 == bits);
    } else if e == 2 {
        assert(bits == 0x100_0000 && f == 0);
        assert(pow2((e - 1) as nat) == 2);
        assert((0x80_0000 + f) * 2 == bits);
    }
}

/// Numbers too small for any single-precision number but zero.
proof fn lemma_narrow_tiny(e: int, m: int, s: u32)
    requires
        0 <= e <= 872,
        0 <= m < 0x10_0000_0000_0000,
        0 < s <= 0x7f80_0000,
    ensures
        nearer(
            size_of(e, m, 0x10_0000_0000_0000),
            0,
            single_size(s) * pow2(925),
            true,
        ),
{
    let d = size_of(e, m, 0x10_0000_0000_0000);
    lemma_size_of_zero(s);
    lemma2_to64();
    lemma2_to64_rest();
    lemma_pow2_pos(925);
    lemma_pow2_unfold(925);
    let u = pow2(925) as int;
    let h = pow2(924) as int;
    assert(d < h) by {
        if e == 0 {
            lemma_pow2_strictly_increases(52, 924);
        } else {
            lemma_pow2_adds(53, (e - 1) as nat);
            lemma_pow2_pos((e - 1) as nat);
            let p = pow2((e - 1) as nat) as int;
            assert((0x10_0000_0000_0000 + m) * p < 0x20_0000_0000_0000 * p) by (nonlinear_arith)
                requires
                    m < 0x10_0000_0000_0000,
                    p > 0,
            ;
            if 53 + e - 1 < 924 {
                lemma_pow2_strictly_increases((53 + e - 1) as nat, 924);
            }
        }
    }
    assert(d >= 0) by {
        if e > 0 {
            let p = pow2((e - 1) as nat) as int;
            lemma_pow2_pos((e - 1) as nat);
            assert((0x10_0000_0000_0000 + m) * p >= 0) by (nonlinear_arith)
                requires
                    m >= 0,
                    p > 0,
            ;
        }
    }
    let z = single_size(s);
    assert(z >= 1) by {
        lemma_size_of_zero(s);
    }
    assert(z * u >= u) by (nonlinear_arith)
        requires
            z >= 1,
            u > 0,
    ;
}

/// Numbers in the range of subnormal single-precision numbers.
proof fn lemma_narrow_small(e: int, m: int, s: u32)
    requires
        873 <= e <= 896,
        0 <= m < 0x10_0000_0000_0000,
        s <= 0x7f80_0000,
        s != narrowed_magnitude(e, m),
    ensures
        0 <= narrowed_magnitude(e, m) <= 0x80_0000,
        nearer(
            size_of(e, m, 0x10_0000_0000_0000),
            single_size(narrowed_magnitude(e, m) as u32) * pow2(925),
            single_size(s) * pow2(925),
            narrowed_magnitude(e, m) % 2 == 0,
        ),
{
    let x = 0x10_0000_0000_0000 + m;
    let k = (926 - e) as nat;
    let unit = pow2(k) as int;
    let r = round_half_even(x, unit);
    let p = pow2((e - 1) as nat) as int;
    lemma_pow2_pos(k);
    lemma_pow2_pos((e - 1) as nat);
    lemma_pow2_adds(k, (e - 1) as nat);
    assert(pow2(925) == unit * p);
    lemma2_to64();
    lemma2_to64_rest();
    if k > 30 {
        lemma_pow2_strictly_increases(30, k);
    }
    assert(0 <= x / unit < 0x80_0000) by (nonlinear_arith)
        requires
            0 <= x < 0x20_0000_0000_0000,
            unit >= 0x4000_0000,
    ;
    assert(0 <= r <= 0x80_0000);
    lemma_small_size(r as u32);
    let z = single_size(s);
    if z == r {
        lemma_small_size(r as u32);
        lemma_magnitudes(s, r as u32);
        assert(false);
    }
    rounding_finds_the_nearest(x, unit, z);
    lemma_scaled(x, r * unit, z * unit, p, r % 2 == 0);
    assert(r * unit * p == r * (unit * p)) by (nonlinear_arith);
    assert(z * unit * p == z * (unit * p)) by (nonlinear_arith);
}

/// The size of a number that is at least as large as those of an exponent is a multiple of
/// their spacing.
proof fn lemma_multiples(s: u32, e: int) -> (t: int)
    requires
        1 <= e <= 254,
        e * 0x80_0000 <= s <= 0x7f80_0000,
    ensures
        single_size(s) == t * pow2((e - 1) as nat),
{
    reveal(single_size);
    let g = s as int / 0x80_0000;
    let f = s as int % 0x80_0000;
    assert(g % 0x100 == g);
    assert(g >= e);
    lemma_pow2_adds((g - e) as nat, (e - 1) as nat);
    let a = pow2((g - e) as nat) as int;
    let b = pow2((e - 1) as nat) as int;
    assert((0x80_0000 + f) * (a * b) == (0x80_0000 + f) * a * b) by (nonlinear_arith);
    (0x80_0000 + f) * a
}

/// The size of a pattern that is put together from an exponent and a significand.
proof fn lemma_put_together(e: int, q: int)
    requires
        1 <= e <= 254,
        0x80_0000 <= q <= 0x100_0000,
    ensures
        0 < (e - 1) * 0x80_0000 + q <= 0x7f80_0000,
        single_size(((e - 1) * 0x80_0000 + q) as u32) == q * pow2((e - 1) as nat),
{
    reveal(single_size);
    let n = (e - 1) * 0x80_0000 + q;
    if q < 0x100_0000 {
        assert(n / 0x80_0000 == e && n % 0x80_0000 == q - 0x80_0000);
        assert(e % 0x100 == e);
    } else {
        assert(n == (e + 1) * 0x80_0000);
        assert(n / 0x80_0000 == e + 1 && n % 0x80_0000 == 0);
        assert((e + 1) % 0x100 == e + 1);
        lemma_pow2_unfold(e as nat);
        let p = pow2((e - 1) as nat) as int;
        assert(0x80_0000 * (2 * p) == 0x100_0000 * p) by (nonlinear_arith);
    }
}

/// Numbers in the range of normal single-precision numbers.
proof fn lemma_narrow_normal(e: int, m: int, s: u32)
    requires
        897 <= e <= 1150,
        0 <= m < 0x10_0000_0000_0000,
        s <= 0x7f80_0000,
        s != narrowed_magnitude(e, m),
    ensures
        0 <= narrowed_magnitude(e, m) <= 0x7f80_0000,
        nearer(
            size_of(e, m, 0x10_0000_0000_0000),
            single_size(narrowed_magnitude(e, m) as u32) * pow2(925),
            single_size(s) * pow2(925),
            narrowed_magnitude(e, m) % 2 == 0,
        ),
{
    let x = 0x10_0000_0000_0000 + m;
    let unit: int = 0x2000_0000;
    let q = round_half_even(x, unit);
    let ex = e - 896;
    let p = pow2((e - 1) as nat) as int;
    let w = pow2((ex - 1) as nat) as int;
    let u = pow2(925) as int;
    lemma2_to64();
    lemma_pow2_pos((e - 1) as nat);
    lemma_pow2_pos((ex - 1) as nat);
    lemma_pow2_pos(925);
    lemma_pow2_adds(925, (ex - 1) as nat);
    lemma_pow2_adds(29, (e - 1) as nat);
    assert(w * u == unit * p) by (nonlinear_arith)
        requires
            u * w == pow2((925 + (ex - 1)) as nat),
            unit * p == pow2((29 + (e - 1)) as nat),
            925 + (ex - 1) == 29 + (e - 1),
    ;
    assert(0x80_0000 <= q <= 0x100_0000);
    lemma_put_together(ex, q);
    let near = (ex - 1) * 0x80_0000 + q;
    assert(narrowed_magnitude(e, m) == near);
    assert(near % 2 == q % 2);
    assert(q * w * u == q * unit * p) by (nonlinear_arith)
        requires
            w * u == unit * p,
    ;
    let z = single_size(s);
    let d = x * p;
    if s >= ex * 0x80_0000 {
        let t = lemma_multiples(s, ex);
        assert(t != q) by {
            if t == q {
                lemma_magnitudes(s, near as u32);
            }
        }
        rounding_finds_the_nearest(x, unit, t);
        lemma_scaled(x, q * unit, t * unit, p, q % 2 == 0);
        assert(t * w * u == t * unit * p) by (nonlinear_arith)
            requires
                w * u == unit * p,
        ;
    } else {
        let low = (ex * 0x80_0000) as u32;
        lemma_put_together(ex, 0x80_0000);
        assert(low == (ex - 1) * 0x80_0000 + 0x80_0000);
        lemma_sizes_rise(s, low);
        let b = single_size(low);
        assert(b == 0x80_0000 * w);
        assert(z * u < b * u) by (nonlinear_arith)
            requires
                z < b,
                u > 0,
        ;
        assert(b * u == 0x80_0000 * unit * p) by (nonlinear_arith)
            requires
                b == 0x80_0000 * w,
                w * u == unit * p,
        ;
        assert(0x80_0000 * unit * p <= d) by (nonlinear_arith)
            requires
                d == x * p,
                0x80_0000 * unit <= x,
                p > 0,
        ;
        if q != 0x80_0000 {
            rounding_finds_the_nearest(x, unit, 0x80_0000);
            lemma_scaled(x, q * unit, 0x80_0000 * unit, p, q % 2 == 0);
        }
    }
}

/// Numbers beyond all finite single-precision numbers.
proof fn lemma_narrow_huge(e: int, m: int, s: u32)
    requires
        1151 <= e < 2047,
        0 <= m < 0x10_0000_0000_0000,
        s < 0x7f80_0000,
    ensures
        narrowed_magnitude(e, m) == 0x7f80_0000,
        nearer(
            size_of(e, m, 0x10_0000_0000_0000),
            single_size(0x7f80_0000) * pow2(925),
            single_size(s) * pow2(925),
            true,
        ),
{
    let x = 0x10_0000_0000_0000 + m;
    let q = round_half_even(x, 0x2000_0000);
    assert(0x80_0000 <= q);
    let p = pow2((e - 1) as nat) as int;
    let u = pow2(925) as int;
    lemma_pow2_pos(925);
    lemma_pow2_pos((e - 1) as nat);
    lemma_sizes_rise(s, 0x7f80_0000);
    assert(single_size(0x7f80_0000) * u <= x * p) by {
        reveal(single_size);
        assert(0x7f80_0000int / 0x80_0000 == 255);
        lemma2_to64();
        lemma2_to64_rest();
        lemma_pow2_adds(23, 254);
        lemma_pow2_adds(277, 925);
        lemma_pow2_adds(52, (e - 1) as nat);
        assert(single_size(0x7f80_0000) == pow2(277));
        if 52 + e - 1 > 1202 {
            lemma_pow2_strictly_increases(1202, (52 + e - 1) as nat);
        }
        assert(0x10_0000_0000_0000 * p <= x * p) by (nonlinear_arith)
            requires
                0x10_0000_0000_0000 <= x,
                p > 0,
        ;
    }
    let a = single_size(0x7f80_0000);
    let z = single_size(s);
    assert(z * u < a * u) by (nonlinear_arith)
        requires
            z < a,
            u > 0,
    ;
}

/// A double-precision number becomes the single-precision number that is nearest to it,
/// and of two that are equally near the one with an even pattern; infinity counts as the
/// number behind the largest finite one. The sign stays, and so do infinities and what
/// stands for no number.
pub proof fn narrowing_finds_the_nearest(bits: u64, s: u32)
    requires
        s <= 0x7f80_0000,
    ensures
        0 <= narrowed(bits) <= u32::MAX,
        narrowed(bits) >= 0x8000_0000 <==> bits >= 0x8000_0000_0000_0000,
        bits as int / 0x10_0000_0000_0000 % 0x800 != 0x7ff ==> {
            let d = double_size(bits);
            let near = single_size(narrowed(bits) as u32) * pow2(925);
            let other = single_size(s) * pow2(925);
            &&& !no_single(narrowed(bits) as u32)
            &&& apart(d, near) <= apart(d, other)
            &&& apart(d, near) == apart(d, other) && s != narrowed(bits) % 0x8000_0000
                ==> narrowed(bits) % 2 == 0
        },
        bits as int % 0x8000_0000_0000_0000 == 0x7ff0_0000_0000_0000 ==> narrowed(bits)
            % 0x8000_0000 == 0x7f80_0000,
        bits as int % 0x8000_0000_0000_0000 > 0x7ff0_0000_0000_0000 ==> no_single(
            narrowed(bits) as u32,
        ),
{
    let e = bits as int / 0x10_0000_0000_0000 % 0x800;
    let m = bits as int % 0x10_0000_0000_0000;
    if e == 0x7ff {
        lemma_narrow_special(bits);
    } else {
        let r = narrowed_magnitude(e, m);
        assert(0 <= r <= 0x7f80_0000) by {
            if e <= 872 {
            } else if e <= 896 {
                lemma_narrow_small(e, m, if r == 0 {
                    1u32
                } else {
                    0u32
                });
            } else if e <= 1150 {
                lemma_narrow_normal(e, m, if r == 0 {
                    1u32
                } else {
                    0u32
                });
            } else {
                lemma_narrow_huge(e, m, 0);
            }
        }
        if s != r {
            if e <= 872 {
                lemma_size_of_zero(0);
                lemma_narrow_tiny(e, m, s);
            } else if e <= 896 {
                lemma_narrow_small(e, m, s);
            } else if e <= 1150 {
                lemma_narrow_normal(e, m, s);
            } else {
                lemma_narrow_huge(e, m, s);
            }
        }
        let n = narrowed(bits) as u32;
        if bits >= 0x8000_0000_0000_0000 {
            lemma_sign_changes_no_size(n);
            assert((n - 0x8000_0000) as u32 == r as u32);
        }
        assert(single_size(n) == single_size(r as u32));
        assert(n as int % 0x8000_0000 == r && n % 2 == r % 2);
        assert(!no_single(n)) by {
            if r == 0x7f80_0000 {
                assert(n as int % 0x80_0000 == 0);
            } else {
                assert(r / 0x80_0000 < 0xff);
                assert(n as int / 0x80_0000 % 0x100 == r / 0x80_0000);
            }
        }
        assert(double_size(bits) == size_of(e, m, 0x10_0000_0000_0000));
        let d = double_size(bits);
        let other = single_size(s) * pow2(925);
        if e <= 872 {
            let z = single_size(n);
            let u = pow2(925) as int;
            lemma_size_of_zero(0);
            assert(z * u == 0) by (nonlinear_arith)
                requires
                    z == 0,
            ;
        }
        assert(s != r ==> nearer(d, single_size(n) * pow2(925), other, n % 2 == 0));
    }
}

/// Patterns of infinities and of no numbers.
proof fn lemma_narrow_special(bits: u64)
    requires
        bits as int / 0x10_0000_0000_0000 % 0x800 == 0x7ff,
    ensures
        0 <= narrowed(bits) <= u32::MAX,
        narrowed(bits) >= 0x8000_0000 <==> bits >= 0x8000_0000_0000_0000,
        bits as int % 0x8000_0000_0000_0000 == 0x7ff0_0000_0000_0000 ==> narrowed(bits)
            % 0x8000_0000 == 0x7f80_0000,
        bits as int % 0x8000_0000_0000_0000 > 0x7ff0_0000_0000_0000 ==> no_single(
            narrowed(bits) as u32,
        ),
{
    let m = bits as int % 0x10_0000_0000_0000;
    if m != 0 {
        let k = 0x40_0000 + m / 0x2000_0000 % 0x40_0000;
        let wide = 0x7f80_0000 + k;
        assert(0 < k < 0x80_0000);
        assert(narrowed_magnitude(0x7ff, m) == wide);
        assert(wide / 0x80_0000 == 0xff && wide % 0x80_0000 == k);
        let n = narrowed(bits);
        assert(n == wide || n == wide + 0x8000_0000);
        assert(n / 0x80_0000 % 0x100 == 0xff && n % 0x80_0000 == k);
    }
}

} // verus!
