//! Quotients of whole numbers as decimal text, rounded as double-precision
//! arithmetic and its formatting round them.

use crate::text::{cat3, dec, decimal, pad_left, padded_left};
use vstd::prelude::*;

verus! {

/// The whole number next to `a / b`; halfway between two, the even one.
pub open spec fn half_even(a: int, b: int) -> int {
    let q = a / b;
    let r = a % b;
    if 2 * r < b || (2 * r == b && q % 2 == 0) {
        q
    } else {
        q + 1
    }
}

/// The distance between neighbouring double-precision numbers at `n`, where it
/// is at least one.
pub open spec fn spacing(n: int) -> int
    decreases n,
{
    if n < 0x20_0000_0000_0000 {
        1
    } else {
        2 * spacing(n / 2)
    }
}

/// The double-precision number next to a whole number.
pub open spec fn double_of(n: int) -> int {
    half_even(n, spacing(n)) * spacing(n)
}

/// The power of two that brings `n / d` to 53 bits.
pub open spec fn unit(n: int, d: int) -> int
    decreases 0x20_0000_0000_0000 * d - n,
{
    if n <= 0 || n >= 0x10_0000_0000_0000 * d {
        1
    } else {
        2 * unit(2 * n, d)
    }
}

/// Ten to the power of a small number.
pub open spec fn power_of_ten(places: int) -> int {
    if places == 0 {
        1
    } else if places == 1 {
        10
    } else if places == 2 {
        100
    } else {
        1000
    }
}

/// How many units of the last place `n / d` has, when both numbers and their
/// quotient are taken in double precision.
pub open spec fn scaled_quotient(n: int, d: int, places: int) -> int {
    let a = double_of(n);
    let b = double_of(d);
    let u = unit(a, b);
    half_even(half_even(a * u, b) * power_of_ten(places), u)
}

/// `n / d` with a number of decimal places.
pub open spec fn quotient(n: int, d: int, places: int) -> Seq<char> {
    let v = scaled_quotient(n, d, places);
    if places == 0 {
        dec(v)
    } else {
        dec(v / power_of_ten(places)) + "."@ + padded_left(
            dec(v % power_of_ten(places)),
            '0',
            places,
        )
    }
}

/// The whole number next to `a / b`.
fn round_half_even(a: u128, b: u128) -> (r: u128)
    requires
        0 < b,
        b < 0x8000_0000_0000_0000_0000_0000_0000_0000,
        a < 0x8000_0000_0000_0000_0000_0000_0000_0000,
    ensures
        r == half_even(a as int, b as int),
        r <= a / b + 1,
        a >= b ==> r >= 1,
{
    let q: u128 = a / b;
    let r: u128 = a % b;
    proof {
        assert(q <= a) by (nonlinear_arith)
            requires
                q == a / b,
                b > 0,
        ;
        if a >= b {
            assert(q >= 1) by (nonlinear_arith)
                requires
                    q == a / b,
                    b > 0,
                    a >= b,
            ;
        }
    }
    if 2 * r < b || (2 * r == b && q % 2 == 0) {
        q
    } else {
        q + 1
    }
}

/// The spacing of double-precision numbers at a 64-bit number is a power of two
/// that is small beside it.
proof fn lemma_spacing(n: int)
    requires
        0 <= n,
    ensures
        spacing(n) >= 1,
        n >= 0x20_0000_0000_0000 ==> 0x10_0000_0000_0000 * spacing(n) <= n
            < 0x20_0000_0000_0000 * spacing(n),
    decreases n,
{
    if n >= 0x20_0000_0000_0000 {
        lemma_spacing(n / 2);
        if n / 2 < 0x20_0000_0000_0000 {
            assert(spacing(n / 2) == 1);
        }
    }
}

/// The double-precision number next to a 64-bit number.
fn nearest_double(n: u64) -> (r: u128)
    ensures
        r == double_of(n as int),
        r <= 0x2_0000_0000_0000_0000,
        n > 0 ==> r > 0,
{
    let mut rest: u64 = n;
    let mut gap: u128 = 1;
    proof {
        lemma_spacing(n as int);
    }
    while rest >= 0x20_0000_0000_0000
        invariant
            gap >= 1,
            gap * spacing(rest as int) == spacing(n as int),
            gap * rest <= n,
            gap < 0x1000,
            gap > 1 ==> rest >= 0x10_0000_0000_0000,
        decreases rest,
    {
        let ghost g = gap as int;
        let ghost before = rest as int;
        rest = rest / 2;
        proof {
            let s = spacing(rest as int);
            assert(g * (2 * s) == 2 * g * s) by (nonlinear_arith);
            assert(2 * g * rest <= g * before) by (nonlinear_arith)
                requires
                    2 * rest <= before,
                    g >= 1,
            ;
            assert(2 * g < 0x1000) by (nonlinear_arith)
                requires
                    2 * g * rest <= u64::MAX,
                    rest >= 0x10_0000_0000_0000,
            ;
        }
        gap = gap * 2;
    }
    proof {
        assert(gap == spacing(n as int)) by (nonlinear_arith)
            requires
                gap * spacing(rest as int) == spacing(n as int),
                spacing(rest as int) == 1,
        ;
        lemma_spacing(n as int);
    }
    let m: u128 = round_half_even(n as u128, gap);
    proof {
        let g = gap as int;
        let a = n as int;
        let q = a / g;
        assert(q * g <= a) by (nonlinear_arith)
            requires
                q == a / g,
                g > 0,
        ;
        if n < 0x20_0000_0000_0000 {
            assert(g == 1);
            assert(a / 1 == a && a % 1 == 0);
        } else {
            assert(q < 0x20_0000_0000_0000) by (nonlinear_arith)
                requires
                    q * g <= a,
                    a < 0x20_0000_0000_0000 * g,
                    g > 0,
            ;
        }
        assert(m <= 0x20_0000_0000_0000);
        assert(m * g <= 0x2_0000_0000_0000_0000) by (nonlinear_arith)
            requires
                0 <= m <= 0x20_0000_0000_0000,
                1 <= g < 0x1000,
        ;
        if n > 0 {
            assert(m >= 1);
            assert(m * g > 0) by (nonlinear_arith)
                requires
                    m >= 1,
                    g >= 1,
            ;
        }
    }
    m * gap
}

/// `n / d` with up to three decimal places.
pub fn quotient_text(n: u64, d: u64, places: usize) -> (s: String)
    requires
        0 < d,
        places <= 3,
        n < 0x1_0000_0000_0000 * d,
    ensures
        s@ == quotient(n as int, d as int, places as int),
{
    let a: u128 = nearest_double(n);
    let b: u128 = nearest_double(d);
    let limit: u128 = 0x10_0000_0000_0000 * b;
    let mut top: u128 = a;
    let mut scale: u128 = 1;
    proof {
        lemma_quotient_bound(n as int, d as int);
        assert(a * 1 == a);
    }
    while 0 < top && top < limit
        invariant
            0 < b <= 0x2_0000_0000_0000_0000,
            limit == 0x10_0000_0000_0000 * b,
            a <= top <= a * scale,
            top == a * scale,
            scale >= 1,
            scale * unit(top as int, b as int) == unit(a as int, b as int),
            top < 2 * limit,
            a > 0 ==> scale <= top,
        decreases 2 * limit - top,
    {
        let ghost s = scale as int;
        let ghost t = top as int;
        proof {
            assert(a > 0) by (nonlinear_arith)
                requires
                    t == a * s,
                    t > 0,
                    s >= 1,
                    a >= 0,
            ;
            assert(a * (2 * s) == 2 * t) by (nonlinear_arith)
                requires
                    t == a * s,
            ;
            let u = unit(2 * t, b as int);
            assert((2 * s) * u == s * (2 * u)) by (nonlinear_arith);
        }
        top = top * 2;
        scale = scale * 2;
    }
    proof {
        let u = unit(top as int, b as int);
        assert(u == 1);
        assert(scale == unit(a as int, b as int)) by (nonlinear_arith)
            requires
                scale * u == unit(a as int, b as int),
                u == 1,
        ;
        assert(scale < 0x8000_0000_0000_0000_0000_0000_0000_0000) by {
            if a == 0 {
                assert(unit(0, b as int) == 1);
            }
        }
        assert(top / b <= 0x20_0000_0000_0000) by (nonlinear_arith)
            requires
                top < 0x20_0000_0000_0000 * b,
                b > 0,
        ;
    }
    let m: u128 = round_half_even(top, b);
    let ten: u128 = if places == 0 {
        1
    } else if places == 1 {
        10
    } else if places == 2 {
        100
    } else {
        1000
    };
    proof {
        assert(m * ten < 0x8000_0000_0000_0000_0000_0000_0000_0000) by (nonlinear_arith)
            requires
                m <= 0x20_0000_0000_0001,
                1 <= ten <= 1000,
        ;
        assert(m * ten <= 0x7fff_ffff_ffff_fff0) by (nonlinear_arith)
            requires
                m <= 0x20_0000_0000_0001,
                1 <= ten <= 1000,
        ;
        assert((m * ten) / (scale as int) <= m * ten) by (nonlinear_arith)
            requires
                m * ten >= 0,
                scale >= 1,
        ;
    }
    let v: u64 = round_half_even(m * ten, scale) as u64;
    let t: u64 = ten as u64;
    if places == 0 {
        return decimal(v);
    }
    let whole = decimal(v / t);
    let part = decimal(v % t);
    let padded = pad_left(part.as_str(), '0', places);
    cat3(whole.as_str(), ".", padded.as_str())
}

/// The quotient of the double-precision numbers is not much larger than that of
/// the numbers.
proof fn lemma_quotient_bound(n: int, d: int)
    requires
        0 <= n <= u64::MAX,
        0 < d <= u64::MAX,
        n < 0x1_0000_0000_0000 * d,
    ensures
        double_of(n) < 0x20_0000_0000_0000 * double_of(d),
{
    lemma_double_near(n);
    lemma_double_near(d);
}

/// A double-precision number is at most twice as far and at least half as far
/// as the number it stands for.
proof fn lemma_double_near(n: int)
    requires
        0 <= n,
    ensures
        double_of(n) <= 2 * n,
        n <= 2 * double_of(n),
{
    lemma_spacing(n);
    let g = spacing(n);
    let q = n / g;
    let r = n % g;
    vstd::arithmetic::div_mod::lemma_fundamental_div_mod(n, g);
    vstd::arithmetic::div_mod::lemma_mod_bound(n, g);
    assert(q * g + r == n) by (nonlinear_arith)
        requires
            n == g * q + r,
    ;
    assert((q + 1) * g == q * g + g) by (nonlinear_arith);
    if n < 0x20_0000_0000_0000 {
        assert(g == 1);
        assert(n / 1 == n && n % 1 == 0);
        assert(double_of(n) == n * 1);
    } else {
        assert(q >= 0x10_0000_0000_0000 - 1) by (nonlinear_arith)
            requires
                q * g + r == n,
                r < g,
                0x10_0000_0000_0000 * g <= n,
                g >= 1,
        ;
        assert(g <= q * g) by (nonlinear_arith)
            requires
                q >= 1,
                g >= 1,
        ;
    }
}

} // verus!
