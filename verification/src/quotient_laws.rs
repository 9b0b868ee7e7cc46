//! What the text of a quotient says.

use crate::gguf::metadata::round_half_even;
use crate::number::{apart, rounding_finds_the_nearest};
use crate::quotient::{
    double_of, half_even, power_of_ten, quotient, scaled_quotient, spacing, unit,
};
use crate::text::{dec, padded_left};
use crate::text_laws::{number_of, numerals_read_back, padding_reaches_the_width};
use vstd::prelude::*;

verus! {

/// Rounding gives the nearest whole number, and of two that are equally near the even one.
pub proof fn quotients_are_rounded_to_the_nearest(a: int, b: int, k: int)
    requires
        b > 0,
        k != half_even(a, b),
    ensures
        apart(a, half_even(a, b) * b) <= apart(a, k * b),
        apart(a, half_even(a, b) * b) == apart(a, k * b) ==> half_even(a, b) % 2 == 0,
{
    assert(half_even(a, b) == round_half_even(a, b));
    rounding_finds_the_nearest(a, b, k);
}

/// A multiple is not rounded.
proof fn lemma_multiple(k: int, b: int)
    requires
        b > 0,
    ensures
        half_even(k * b, b) == k,
{
    vstd::arithmetic::div_mod::lemma_div_multiples_vanish(k, b);
    vstd::arithmetic::div_mod::lemma_mod_multiples_basic(k, b);
    assert(k * b == b * k) by (nonlinear_arith);
}

/// Whole numbers below two to the power of 53 are double-precision numbers; above, the
/// spacing of these is a power of two with between 52 and 53 bits of the number in front
/// of it.
pub proof fn whole_numbers_are_kept(n: int)
    requires
        0 <= n,
    ensures
        n < 0x20_0000_0000_0000 ==> double_of(n) == n,
        n >= 0x20_0000_0000_0000 ==> spacing(n) == 2 * spacing(n / 2) && 0x10_0000_0000_0000
            * spacing(n) <= n < 0x20_0000_0000_0000 * spacing(n),
        spacing(n) >= 1,
    decreases n,
{
    if n < 0x20_0000_0000_0000 {
        lemma_multiple(n, 1);
        assert(n * 1 == n);
    } else {
        whole_numbers_are_kept(n / 2);
    }
}

/// A quotient is scaled up to at least 52 bits.
proof fn lemma_unit(n: int, d: int)
    requires
        0 <= n,
        0 < d,
    ensures
        unit(n, d) >= 1,
    decreases 0x20_0000_0000_0000 * d - n,
{
    if 0 < n < 0x10_0000_0000_0000 * d {
        lemma_unit(2 * n, d);
    }
}

/// A quotient without a remainder is exact: its text has the whole number, and zeros behind
/// the point.
pub proof fn exact_quotients_are_exact(k: int, d: int, places: int)
    requires
        0 <= k,
        0 < d < 0x20_0000_0000_0000,
        k * d < 0x20_0000_0000_0000,
        0 <= places <= 3,
    ensures
        scaled_quotient(k * d, d, places) == k * power_of_ten(places),
{
    let n = k * d;
    assert(n >= 0) by (nonlinear_arith)
        requires
            n == k * d,
            k >= 0,
            d > 0,
    ;
    whole_numbers_are_kept(n);
    whole_numbers_are_kept(d);
    lemma_unit(n, d);
    let u = unit(n, d);
    let ten = power_of_ten(places);
    assert(n * u == (k * u) * d) by (nonlinear_arith)
        requires
            n == k * d,
    ;
    lemma_multiple(k * u, d);
    assert((k * u) * ten == (k * ten) * u) by (nonlinear_arith);
    lemma_multiple(k * ten, u);
}

/// The text of a quotient reads as its whole part, a point, and as many figures as there are
/// places; without places it is the whole number alone.
pub proof fn quotient_texts_read_back(n: int, d: int, places: int)
    requires
        0 <= places <= 3,
        0 <= scaled_quotient(n, d, places),
    ensures
        ({
            let v = scaled_quotient(n, d, places);
            let s = quotient(n, d, places);
            &&& places == 0 ==> s == dec(v)
            &&& places > 0 ==> {
                let at = s.len() - places - 1;
                &&& at > 0
                &&& s[at] == '.'
                &&& number_of(s.take(at), 10) * power_of_ten(places) + number_of(
                    s.skip(at + 1),
                    10,
                ) == v
            }
        }),
        power_of_ten(0) == 1,
        power_of_ten(1) == 10,
        power_of_ten(2) == 10 * power_of_ten(1),
        power_of_ten(3) == 10 * power_of_ten(2),
{
    let v = scaled_quotient(n, d, places);
    let ten = power_of_ten(places);
    if places > 0 {
        let whole = dec(v / ten);
        let digits = dec(v % ten);
        let part = padded_left(digits, '0', places);
        let s = quotient(n, d, places);
        reveal_strlit(".");
        numerals_read_back(v / ten);
        numerals_read_back(v % ten);
        lemma_few_digits(v % ten, places);
        padding_reaches_the_width(digits, '0', places);
        assert(part.len() == places);
        let at = s.len() - places - 1;
        assert(at == whole.len());
        assert(s.take(at) =~= whole);
        assert(s.skip(at + 1) =~= part);
        assert(part =~= crate::text::repeated('0', places - digits.len()) + digits);
        lemma_leading_zeros(digits, places - digits.len());
        vstd::arithmetic::div_mod::lemma_fundamental_div_mod(v, ten);
        assert(ten * (v / ten) == (v / ten) * ten) by (nonlinear_arith);
    }
}

/// A number below a power of ten has few digits.
proof fn lemma_few_digits(n: int, places: int)
    requires
        1 <= places <= 3,
        0 <= n < power_of_ten(places),
    ensures
        dec(n).len() <= places,
{
    reveal_with_fuel(dec, 4);
}

/// Zeros in front change no number.
proof fn lemma_leading_zeros(s: Seq<char>, zeros: int)
    requires
        0 <= zeros,
    ensures
        number_of(crate::text::repeated('0', zeros) + s, 10) == number_of(s, 10),
    decreases s.len(), zeros,
{
    let z = crate::text::repeated('0', zeros);
    if s.len() == 0 {
        assert(z + s =~= z);
        if zeros > 0 {
            assert(z.drop_last() =~= crate::text::repeated('0', zeros - 1));
            lemma_leading_zeros(s, zeros - 1);
            assert(crate::text::repeated('0', zeros - 1) + s =~= crate::text::repeated(
                '0',
                zeros - 1,
            ));
        }
    } else {
        lemma_leading_zeros(s.drop_last(), zeros);
        assert((z + s).drop_last() =~= z + s.drop_last());
    }
}

} // verus!
