//! Checks on the lengths of the lists that the arithmetic works on.

use crate::error::{Fault, WillametteError};
use crate::text::{cat4, cat6, dec, decimal};
use vstd::prelude::*;

verus! {

/// A list has another length than wanted. The two numbers stand behind the two
/// texts.
pub open spec fn len_fault(before: Seq<char>, found: int, between: Seq<char>, wanted: int) -> Option<
    Fault,
> {
    if found != wanted {
        Some(Fault::GgufParse(before + dec(found) + between + dec(wanted)))
    } else {
        None
    }
}

/// Checks a length.
pub fn check_len(before: &str, found: usize, between: &str, wanted: usize) -> (r: Result<
    (),
    WillametteError,
>)
    ensures
        match r {
            Ok(_) => len_fault(before@, found as int, between@, wanted as int) is None,
            Err(e) => len_fault(before@, found as int, between@, wanted as int) == Some(e@),
        },
{
    if found == wanted {
        return Ok(());
    }
    let a = decimal(found as u64);
    let b = decimal(wanted as u64);
    Err(WillametteError::GgufParse(cat4(before, a.as_str(), between, b.as_str())))
}

/// Three lists do not have the same length. Each number stands behind its text.
pub open spec fn three_fault(
    first: Seq<char>,
    a: int,
    second: Seq<char>,
    b: int,
    third: Seq<char>,
    c: int,
) -> Option<Fault> {
    if a != b || a != c {
        Some(Fault::GgufParse(first + dec(a) + second + dec(b) + third + dec(c)))
    } else {
        None
    }
}

/// Checks that three lists have the same length.
pub fn check_three(first: &str, a: usize, second: &str, b: usize, third: &str, c: usize) -> (r:
    Result<(), WillametteError>)
    ensures
        match r {
            Ok(_) => three_fault(first@, a as int, second@, b as int, third@, c as int) is None,
            Err(e) => three_fault(first@, a as int, second@, b as int, third@, c as int) == Some(
                e@,
            ),
        },
{
    if a == b && a == c {
        return Ok(());
    }
    let x = decimal(a as u64);
    let y = decimal(b as u64);
    let z = decimal(c as u64);
    Err(
        WillametteError::GgufParse(
            cat6(first, x.as_str(), second, y.as_str(), third, z.as_str()),
        ),
    )
}

/// The lists of a normalisation differ in length.
pub open spec fn rms_norm_fault(x: int, weight: int, out: int) -> Option<Fault> {
    three_fault("rms_norm_f32: length mismatch x="@, x, " weight="@, weight, " out="@, out)
}

/// Checks the lists of a normalisation.
pub fn check_rms_norm(x: usize, weight: usize, out: usize) -> (r: Result<(), WillametteError>)
    ensures
        match r {
            Ok(_) => rms_norm_fault(x as int, weight as int, out as int) is None,
            Err(e) => rms_norm_fault(x as int, weight as int, out as int) == Some(e@),
        },
{
    check_three("rms_norm_f32: length mismatch x=", x, " weight=", weight, " out=", out)
}

/// A projection and its bias differ in length.
pub open spec fn bias_fault(projection: int, bias: int) -> Option<Fault> {
    len_fault("projection length "@, projection, " does not match bias length "@, bias)
}

/// Checks a projection against its bias.
pub fn check_projection_bias(projection: usize, bias: usize) -> (r: Result<(), WillametteError>)
    ensures
        match r {
            Ok(_) => bias_fault(projection as int, bias as int) is None,
            Err(e) => bias_fault(projection as int, bias as int) == Some(e@),
        },
{
    check_len("projection length ", projection, " does not match bias length ", bias)
}

/// The projections of a chunk of tokens do not take whole biases.
pub open spec fn batched_bias_fault(projection: int, bias: int) -> Option<Fault> {
    if bias == 0 || projection % bias != 0 {
        Some(
            Fault::GgufParse(
                "batched projection length "@ + dec(projection)
                    + " is not a positive multiple of bias length "@ + dec(bias),
            ),
        )
    } else {
        None
    }
}

/// Checks the projections of a chunk of tokens against their bias, and says how
/// many tokens there are.
pub fn check_projection_bias_batched(projection: usize, bias: usize) -> (r: Result<
    usize,
    WillametteError,
>)
    ensures
        match r {
            Ok(n) => batched_bias_fault(projection as int, bias as int) is None && n * bias
                == projection,
            Err(e) => batched_bias_fault(projection as int, bias as int) == Some(e@),
        },
{
    if bias == 0 || projection % bias != 0 {
        let a = decimal(projection as u64);
        let b = decimal(bias as u64);
        return Err(
            WillametteError::GgufParse(
                cat4(
                    "batched projection length ",
                    a.as_str(),
                    " is not a positive multiple of bias length ",
                    b.as_str(),
                ),
            ),
        );
    }
    let n: usize = projection / bias;
    proof {
        vstd::arithmetic::div_mod::lemma_fundamental_div_mod(projection as int, bias as int);
        assert(n * bias == projection) by (nonlinear_arith)
            requires
                projection == bias * n + 0,
        ;
    }
    Ok(n)
}

} // verus!
