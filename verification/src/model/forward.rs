//! A pass of one token at the first position: what is checked behind each layer.

use crate::error::{Fault, WillametteError};
use crate::gguf::tensor::{finite_bits, is_finite_bits, non_finite_name, non_finite_text};
use crate::text::{cat6, dec, decimal};
use vstd::prelude::*;

verus! {

/// The place of the first number that is not finite, if there is one.
pub open spec fn first_stray(bits: Seq<u32>, at: int) -> bool {
    &&& 0 <= at < bits.len()
    &&& !finite_bits(bits[at])
    &&& forall|i: int| 0 <= i < at ==> finite_bits(#[trigger] bits[i])
}

/// Checks the hidden state behind a layer, given as bits.
pub fn check_layer_output(hidden: &[u32], layer: u32) -> (r: Result<(), WillametteError>)
    ensures
        match r {
            Ok(_) => forall|i: int| 0 <= i < hidden@.len() ==> finite_bits(#[trigger] hidden@[i]),
            Err(e) => exists|at: int|
                #[trigger] first_stray(hidden@, at) && e@ == Fault::GgufParse(
                    "forward_single_token: non-finite value "@ + non_finite_text(hidden@[at])
                        + " at hidden dim "@ + dec(at) + " after layer "@ + dec(layer as int),
                ),
        },
{
    let n: usize = hidden.len();
    let mut i: usize = 0;
    while i < n
        invariant
            i <= n,
            n == hidden@.len(),
            forall|k: int| 0 <= k < i ==> finite_bits(#[trigger] hidden@[k]),
        decreases n - i,
    {
        if !is_finite_bits(hidden[i]) {
            let value = non_finite_name(hidden[i]);
            let dim = decimal(i as u64);
            let index = decimal(layer as u64);
            proof {
                assert(first_stray(hidden@, i as int));
            }
            return Err(
                WillametteError::GgufParse(
                    cat6(
                        "forward_single_token: non-finite value ",
                        value.as_str(),
                        " at hidden dim ",
                        dim.as_str(),
                        " after layer ",
                        index.as_str(),
                    ),
                ),
            );
        }
        i = i + 1;
    }
    Ok(())
}

} // verus!
