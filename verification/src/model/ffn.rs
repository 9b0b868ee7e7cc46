//! The feed-forward half of a layer: what is checked before its arithmetic.

use crate::error::{Fault, WillametteError};
use crate::model::config::{first, ModelConfig};
use crate::model::lengths::{check_len, check_three, len_fault, three_fault};
use vstd::prelude::*;

verus! {

/// The lists of a product differ in length.
pub open spec fn product_lists_fault(a: int, b: int, out: int) -> Option<Fault> {
    three_fault("elementwise_mul: length mismatch a="@, a, " b="@, b, " out="@, out)
}

/// Checks the lists of a product.
pub fn check_elementwise_mul(a: usize, b: usize, out: usize) -> (r: Result<(), WillametteError>)
    ensures
        match r {
            Ok(_) => product_lists_fault(a as int, b as int, out as int) is None,
            Err(e) => product_lists_fault(a as int, b as int, out as int) == Some(e@),
        },
{
    check_three("elementwise_mul: length mismatch a=", a, " b=", b, " out=", out)
}

/// What keeps the feed-forward half of a layer from taking one token.
pub open spec fn ffn_block_fault(
    x: int,
    norm: int,
    sub_norm: int,
    out: int,
    config: ModelConfig,
) -> Option<Fault> {
    let n = config.embedding_length as int;
    let f = config.feed_forward_length as int;
    first(
        len_fault("ffn_block_forward: x.len()="@, x, " != n_embd="@, n),
        first(
            len_fault("ffn_block_forward: ffn_norm_weight.len()="@, norm, " != n_embd="@, n),
            first(
                len_fault(
                    "ffn_block_forward: ffn_sub_norm_weight.len()="@,
                    sub_norm,
                    " != n_ff="@,
                    f,
                ),
                len_fault("ffn_block_forward: output.len()="@, out, " != n_embd="@, n),
            ),
        ),
    )
}

/// Checks the lists of the feed-forward half of a layer.
pub fn check_ffn_block(
    x: usize,
    norm: usize,
    sub_norm: usize,
    out: usize,
    config: &ModelConfig,
) -> (r: Result<(), WillametteError>)
    ensures
        match r {
            Ok(_) => ffn_block_fault(x as int, norm as int, sub_norm as int, out as int, *config)
                is None,
            Err(e) => ffn_block_fault(x as int, norm as int, sub_norm as int, out as int, *config)
                == Some(e@),
        },
{
    let n: usize = config.embedding_length as usize;
    let f: usize = config.feed_forward_length as usize;
    match check_len("ffn_block_forward: x.len()=", x, " != n_embd=", n) {
        Ok(_) => {},
        Err(e) => {
            return Err(e);
        },
    }
    match check_len("ffn_block_forward: ffn_norm_weight.len()=", norm, " != n_embd=", n) {
        Ok(_) => {},
        Err(e) => {
            return Err(e);
        },
    }
    match check_len("ffn_block_forward: ffn_sub_norm_weight.len()=", sub_norm, " != n_ff=", f) {
        Ok(_) => {},
        Err(e) => {
            return Err(e);
        },
    }
    check_len("ffn_block_forward: output.len()=", out, " != n_embd=", n)
}

} // verus!
