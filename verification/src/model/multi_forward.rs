//! A pass of several tokens without a cache: what is checked before and on the
//! way. The order of its steps is a [`crate::model::schedule`].

use crate::error::{Fault, WillametteError};
use crate::model::cached_forward::{all_finite, are_finite};
use crate::model::config::{first, ModelConfig};
use crate::model::primitives::{gqa_fault, heads_fit, AttentionShape};
use crate::model::schedule::{plan_uncached_pass, uncached_steps, PassStep};
use crate::text::{cat3, cat7, dec, decimal, owned};
use vstd::prelude::*;

verus! {

/// What keeps tokens from going through a model.
pub open spec fn tokens_fault(n: int, config: ModelConfig) -> Option<Fault> {
    if n == 0 {
        Some(Fault::GgufParse("multi_token_forward: token_ids must not be empty"@))
    } else {
        first(
            gqa_fault(config.head_count as int, config.head_count_kv as int),
            if n > u32::MAX {
                Some(
                    Fault::GgufParse(
                        "multi_token_forward: too many tokens ("@ + dec(n) + ")"@,
                    ),
                )
            } else {
                None
            },
        )
    }
}

/// The steps of a pass over all tokens, and the widths of the heads.
pub fn plan_multi_token_forward(tokens: usize, layers: usize, config: &ModelConfig) -> (r: Result<
    (AttentionShape, Vec<PassStep>),
    WillametteError,
>)
    requires
        heads_fit(config.head_count as int, config.head_count_kv as int, config.head_dim as int),
        tokens < usize::MAX,
    ensures
        match r {
            Ok((shape, steps)) => {
                &&& tokens_fault(tokens as int, *config) is None
                &&& steps@ == uncached_steps(layers as int, tokens as int)
                &&& shape.n_heads == config.head_count
                &&& shape.n_kv_heads == config.head_count_kv
                &&& shape.head_dim == config.head_dim
                &&& shape.group_size == config.head_count / config.head_count_kv
                &&& shape.q_per_token_dim == config.head_count * config.head_dim
                &&& shape.kv_per_token_dim == config.head_count_kv * config.head_dim
            },
            Err(e) => tokens_fault(tokens as int, *config) == Some(e@),
        },
{
    if tokens == 0 {
        return Err(
            WillametteError::GgufParse(owned("multi_token_forward: token_ids must not be empty")),
        );
    }
    let shape = match AttentionShape::from_config(
        config.head_count,
        config.head_count_kv,
        config.head_dim,
    ) {
        Ok(s) => s,
        Err(e) => {
            return Err(e);
        },
    };
    if tokens as u64 > u32::MAX as u64 {
        let n = decimal(tokens as u64);
        return Err(
            WillametteError::GgufParse(
                cat3("multi_token_forward: too many tokens (", n.as_str(), ")"),
            ),
        );
    }
    Ok((shape, plan_uncached_pass(layers, tokens)))
}

/// Checks the hidden state of a token behind a half of a layer, which is named
/// `attn` or `ffn`. The state is given as bits.
pub fn check_hidden(hidden: &[u32], half: &str, layer: u32, token: usize) -> (r: Result<
    (),
    WillametteError,
>)
    ensures
        match r {
            Ok(_) => all_finite(hidden@),
            Err(e) => !all_finite(hidden@) && e@ == Fault::GgufParse(
                "multi_token_forward: non-finite hidden after "@ + half@ + " (layer "@ + dec(
                    layer as int,
                ) + ", token "@ + dec(token as int) + ")"@,
            ),
        },
{
    if are_finite(hidden) {
        return Ok(());
    }
    let a = decimal(layer as u64);
    let b = decimal(token as u64);
    Err(
        WillametteError::GgufParse(
            cat7(
                "multi_token_forward: non-finite hidden after ",
                half,
                " (layer ",
                a.as_str(),
                ", token ",
                b.as_str(),
                ")",
            ),
        ),
    )
}

} // verus!
