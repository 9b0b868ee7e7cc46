//! One layer on one token: what is checked before its arithmetic.

use crate::error::{Fault, WillametteError};
use crate::model::architecture::ForwardVariant;
use crate::model::attention::{attention_block_fault, check_attention_block};
use crate::model::config::{first, ModelConfig};
use crate::model::ffn::{check_ffn_block, ffn_block_fault};
use crate::model::graph::LayerWeights;
use crate::model::lengths::{check_len, len_fault};
use crate::model::primitives::heads_fit;
use crate::text::owned;
use vstd::prelude::*;

verus! {

/// What keeps a layer with sub-norms from taking one token.
pub open spec fn sub_norm_block_fault(
    x: int,
    out: int,
    layer: LayerWeights<'_>,
    config: ModelConfig,
) -> Option<Fault> {
    let n = config.embedding_length as int;
    let lengths = first(
        len_fault("transformer_block_forward: x.len()="@, x, " != n_embd="@, n),
        len_fault("transformer_block_forward: output.len()="@, out, " != n_embd="@, n),
    );
    if lengths is Some {
        lengths
    } else if layer.attn_sub_norm_f32 is None {
        Some(Fault::GgufParse("BitNet layer is missing attn_sub_norm"@))
    } else if layer.ffn_sub_norm_f32 is None {
        Some(Fault::GgufParse("BitNet layer is missing ffn_sub_norm"@))
    } else {
        first(
            attention_block_fault(
                n,
                layer.attn_norm_f32@.len() as int,
                layer.attn_sub_norm_f32->0@.len() as int,
                n,
                config,
            ),
            ffn_block_fault(
                n,
                layer.ffn_norm_f32@.len() as int,
                layer.ffn_sub_norm_f32->0@.len() as int,
                n,
                config,
            ),
        )
    }
}

/// What keeps a layer from taking one token.
pub open spec fn block_input_fault(
    x: int,
    out: int,
    layer: LayerWeights<'_>,
    config: ModelConfig,
    variant: ForwardVariant,
) -> Option<Fault> {
    if variant == ForwardVariant::BitNetSubNorm {
        sub_norm_block_fault(x, out, layer, config)
    } else if x != config.embedding_length || out != config.embedding_length {
        Some(Fault::GgufParse("Llama transformer block hidden length mismatch"@))
    } else {
        None
    }
}

/// Checks what a layer with sub-norms needs to take one token.
fn check_sub_norm_block(x: usize, out: usize, layer: &LayerWeights<'_>, config: &ModelConfig) -> (r:
    Result<(), WillametteError>)
    requires
        heads_fit(config.head_count as int, config.head_count_kv as int, config.head_dim as int),
    ensures
        match r {
            Ok(_) => sub_norm_block_fault(x as int, out as int, *layer, *config) is None,
            Err(e) => sub_norm_block_fault(x as int, out as int, *layer, *config) == Some(e@),
        },
{
    let n: usize = config.embedding_length as usize;
    match check_len("transformer_block_forward: x.len()=", x, " != n_embd=", n) {
        Ok(_) => {},
        Err(e) => {
            return Err(e);
        },
    }
    match check_len("transformer_block_forward: output.len()=", out, " != n_embd=", n) {
        Ok(_) => {},
        Err(e) => {
            return Err(e);
        },
    }
    let attn_sub: usize = match &layer.attn_sub_norm_f32 {
        Some(w) => w.len(),
        None => {
            return Err(WillametteError::GgufParse(owned("BitNet layer is missing attn_sub_norm")));
        },
    };
    let ffn_sub: usize = match &layer.ffn_sub_norm_f32 {
        Some(w) => w.len(),
        None => {
            return Err(WillametteError::GgufParse(owned("BitNet layer is missing ffn_sub_norm")));
        },
    };
    match check_attention_block(n, layer.attn_norm_f32.len(), attn_sub, n, config) {
        Ok(_) => {},
        Err(e) => {
            return Err(e);
        },
    }
    check_ffn_block(n, layer.ffn_norm_f32.len(), ffn_sub, n, config)
}

/// Checks what a layer needs to take one token.
pub fn check_block(
    x: usize,
    out: usize,
    layer: &LayerWeights<'_>,
    config: &ModelConfig,
    variant: ForwardVariant,
) -> (r: Result<(), WillametteError>)
    requires
        heads_fit(config.head_count as int, config.head_count_kv as int, config.head_dim as int),
    ensures
        match r {
            Ok(_) => block_input_fault(x as int, out as int, *layer, *config, variant) is None,
            Err(e) => block_input_fault(x as int, out as int, *layer, *config, variant) == Some(
                e@,
            ),
        },
{
    match variant {
        ForwardVariant::BitNetSubNorm => check_sub_norm_block(x, out, layer, config),
        _ => {
            let n: usize = config.embedding_length as usize;
            if x != n || out != n {
                return Err(
                    WillametteError::GgufParse(
                        owned("Llama transformer block hidden length mismatch"),
                    ),
                );
            }
            Ok(())
        },
    }
}

} // verus!
