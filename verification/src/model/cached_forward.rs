//! Forward passes with a cache: what is checked before, the order of the steps,
//! and what is checked on the way.

use crate::error::{Fault, WillametteError};
use crate::gguf::tensor::{finite_bits, is_finite_bits};
use crate::model::architecture::ForwardVariant;
use crate::model::config::ModelConfig;
use crate::model::graph::{LayerWeights, ModelGraph};
use crate::model::kv_cache::{CacheState, KVCache};
use crate::model::primitives::{gqa_fault, heads_fit, AttentionShape, RopeType};
use crate::text::{cat2, cat3, cat4, cat5, dec, decimal, owned};
use vstd::prelude::*;

verus! {

/// The widths of a model. Numbers that are not whole are held as bits.
#[derive(Debug, Clone, Copy)]
pub struct LayerCtx {
    pub variant: ForwardVariant,
    pub n_embd: usize,
    pub kv_dim: usize,
    pub n_ff: usize,
    pub head_dim: usize,
    pub n_rot: usize,
    pub freq_base: u32,
    pub eps: u32,
    pub n_heads: usize,
    pub n_heads_kv: u32,
    pub shape: AttentionShape,
}

/// `ctx` holds the widths of a model.
pub open spec fn is_ctx(ctx: LayerCtx, cfg: ModelConfig, variant: ForwardVariant) -> bool {
    &&& ctx.variant == variant
    &&& ctx.n_embd == cfg.embedding_length
    &&& ctx.kv_dim == cfg.kv_dim
    &&& ctx.n_ff == cfg.feed_forward_length
    &&& ctx.head_dim == cfg.head_dim
    &&& ctx.n_rot == cfg.rope_dimension_count
    &&& ctx.freq_base == cfg.rope_freq_base
    &&& ctx.eps == cfg.layer_norm_rms_epsilon
    &&& ctx.n_heads == cfg.head_count
    &&& ctx.n_heads_kv == cfg.head_count_kv
    &&& ctx.shape.n_heads == cfg.head_count
    &&& ctx.shape.n_kv_heads == cfg.head_count_kv
    &&& ctx.shape.head_dim == cfg.head_dim
    &&& ctx.shape.group_size == cfg.head_count / cfg.head_count_kv
    &&& ctx.shape.q_per_token_dim == cfg.head_count * cfg.head_dim
    &&& ctx.shape.kv_per_token_dim == cfg.head_count_kv * cfg.head_dim
}

/// The widths of a model.
pub fn build_layer_ctx(cfg: &ModelConfig, variant: ForwardVariant) -> (r: Result<
    LayerCtx,
    WillametteError,
>)
    requires
        heads_fit(cfg.head_count as int, cfg.head_count_kv as int, cfg.head_dim as int),
    ensures
        match r {
            Ok(ctx) => gqa_fault(cfg.head_count as int, cfg.head_count_kv as int) is None
                && is_ctx(ctx, *cfg, variant),
            Err(e) => gqa_fault(cfg.head_count as int, cfg.head_count_kv as int) == Some(e@),
        },
{
    match AttentionShape::from_config(cfg.head_count, cfg.head_count_kv, cfg.head_dim) {
        Ok(shape) => Ok(
            LayerCtx {
                variant,
                n_embd: cfg.embedding_length as usize,
                kv_dim: cfg.kv_dim as usize,
                n_ff: cfg.feed_forward_length as usize,
                head_dim: cfg.head_dim as usize,
                n_rot: cfg.rope_dimension_count as usize,
                freq_base: cfg.rope_freq_base,
                eps: cfg.layer_norm_rms_epsilon,
                n_heads: cfg.head_count as usize,
                n_heads_kv: cfg.head_count_kv,
                shape,
            },
        ),
        Err(e) => Err(e),
    }
}

/// Every kind of forward pass is known.
pub fn ensure_supported_variant(variant: ForwardVariant) -> (r: Result<(), WillametteError>)
    ensures
        r is Ok,
{
    match variant {
        ForwardVariant::BitNetSubNorm => Ok(()),
        ForwardVariant::VanillaLlama => Ok(()),
        ForwardVariant::Qwen2 => Ok(()),
    }
}

/// Which values of a head are rotated together.
pub open spec fn rope_of(variant: ForwardVariant) -> RopeType {
    match variant {
        ForwardVariant::BitNetSubNorm => RopeType::Neox,
        ForwardVariant::Qwen2 => RopeType::Neox,
        ForwardVariant::VanillaLlama => RopeType::Norm,
    }
}

/// Which values of a head are rotated together.
pub fn rope_type(variant: ForwardVariant) -> (r: RopeType)
    ensures
        r == rope_of(variant),
{
    match variant {
        ForwardVariant::BitNetSubNorm => RopeType::Neox,
        ForwardVariant::Qwen2 => RopeType::Neox,
        ForwardVariant::VanillaLlama => RopeType::Norm,
    }
}

/// How many values a chunk of tokens takes.
pub fn checked_token_buffer_len(token_count: usize, width: usize, name: &str) -> (r: Result<
    usize,
    WillametteError,
>)
    ensures
        match r {
            Ok(n) => n == token_count * width,
            Err(e) => token_count * width > usize::MAX && e@ == Fault::GgufParse(
                "prefill_with_cache: token-major "@ + name@ + " buffer size overflow"@,
            ),
        },
{
    match token_count.checked_mul(width) {
        Some(n) => Ok(n),
        None => Err(
            WillametteError::GgufParse(
                cat3("prefill_with_cache: token-major ", name, " buffer size overflow"),
            ),
        ),
    }
}

/// Why a token cannot go through the model next.
pub open spec fn step_fault(
    cache: CacheState,
    kv_dim: int,
    n_layers: int,
    vocab_size: u32,
    token: u32,
    position: u32,
) -> Option<Fault> {
    if cache.kv_dim != kv_dim {
        Some(
            Fault::GgufParse(
                "forward_with_cache: cache.kv_dim="@ + dec(cache.kv_dim) + " != model kv_dim="@
                    + dec(kv_dim),
            ),
        )
    } else if cache.layers.len() != n_layers {
        Some(
            Fault::GgufParse(
                "forward_with_cache: cache.n_layers="@ + dec(cache.layers.len() as int)
                    + " != model layers="@ + dec(n_layers),
            ),
        )
    } else if cache.position() != position {
        Some(
            Fault::GgufParse(
                "forward_with_cache: cache.position()="@ + dec(cache.position())
                    + " != position="@ + dec(position as int)
                    + "; tokens must be processed in order"@,
            ),
        )
    } else if token >= vocab_size {
        Some(
            Fault::GgufParse(
                "forward_with_cache: token_id "@ + dec(token as int) + " out of vocab range "@
                    + dec(vocab_size as int),
            ),
        )
    } else {
        None
    }
}

/// Checks that a token can go through the model next.
pub fn validate_cache_inputs(
    graph: &ModelGraph<'_>,
    cache: &KVCache,
    token_id: u32,
    position: u32,
    kv_dim: usize,
) -> (r: Result<(), WillametteError>)
    requires
        cache.wf(),
    ensures
        match r {
            Ok(_) => step_fault(
                cache@,
                kv_dim as int,
                graph.layers@.len() as int,
                graph.config.vocab_size,
                token_id,
                position,
            ) is None,
            Err(e) => step_fault(
                cache@,
                kv_dim as int,
                graph.layers@.len() as int,
                graph.config.vocab_size,
                token_id,
                position,
            ) == Some(e@),
        },
{
    if cache.kv_dim() != kv_dim {
        let a = decimal(cache.kv_dim() as u64);
        let b = decimal(kv_dim as u64);
        return Err(
            WillametteError::GgufParse(
                cat4(
                    "forward_with_cache: cache.kv_dim=",
                    a.as_str(),
                    " != model kv_dim=",
                    b.as_str(),
                ),
            ),
        );
    }
    if cache.n_layers() != graph.layers.len() {
        let a = decimal(cache.n_layers() as u64);
        let b = decimal(graph.layers.len() as u64);
        return Err(
            WillametteError::GgufParse(
                cat4(
                    "forward_with_cache: cache.n_layers=",
                    a.as_str(),
                    " != model layers=",
                    b.as_str(),
                ),
            ),
        );
    }
    let at: u64 = cache.position() as u64;
    if at != position as u64 {
        let a = decimal(at);
        let b = decimal(position as u64);
        return Err(
            WillametteError::GgufParse(
                cat5(
                    "forward_with_cache: cache.position()=",
                    a.as_str(),
                    " != position=",
                    b.as_str(),
                    "; tokens must be processed in order",
                ),
            ),
        );
    }
    if token_id >= graph.config.vocab_size {
        let a = decimal(token_id as u64);
        let b = decimal(graph.config.vocab_size as u64);
        return Err(
            WillametteError::GgufParse(
                cat4(
                    "forward_with_cache: token_id ",
                    a.as_str(),
                    " out of vocab range ",
                    b.as_str(),
                ),
            ),
        );
    }
    Ok(())
}

/// The length of a list of numbers that may be missing.
pub open spec fn len_or_zero(v: Option<Vec<u32>>) -> int {
    match v {
        Some(x) => x@.len() as int,
        None => 0,
    }
}

/// The length of a list of numbers that may be missing.
fn count_or_zero(v: &Option<Vec<u32>>) -> (n: usize)
    ensures
        n == len_or_zero(*v),
{
    match v {
        Some(x) => x.len(),
        None => 0,
    }
}

/// Why a layer does not fit the widths of the model.
pub open spec fn layer_fault(layer: LayerWeights<'_>, i: int, ctx: LayerCtx) -> Option<Fault> {
    if layer.index != i {
        Some(
            Fault::GgufParse(
                "prefill_with_cache: layer index "@ + dec(layer.index as int)
                    + " != expected "@ + dec(i),
            ),
        )
    } else if layer.attn_norm_f32@.len() != ctx.n_embd || layer.ffn_norm_f32@.len() != ctx.n_embd {
        Some(
            Fault::GgufParse(
                "prefill_with_cache: layer "@ + dec(layer.index as int)
                    + " norm dimensions are invalid"@,
            ),
        )
    } else if ctx.variant == ForwardVariant::BitNetSubNorm && (len_or_zero(layer.attn_sub_norm_f32)
        != ctx.n_embd || len_or_zero(layer.ffn_sub_norm_f32) != ctx.n_ff) {
        Some(
            Fault::GgufParse(
                "prefill_with_cache: BitNet layer "@ + dec(layer.index as int)
                    + " sub-norm dimensions are invalid"@,
            ),
        )
    } else {
        None
    }
}

/// The first fault among the first `n` layers.
pub open spec fn layers_fault(
    layers: Seq<LayerWeights<'_>>,
    n: int,
    ctx: LayerCtx,
) -> Option<Fault>
    decreases n,
{
    if n <= 0 {
        None
    } else if layers_fault(layers, n - 1, ctx) is Some {
        layers_fault(layers, n - 1, ctx)
    } else {
        layer_fault(layers[n - 1], n - 1, ctx)
    }
}

/// The first of the first `n` tokens that the vocabulary does not have.
pub open spec fn stray(ids: Seq<u32>, vocab_size: u32, n: int) -> Option<u32>
    decreases n,
{
    if n <= 0 {
        None
    } else if stray(ids, vocab_size, n - 1) is Some {
        stray(ids, vocab_size, n - 1)
    } else if ids[n - 1] >= vocab_size {
        Some(ids[n - 1])
    } else {
        None
    }
}

/// Why a chunk of tokens cannot go through the model.
pub open spec fn prefill_fault(
    graph: ModelGraph<'_>,
    cache: CacheState,
    ids: Seq<u32>,
    start: u32,
    ctx: LayerCtx,
) -> Option<Fault> {
    if ids.len() == 0 {
        Some(Fault::GgufParse("prefill_with_cache: token chunk must not be empty"@))
    } else if cache.chunk_fault(
        graph.layers@.len() as int,
        ctx.kv_dim as int,
        ids.len() as int,
    ) is Some {
        cache.chunk_fault(graph.layers@.len() as int, ctx.kv_dim as int, ids.len() as int)
    } else if cache.position() != start {
        Some(
            Fault::GgufParse(
                "prefill_with_cache: cache.position()="@ + dec(cache.position())
                    + " != start_position="@ + dec(start as int),
            ),
        )
    } else if ids.len() - 1 > u32::MAX {
        Some(Fault::GgufParse("prefill_with_cache: token chunk is too large"@))
    } else if start + (ids.len() - 1) > u32::MAX {
        Some(Fault::GgufParse("prefill_with_cache: position overflows u32"@))
    } else if stray(ids, graph.config.vocab_size, ids.len() as int) is Some {
        Some(
            Fault::GgufParse(
                "prefill_with_cache: token_id "@ + dec(
                    stray(ids, graph.config.vocab_size, ids.len() as int)->0 as int,
                ) + " out of vocab range "@ + dec(graph.config.vocab_size as int),
            ),
        )
    } else if graph.output_norm_f32@.len() != ctx.n_embd {
        Some(
            Fault::GgufParse(
                "prefill_with_cache: output norm length "@ + dec(
                    graph.output_norm_f32@.len() as int,
                ) + " != embedding length "@ + dec(ctx.n_embd as int),
            ),
        )
    } else {
        layers_fault(graph.layers@, graph.layers@.len() as int, ctx)
    }
}

/// The first stray token stays the first.
proof fn lemma_stray_stays(ids: Seq<u32>, vocab_size: u32, n: int, m: int)
    requires
        0 <= n <= m,
        stray(ids, vocab_size, n) is Some,
    ensures
        stray(ids, vocab_size, m) == stray(ids, vocab_size, n),
    decreases m - n,
{
    if n < m {
        lemma_stray_stays(ids, vocab_size, n, m - 1);
    }
}

/// The first layer that does not fit stays the first.
proof fn lemma_layers_stay(layers: Seq<LayerWeights<'_>>, n: int, m: int, ctx: LayerCtx)
    requires
        0 <= n <= m,
        layers_fault(layers, n, ctx) is Some,
    ensures
        layers_fault(layers, m, ctx) == layers_fault(layers, n, ctx),
    decreases m - n,
{
    if n < m {
        lemma_layers_stay(layers, n, m - 1, ctx);
    }
}

/// The first token that the vocabulary does not have.
fn find_stray(ids: &[u32], vocab_size: u32) -> (r: Option<u32>)
    ensures
        r == stray(ids@, vocab_size, ids@.len() as int),
{
    let n: usize = ids.len();
    let mut i: usize = 0;
    while i < n
        invariant
            i <= n,
            n == ids@.len(),
            stray(ids@, vocab_size, i as int) is None,
        decreases n - i,
    {
        if ids[i] >= vocab_size {
            proof {
                lemma_stray_stays(ids@, vocab_size, i + 1, n as int);
            }
            return Some(ids[i]);
        }
        i = i + 1;
    }
    None
}

/// Checks that a layer fits the widths of the model.
fn validate_layer(layer: &LayerWeights<'_>, i: usize, ctx: &LayerCtx) -> (r: Result<
    (),
    WillametteError,
>)
    ensures
        match r {
            Ok(_) => layer_fault(*layer, i as int, *ctx) is None,
            Err(e) => layer_fault(*layer, i as int, *ctx) == Some(e@),
        },
{
    let number = decimal(layer.index as u64);
    if layer.index as u64 != i as u64 {
        let b = decimal(i as u64);
        return Err(
            WillametteError::GgufParse(
                cat4(
                    "prefill_with_cache: layer index ",
                    number.as_str(),
                    " != expected ",
                    b.as_str(),
                ),
            ),
        );
    }
    if layer.attn_norm_f32.len() != ctx.n_embd || layer.ffn_norm_f32.len() != ctx.n_embd {
        return Err(
            WillametteError::GgufParse(
                cat3(
                    "prefill_with_cache: layer ",
                    number.as_str(),
                    " norm dimensions are invalid",
                ),
            ),
        );
    }
    if ctx.variant == ForwardVariant::BitNetSubNorm && (count_or_zero(&layer.attn_sub_norm_f32)
        != ctx.n_embd || count_or_zero(&layer.ffn_sub_norm_f32) != ctx.n_ff) {
        return Err(
            WillametteError::GgufParse(
                cat3(
                    "prefill_with_cache: BitNet layer ",
                    number.as_str(),
                    " sub-norm dimensions are invalid",
                ),
            ),
        );
    }
    Ok(())
}

/// Checks that a chunk of tokens can go through the model, and gives how many
/// positions come before it.
pub fn validate_prefill_inputs(
    graph: &ModelGraph<'_>,
    cache: &KVCache,
    token_ids: &[u32],
    start_position: u32,
    ctx: &LayerCtx,
) -> (r: Result<usize, WillametteError>)
    requires
        cache.wf(),
    ensures
        match r {
            Ok(n) => prefill_fault(*graph, cache@, token_ids@, start_position, *ctx) is None && n
                == start_position && n + token_ids@.len() <= usize::MAX,
            Err(e) => prefill_fault(*graph, cache@, token_ids@, start_position, *ctx) == Some(e@),
        },
{
    if token_ids.len() == 0 {
        return Err(
            WillametteError::GgufParse(
                owned("prefill_with_cache: token chunk must not be empty"),
            ),
        );
    }
    let prefix = match cache.validate_append(graph.layers.len(), ctx.kv_dim, token_ids.len()) {
        Ok(n) => n,
        Err(e) => {
            return Err(e);
        },
    };
    if prefix as u64 != start_position as u64 {
        let a = decimal(prefix as u64);
        let b = decimal(start_position as u64);
        return Err(
            WillametteError::GgufParse(
                cat4(
                    "prefill_with_cache: cache.position()=",
                    a.as_str(),
                    " != start_position=",
                    b.as_str(),
                ),
            ),
        );
    }
    let last: u64 = (token_ids.len() - 1) as u64;
    if last > 0xffff_ffff {
        return Err(
            WillametteError::GgufParse(owned("prefill_with_cache: token chunk is too large")),
        );
    }
    if last > 0xffff_ffff - start_position as u64 {
        return Err(
            WillametteError::GgufParse(owned("prefill_with_cache: position overflows u32")),
        );
    }
    match find_stray(token_ids, graph.config.vocab_size) {
        Some(token) => {
            let a = decimal(token as u64);
            let b = decimal(graph.config.vocab_size as u64);
            return Err(
                WillametteError::GgufParse(
                    cat4(
                        "prefill_with_cache: token_id ",
                        a.as_str(),
                        " out of vocab range ",
                        b.as_str(),
                    ),
                ),
            );
        },
        None => {},
    }
    if graph.output_norm_f32.len() != ctx.n_embd {
        let a = decimal(graph.output_norm_f32.len() as u64);
        let b = decimal(ctx.n_embd as u64);
        return Err(
            WillametteError::GgufParse(
                cat4(
                    "prefill_with_cache: output norm length ",
                    a.as_str(),
                    " != embedding length ",
                    b.as_str(),
                ),
            ),
        );
    }
    let mut i: usize = 0;
    while i < graph.layers.len()
        invariant
            i <= graph.layers@.len(),
            layers_fault(graph.layers@, i as int, *ctx) is None,
            prefill_fault(*graph, cache@, token_ids@, start_position, *ctx) == layers_fault(
                graph.layers@,
                graph.layers@.len() as int,
                *ctx,
            ),
        decreases graph.layers.len() - i,
    {
        match validate_layer(&graph.layers[i], i, ctx) {
            Ok(_) => {},
            Err(e) => {
                proof {
                    lemma_layers_stay(graph.layers@, i + 1, graph.layers@.len() as int, *ctx);
                }
                return Err(e);
            },
        }
        i = i + 1;
    }
    Ok(prefix)
}

/// All numbers are finite.
pub open spec fn all_finite(bits: Seq<u32>) -> bool {
    forall|i: int| 0 <= i < bits.len() ==> finite_bits(#[trigger] bits[i])
}

/// Whether all numbers are finite.
pub fn are_finite(bits: &[u32]) -> (b: bool)
    ensures
        b == all_finite(bits@),
{
    let n: usize = bits.len();
    let mut i: usize = 0;
    while i < n
        invariant
            i <= n,
            n == bits@.len(),
            forall|k: int| 0 <= k < i ==> finite_bits(#[trigger] bits@[k]),
        decreases n - i,
    {
        if !is_finite_bits(bits[i]) {
            proof {
                assert(!finite_bits(bits@[i as int]));
            }
            return false;
        }
        i = i + 1;
    }
    true
}

/// Checks the hidden state behind a layer, given as bits.
pub fn check_finite_hidden(hidden: &[u32], layer_idx: u32) -> (r: Result<(), WillametteError>)
    ensures
        match r {
            Ok(_) => all_finite(hidden@),
            Err(e) => !all_finite(hidden@) && e@ == Fault::GgufParse(
                "forward_with_cache: non-finite hidden after layer "@ + dec(layer_idx as int),
            ),
        },
{
    if are_finite(hidden) {
        return Ok(());
    }
    let a = decimal(layer_idx as u64);
    Err(
        WillametteError::GgufParse(
            cat2("forward_with_cache: non-finite hidden after layer ", a.as_str()),
        ),
    )
}

/// Checks the final hidden state, given as bits.
pub fn check_finite_output(output: &[u32]) -> (r: Result<(), WillametteError>)
    ensures
        match r {
            Ok(_) => all_finite(output@),
            Err(e) => !all_finite(output@) && e@ == Fault::GgufParse(
                "prefill_with_cache: non-finite final hidden"@,
            ),
        },
{
    if are_finite(output) {
        return Ok(());
    }
    Err(WillametteError::GgufParse(owned("prefill_with_cache: non-finite final hidden")))
}

} // verus!
