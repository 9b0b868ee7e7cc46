//! A pass over tokens whose keys and values go into a cache: how it starts, and
//! how it ends.

use crate::error::{Fault, WillametteError};
use crate::model::architecture::ForwardVariant;
use crate::model::cached_forward::{
    build_layer_ctx, prefill_fault, step_fault, validate_cache_inputs, validate_prefill_inputs,
    LayerCtx,
};
use crate::model::config::{first, ModelConfig};
use crate::model::graph::ModelGraph;
use crate::model::kv_cache::{
    appending_extends, cutting_back_undoes_appending, CacheState, KVCache, Pair,
};
use crate::model::primitives::{gqa_fault, heads_fit, AttentionShape};
use crate::model::schedule::{
    appends, lemma_appends_push, pass_steps, plan_pass, steps_append_within_the_layers,
    tokens_are_appended_once, Step,
};
use vstd::prelude::*;

verus! {

/// A pass that was accepted.
#[derive(Debug)]
pub struct CachedPass {
    /// The widths of the model.
    pub ctx: LayerCtx,
    /// What is to be done, in order.
    pub steps: Vec<Step>,
    /// How many positions each layer of the cache held before.
    pub mark: Vec<usize>,
}

/// The widths of a model.
pub open spec fn ctx_of(cfg: ModelConfig, variant: ForwardVariant) -> LayerCtx {
    LayerCtx {
        variant,
        n_embd: cfg.embedding_length as usize,
        kv_dim: cfg.kv_dim as usize,
        n_ff: cfg.feed_forward_length as usize,
        head_dim: cfg.head_dim as usize,
        n_rot: cfg.rope_dimension_count as usize,
        freq_base: cfg.rope_freq_base,
        eps: cfg.layer_norm_rms_epsilon,
        n_heads: cfg.head_count as usize,
        n_heads_kv: cfg.head_count_kv,
        shape: AttentionShape {
            n_heads: cfg.head_count,
            n_kv_heads: cfg.head_count_kv,
            head_dim: cfg.head_dim,
            group_size: cfg.head_count / cfg.head_count_kv,
            q_per_token_dim: (cfg.head_count * cfg.head_dim) as u32,
            kv_per_token_dim: (cfg.head_count_kv * cfg.head_dim) as u32,
        },
    }
}

/// Why one token cannot go through the model next.
pub open spec fn forward_refusal(
    graph: ModelGraph<'_>,
    cache: CacheState,
    token: u32,
    position: u32,
) -> Option<Fault> {
    first(
        gqa_fault(graph.config.head_count as int, graph.config.head_count_kv as int),
        step_fault(
            cache,
            graph.config.kv_dim as int,
            graph.layers@.len() as int,
            graph.config.vocab_size,
            token,
            position,
        ),
    )
}

/// Why a chunk of tokens cannot go through the model next.
pub open spec fn prefill_refusal(
    graph: ModelGraph<'_>,
    cache: CacheState,
    ids: Seq<u32>,
    start: u32,
) -> Option<Fault> {
    first(
        gqa_fault(graph.config.head_count as int, graph.config.head_count_kv as int),
        prefill_fault(graph, cache, ids, start, ctx_of(graph.config, graph.forward_variant)),
    )
}

impl CachedPass {
    /// How many positions each layer of the cache held before.
    pub open spec fn lengths(&self) -> Seq<nat> {
        self.mark@.map_values(|n: usize| n as nat)
    }

    /// The pass takes `tokens` tokens through a model, behind what a cache holds.
    pub open spec fn covers(
        &self,
        graph: ModelGraph<'_>,
        cache: CacheState,
        tokens: int,
        check_output: bool,
    ) -> bool {
        &&& self.ctx == ctx_of(graph.config, graph.forward_variant)
        &&& self.lengths() == cache.lengths()
        &&& self.steps@ == pass_steps(
            graph.layers@.len() as int,
            tokens,
            cache.position(),
            graph.forward_variant == ForwardVariant::BitNetSubNorm,
            check_output,
        )
    }

    /// Ends the pass. Where its steps failed, every layer of the cache goes back to
    /// what it held before the pass, and the output is empty.
    pub fn finish<T, E>(
        &self,
        cache: &mut KVCache,
        output: &mut Vec<T>,
        outcome: Result<(), E>,
    ) -> (r: Result<(), E>)
        requires
            old(cache).wf(),
        ensures
            final(cache).wf(),
            r == outcome,
            match outcome {
                Ok(_) => final(cache)@ == old(cache)@ && final(output)@ == old(output)@,
                Err(_) => final(cache)@ == old(cache)@.cut_back(self.lengths())
                    && final(output)@ == Seq::<T>::empty(),
            },
    {
        match outcome {
            Ok(done) => Ok(done),
            Err(e) => {
                cache.rollback(&self.mark);
                output.clear();
                Err(e)
            },
        }
    }
}

/// Starts a pass over one token. Nothing is done to the cache, and the output is
/// empty whether the pass is accepted or not.
pub fn begin_forward<T>(
    graph: &ModelGraph<'_>,
    cache: &KVCache,
    token_id: u32,
    position: u32,
    output: &mut Vec<T>,
) -> (r: Result<CachedPass, WillametteError>)
    requires
        cache.wf(),
        heads_fit(
            graph.config.head_count as int,
            graph.config.head_count_kv as int,
            graph.config.head_dim as int,
        ),
        position < usize::MAX,
    ensures
        final(output)@ == Seq::<T>::empty(),
        match r {
            Ok(pass) => forward_refusal(*graph, cache@, token_id, position) is None && pass.covers(
                *graph,
                cache@,
                1,
                false,
            ),
            Err(e) => forward_refusal(*graph, cache@, token_id, position) == Some(e@),
        },
{
    output.clear();
    let ctx = match build_layer_ctx(&graph.config, graph.forward_variant) {
        Ok(ctx) => ctx,
        Err(e) => {
            return Err(e);
        },
    };
    match validate_cache_inputs(graph, cache, token_id, position, ctx.kv_dim) {
        Ok(_) => {},
        Err(e) => {
            return Err(e);
        },
    }
    let steps = plan_pass(
        graph.layers.len(),
        1,
        position as usize,
        graph.forward_variant == ForwardVariant::BitNetSubNorm,
        false,
    );
    Ok(CachedPass { ctx, steps, mark: cache.checkpoint() })
}

/// Starts a pass over a chunk of tokens. Nothing is done to the cache, and the
/// output is empty whether the pass is accepted or not.
pub fn begin_prefill<T>(
    graph: &ModelGraph<'_>,
    cache: &KVCache,
    token_ids: &[u32],
    start_position: u32,
    output: &mut Vec<T>,
) -> (r: Result<CachedPass, WillametteError>)
    requires
        cache.wf(),
        heads_fit(
            graph.config.head_count as int,
            graph.config.head_count_kv as int,
            graph.config.head_dim as int,
        ),
    ensures
        final(output)@ == Seq::<T>::empty(),
        match r {
            Ok(pass) => prefill_refusal(*graph, cache@, token_ids@, start_position) is None
                && pass.covers(*graph, cache@, token_ids@.len() as int, true),
            Err(e) => prefill_refusal(*graph, cache@, token_ids@, start_position) == Some(e@),
        },
{
    output.clear();
    let ctx = match build_layer_ctx(&graph.config, graph.forward_variant) {
        Ok(ctx) => ctx,
        Err(e) => {
            return Err(e);
        },
    };
    assert(ctx == ctx_of(graph.config, graph.forward_variant));
    let prefix = match validate_prefill_inputs(graph, cache, token_ids, start_position, &ctx) {
        Ok(n) => n,
        Err(e) => {
            return Err(e);
        },
    };
    let steps = plan_pass(
        graph.layers.len(),
        token_ids.len(),
        prefix,
        graph.forward_variant == ForwardVariant::BitNetSubNorm,
        true,
    );
    Ok(CachedPass { ctx, steps, mark: cache.checkpoint() })
}

/// What a cache holds after the first `n` steps of a pass, where each step that
/// stores something stores the pair that `pairs` gives for it.
pub open spec fn after_steps(
    cache: CacheState,
    steps: Seq<Step>,
    pairs: spec_fn(int) -> Pair,
    n: int,
) -> CacheState
    decreases n,
{
    if n <= 0 {
        cache
    } else {
        let earlier = after_steps(cache, steps, pairs, n - 1);
        match steps[n - 1] {
            Step::Append { layer, .. } => earlier.with(layer as int, pairs(n - 1)),
            _ => earlier,
        }
    }
}

/// The steps of a pass keep what the cache held, and add to each layer as many
/// pairs as they store there.
proof fn lemma_steps_extend(
    cache: CacheState,
    steps: Seq<Step>,
    pairs: spec_fn(int) -> Pair,
    n: int,
)
    requires
        0 <= n <= steps.len(),
        forall|i: int|
            0 <= i < steps.len() ==> ((#[trigger] steps[i]) matches Step::Append { layer, .. }
                ==> layer < cache.layers.len()),
    ensures
        after_steps(cache, steps, pairs, n).extends(cache),
        forall|l: int|
            0 <= l < cache.layers.len() ==> (#[trigger] after_steps(
                cache,
                steps,
                pairs,
                n,
            ).layers[l]).len() == cache.layers[l].len() + appends(steps.take(n), l),
    decreases n,
{
    if n <= 0 {
        assert forall|l: int| 0 <= l < cache.layers.len() implies (#[trigger] cache.layers[l]).take(
            cache.layers[l].len() as int,
        ) == cache.layers[l] by {
            assert(cache.layers[l].take(cache.layers[l].len() as int) =~= cache.layers[l]);
        }
    } else {
        lemma_steps_extend(cache, steps, pairs, n - 1);
        let earlier = after_steps(cache, steps, pairs, n - 1);
        let step = steps[n - 1];
        assert(steps.take(n) =~= steps.take(n - 1).push(step));
        if let Step::Append { layer, .. } = step {
            appending_extends(cache, earlier, layer as int, pairs(n - 1));
        }
        assert forall|l: int| 0 <= l < cache.layers.len() implies (#[trigger] after_steps(
            cache,
            steps,
            pairs,
            n,
        ).layers[l]).len() == cache.layers[l].len() + appends(steps.take(n), l) by {
            lemma_appends_push(steps.take(n - 1), step, l);
            assert(earlier.layers[l].len() == cache.layers[l].len() + appends(
                steps.take(n - 1),
                l,
            ));
        }
    }
}

/// A pass that fails after any number of its steps leaves the cache as it was,
/// whatever those steps stored.
pub proof fn failed_passes_leave_no_trace(
    pass: CachedPass,
    graph: ModelGraph<'_>,
    cache: CacheState,
    tokens: int,
    check_output: bool,
    pairs: spec_fn(int) -> Pair,
    n: int,
)
    requires
        pass.covers(graph, cache, tokens, check_output),
        graph.layers@.len() == cache.layers.len(),
        0 <= tokens,
        cache.position() + tokens <= usize::MAX,
        0 <= n <= pass.steps@.len(),
    ensures
        after_steps(cache, pass.steps@, pairs, n).cut_back(pass.lengths()) == cache,
{
    assert(graph.layers@.len() == graph.layers.len());
    steps_append_within_the_layers(
        graph.layers@.len() as int,
        tokens,
        cache.position(),
        graph.forward_variant == ForwardVariant::BitNetSubNorm,
        check_output,
    );
    lemma_steps_extend(cache, pass.steps@, pairs, n);
    cutting_back_undoes_appending(cache, after_steps(cache, pass.steps@, pairs, n));
}

/// A pass that goes through keeps what every layer held, and adds one position
/// for each token.
pub proof fn complete_passes_fill_every_layer(
    pass: CachedPass,
    graph: ModelGraph<'_>,
    cache: CacheState,
    tokens: int,
    check_output: bool,
    pairs: spec_fn(int) -> Pair,
)
    requires
        pass.covers(graph, cache, tokens, check_output),
        graph.layers@.len() == cache.layers.len(),
        0 <= tokens,
        cache.position() + tokens <= usize::MAX,
    ensures
        ({
            let after = after_steps(cache, pass.steps@, pairs, pass.steps@.len() as int);
            &&& after.extends(cache)
            &&& forall|l: int|
                0 <= l < cache.layers.len() ==> (#[trigger] after.layers[l]).len()
                    == cache.layers[l].len() + tokens
        }),
{
    let layers = graph.layers.len() as int;
    let sub_norms = graph.forward_variant == ForwardVariant::BitNetSubNorm;
    let n = pass.steps@.len() as int;
    steps_append_within_the_layers(layers, tokens, cache.position(), sub_norms, check_output);
    lemma_steps_extend(cache, pass.steps@, pairs, n);
    let after = after_steps(cache, pass.steps@, pairs, n);
    assert(pass.steps@.take(n) =~= pass.steps@);
    assert forall|l: int| 0 <= l < cache.layers.len() implies (#[trigger] after.layers[l]).len()
        == cache.layers[l].len() + tokens by {
        tokens_are_appended_once(layers, tokens, cache.position(), sub_norms, check_output, l);
    }
}

} // verus!
