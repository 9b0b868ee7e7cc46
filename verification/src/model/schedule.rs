//! The order in which a forward pass does its work. What each step computes is
//! arithmetic on floating-point numbers; what is decided here is which step comes
//! when, and what it may read.

use vstd::prelude::*;

verus! {

/// One step of a forward pass that stores its keys and values in a cache.
#[derive(Debug, Clone, Copy, PartialEq, Eq, Structural)]
pub enum Step {
    /// The embedding row of a token becomes its hidden state.
    Embed { token: usize },
    /// The hidden state is normalised for attention.
    AttnNorm { layer: usize, token: usize },
    /// Queries, keys and values of all tokens are projected.
    ProjectQkv { layer: usize },
    /// Query and key of a token are rotated for its position.
    Rope { layer: usize, token: usize, position: usize },
    /// Key and value of a token go into the cache.
    Append { layer: usize, token: usize },
    /// The whole layer of the cache is read.
    ReadCache { layer: usize },
    /// A token attends to the first `window` positions.
    Attend { layer: usize, token: usize, window: usize },
    /// What attention gave is normalised.
    AttnSubNorm { layer: usize, token: usize },
    /// What attention gave is projected, for all tokens.
    ProjectAttnOutput { layer: usize },
    /// What attention gave is added to the hidden state.
    AddAttn { layer: usize, token: usize },
    /// The hidden state is normalised for the feed-forward half.
    FfnNorm { layer: usize, token: usize },
    /// Gate and up are projected, for all tokens.
    ProjectGateUp { layer: usize },
    /// Gate values pass through the activation and are multiplied with up values.
    Activate { layer: usize, token: usize },
    /// The product is normalised.
    FfnSubNorm { layer: usize, token: usize },
    /// The product is projected down, for all tokens.
    ProjectDown { layer: usize },
    /// What the feed-forward half gave is added to the hidden state.
    AddFfn { layer: usize, token: usize },
    /// The hidden state is checked for numbers that are not finite.
    CheckHidden { layer: usize, token: usize },
    /// A layer is through.
    LayerDone { layer: usize },
    /// The hidden state of the last token is normalised.
    OutputNorm,
    /// The result is checked for numbers that are not finite.
    CheckOutput,
}

/// A stretch of a layer in which the tokens are handled one by one.
#[derive(Debug, Clone, Copy, PartialEq, Eq, Structural)]
pub enum Phase {
    Normalise,
    Store,
    Attend,
    AddAttention,
    Activate,
    AddFeedForward,
}

/// What a phase does with one token. `prefix` positions were in the cache before.
pub open spec fn phase_steps(
    phase: Phase,
    layer: int,
    token: int,
    prefix: int,
    sub_norms: bool,
) -> Seq<Step> {
    let l = layer as usize;
    let t = token as usize;
    match phase {
        Phase::Normalise => seq![Step::AttnNorm { layer: l, token: t }],
        Phase::Store => seq![
            Step::Rope { layer: l, token: t, position: (prefix + token) as usize },
            Step::Append { layer: l, token: t },
        ],
        Phase::Attend => {
            let attend = Step::Attend { layer: l, token: t, window: (prefix + token + 1) as usize };
            if sub_norms {
                seq![attend, Step::AttnSubNorm { layer: l, token: t }]
            } else {
                seq![attend]
            }
        },
        Phase::AddAttention => seq![
            Step::AddAttn { layer: l, token: t },
            Step::FfnNorm { layer: l, token: t },
        ],
        Phase::Activate => if sub_norms {
            seq![Step::Activate { layer: l, token: t }, Step::FfnSubNorm { layer: l, token: t }]
        } else {
            seq![Step::Activate { layer: l, token: t }]
        },
        Phase::AddFeedForward => seq![
            Step::AddFfn { layer: l, token: t },
            Step::CheckHidden { layer: l, token: t },
        ],
    }
}

/// What a phase does with the first `n` tokens.
pub open spec fn token_steps(phase: Phase, layer: int, n: int, prefix: int, sub_norms: bool) -> Seq<
    Step,
>
    decreases n,
{
    if n <= 0 {
        Seq::empty()
    } else {
        token_steps(phase, layer, n - 1, prefix, sub_norms) + phase_steps(
            phase,
            layer,
            n - 1,
            prefix,
            sub_norms,
        )
    }
}

/// What a layer does up to and with its last write to the cache.
pub open spec fn storing_steps(layer: int, n: int, prefix: int, sub_norms: bool) -> Seq<Step> {
    token_steps(Phase::Normalise, layer, n, prefix, sub_norms).push(
        Step::ProjectQkv { layer: layer as usize },
    ) + token_steps(Phase::Store, layer, n, prefix, sub_norms)
}

/// What a layer does once it has read the cache.
pub open spec fn mixing_steps(layer: int, n: int, prefix: int, sub_norms: bool) -> Seq<Step> {
    let l = layer as usize;
    let attended = token_steps(Phase::Attend, layer, n, prefix, sub_norms).push(
        Step::ProjectAttnOutput { layer: l },
    );
    let added = (attended + token_steps(Phase::AddAttention, layer, n, prefix, sub_norms)).push(
        Step::ProjectGateUp { layer: l },
    );
    let activated = (added + token_steps(Phase::Activate, layer, n, prefix, sub_norms)).push(
        Step::ProjectDown { layer: l },
    );
    (activated + token_steps(Phase::AddFeedForward, layer, n, prefix, sub_norms)).push(
        Step::LayerDone { layer: l },
    )
}

/// What one layer does with a chunk of `n` tokens.
pub open spec fn layer_steps(layer: int, n: int, prefix: int, sub_norms: bool) -> Seq<Step> {
    storing_steps(layer, n, prefix, sub_norms).push(Step::ReadCache { layer: layer as usize })
        + mixing_steps(layer, n, prefix, sub_norms)
}

/// What the first `layers` layers do.
pub open spec fn layers_steps(layers: int, n: int, prefix: int, sub_norms: bool) -> Seq<Step>
    decreases layers,
{
    if layers <= 0 {
        Seq::empty()
    } else {
        layers_steps(layers - 1, n, prefix, sub_norms) + layer_steps(
            layers - 1,
            n,
            prefix,
            sub_norms,
        )
    }
}

/// The embeddings of the first `n` tokens.
pub open spec fn embed_steps(n: int) -> Seq<Step> {
    Seq::new(n as nat, |t: int| Step::Embed { token: t as usize })
}

/// A whole pass over a chunk of `n` tokens. The result is checked where
/// `check_output` is set.
pub open spec fn pass_steps(
    layers: int,
    n: int,
    prefix: int,
    sub_norms: bool,
    check_output: bool,
) -> Seq<Step> {
    let normed = (embed_steps(n) + layers_steps(layers, n, prefix, sub_norms)).push(
        Step::OutputNorm,
    );
    if check_output {
        normed.push(Step::CheckOutput)
    } else {
        normed
    }
}

/// Adds what a phase does with all tokens.
fn push_phase(
    out: &mut Vec<Step>,
    phase: Phase,
    layer: usize,
    n: usize,
    prefix: usize,
    sub_norms: bool,
)
    requires
        prefix + n <= usize::MAX,
    ensures
        final(out)@ == old(out)@ + token_steps(
            phase,
            layer as int,
            n as int,
            prefix as int,
            sub_norms,
        ),
{
    let ghost before = out@;
    let mut token: usize = 0;
    proof {
        assert(before =~= before + Seq::<Step>::empty());
    }
    while token < n
        invariant
            token <= n,
            prefix + n <= usize::MAX,
            out@ == before + token_steps(
                phase,
                layer as int,
                token as int,
                prefix as int,
                sub_norms,
            ),
        decreases n - token,
    {
        let ghost done = out@;
        match phase {
            Phase::Normalise => {
                out.push(Step::AttnNorm { layer, token });
            },
            Phase::Store => {
                out.push(Step::Rope { layer, token, position: prefix + token });
                out.push(Step::Append { layer, token });
            },
            Phase::Attend => {
                out.push(Step::Attend { layer, token, window: prefix + token + 1 });
                if sub_norms {
                    out.push(Step::AttnSubNorm { layer, token });
                }
            },
            Phase::AddAttention => {
                out.push(Step::AddAttn { layer, token });
                out.push(Step::FfnNorm { layer, token });
            },
            Phase::Activate => {
                out.push(Step::Activate { layer, token });
                if sub_norms {
                    out.push(Step::FfnSubNorm { layer, token });
                }
            },
            Phase::AddFeedForward => {
                out.push(Step::AddFfn { layer, token });
                out.push(Step::CheckHidden { layer, token });
            },
        }
        proof {
            let last = phase_steps(phase, layer as int, token as int, prefix as int, sub_norms);
            assert(out@ =~= done + last);
            let earlier = token_steps(
                phase,
                layer as int,
                token as int,
                prefix as int,
                sub_norms,
            );
            assert((before + earlier) + last =~= before + (earlier + last));
        }
        token = token + 1;
    }
}

/// What is added behind an addition is added to the addition.
proof fn lemma_add_to_addition(before: Seq<Step>, part: Seq<Step>, more: Seq<Step>)
    ensures
        (before + part) + more == before + (part + more),
{
    assert((before + part) + more =~= before + (part + more));
}

/// A step pushed behind an addition is pushed onto the addition.
proof fn lemma_push_to_addition(before: Seq<Step>, part: Seq<Step>, step: Step)
    ensures
        (before + part).push(step) == before + part.push(step),
{
    assert((before + part).push(step) =~= before + part.push(step));
}

/// Adds what one layer does before it reads the cache.
fn push_storing(out: &mut Vec<Step>, layer: usize, n: usize, prefix: usize, sub_norms: bool)
    requires
        prefix + n <= usize::MAX,
    ensures
        final(out)@ == old(out)@ + storing_steps(layer as int, n as int, prefix as int, sub_norms),
{
    let ghost before = out@;
    let ghost (l, k, p) = (layer as int, n as int, prefix as int);
    push_phase(out, Phase::Normalise, layer, n, prefix, sub_norms);
    out.push(Step::ProjectQkv { layer });
    let ghost normed = token_steps(Phase::Normalise, l, k, p, sub_norms);
    proof {
        lemma_push_to_addition(before, normed, Step::ProjectQkv { layer });
    }
    push_phase(out, Phase::Store, layer, n, prefix, sub_norms);
    proof {
        lemma_add_to_addition(
            before,
            normed.push(Step::ProjectQkv { layer }),
            token_steps(Phase::Store, l, k, p, sub_norms),
        );
    }
}

/// Adds what one layer does once it has read the cache.
fn push_mixing(out: &mut Vec<Step>, layer: usize, n: usize, prefix: usize, sub_norms: bool)
    requires
        prefix + n <= usize::MAX,
    ensures
        final(out)@ == old(out)@ + mixing_steps(layer as int, n as int, prefix as int, sub_norms),
{
    let ghost before = out@;
    let ghost (l, k, p) = (layer as int, n as int, prefix as int);
    push_phase(out, Phase::Attend, layer, n, prefix, sub_norms);
    out.push(Step::ProjectAttnOutput { layer });
    let ghost a = token_steps(Phase::Attend, l, k, p, sub_norms);
    let ghost a1 = a.push(Step::ProjectAttnOutput { layer });
    proof {
        lemma_push_to_addition(before, a, Step::ProjectAttnOutput { layer });
    }
    push_phase(out, Phase::AddAttention, layer, n, prefix, sub_norms);
    out.push(Step::ProjectGateUp { layer });
    let ghost b = token_steps(Phase::AddAttention, l, k, p, sub_norms);
    let ghost b1 = (a1 + b).push(Step::ProjectGateUp { layer });
    proof {
        lemma_add_to_addition(before, a1, b);
        lemma_push_to_addition(before, a1 + b, Step::ProjectGateUp { layer });
    }
    push_phase(out, Phase::Activate, layer, n, prefix, sub_norms);
    out.push(Step::ProjectDown { layer });
    let ghost c = token_steps(Phase::Activate, l, k, p, sub_norms);
    let ghost c1 = (b1 + c).push(Step::ProjectDown { layer });
    proof {
        lemma_add_to_addition(before, b1, c);
        lemma_push_to_addition(before, b1 + c, Step::ProjectDown { layer });
    }
    push_phase(out, Phase::AddFeedForward, layer, n, prefix, sub_norms);
    out.push(Step::LayerDone { layer });
    proof {
        let d = token_steps(Phase::AddFeedForward, l, k, p, sub_norms);
        lemma_add_to_addition(before, c1, d);
        lemma_push_to_addition(before, c1 + d, Step::LayerDone { layer });
    }
}

/// Adds what one layer does.
fn push_layer(out: &mut Vec<Step>, layer: usize, n: usize, prefix: usize, sub_norms: bool)
    requires
        prefix + n <= usize::MAX,
    ensures
        final(out)@ == old(out)@ + layer_steps(layer as int, n as int, prefix as int, sub_norms),
{
    let ghost before = out@;
    let ghost storing = storing_steps(layer as int, n as int, prefix as int, sub_norms);
    push_storing(out, layer, n, prefix, sub_norms);
    out.push(Step::ReadCache { layer });
    proof {
        lemma_push_to_addition(before, storing, Step::ReadCache { layer });
    }
    push_mixing(out, layer, n, prefix, sub_norms);
    proof {
        lemma_add_to_addition(
            before,
            storing.push(Step::ReadCache { layer }),
            mixing_steps(layer as int, n as int, prefix as int, sub_norms),
        );
    }
}

/// The steps of a pass over a chunk of tokens behind `prefix` cached positions.
pub fn plan_pass(
    layers: usize,
    tokens: usize,
    prefix: usize,
    sub_norms: bool,
    check_output: bool,
) -> (steps: Vec<Step>)
    requires
        prefix + tokens <= usize::MAX,
    ensures
        steps@ == pass_steps(
            layers as int,
            tokens as int,
            prefix as int,
            sub_norms,
            check_output,
        ),
{
    let mut out: Vec<Step> = Vec::new();
    let mut token: usize = 0;
    while token < tokens
        invariant
            token <= tokens,
            out@ =~= embed_steps(token as int),
        decreases tokens - token,
    {
        out.push(Step::Embed { token });
        token = token + 1;
    }
    let mut layer: usize = 0;
    proof {
        assert(out@ =~= embed_steps(tokens as int) + Seq::<Step>::empty());
    }
    while layer < layers
        invariant
            layer <= layers,
            prefix + tokens <= usize::MAX,
            out@ == embed_steps(tokens as int) + layers_steps(
                layer as int,
                tokens as int,
                prefix as int,
                sub_norms,
            ),
        decreases layers - layer,
    {
        let ghost done = out@;
        push_layer(&mut out, layer, tokens, prefix, sub_norms);
        proof {
            let last = layer_steps(layer as int, tokens as int, prefix as int, sub_norms);
            let earlier = layers_steps(layer as int, tokens as int, prefix as int, sub_norms);
            assert((embed_steps(tokens as int) + earlier) + last =~= embed_steps(tokens as int) + (
            earlier + last));
        }
        layer = layer + 1;
    }
    out.push(Step::OutputNorm);
    if check_output {
        out.push(Step::CheckOutput);
    }
    out
}

/// The layer at which a step works: -1 for what comes before the layers, and
/// `layers` for what comes behind them.
pub open spec fn layer_of(step: Step, layers: int) -> int {
    match step {
        Step::Embed { .. } => -1,
        Step::AttnNorm { layer, .. } => layer as int,
        Step::ProjectQkv { layer } => layer as int,
        Step::Rope { layer, .. } => layer as int,
        Step::Append { layer, .. } => layer as int,
        Step::ReadCache { layer } => layer as int,
        Step::Attend { layer, .. } => layer as int,
        Step::AttnSubNorm { layer, .. } => layer as int,
        Step::ProjectAttnOutput { layer } => layer as int,
        Step::AddAttn { layer, .. } => layer as int,
        Step::FfnNorm { layer, .. } => layer as int,
        Step::ProjectGateUp { layer } => layer as int,
        Step::Activate { layer, .. } => layer as int,
        Step::FfnSubNorm { layer, .. } => layer as int,
        Step::ProjectDown { layer } => layer as int,
        Step::AddFfn { layer, .. } => layer as int,
        Step::CheckHidden { layer, .. } => layer as int,
        Step::LayerDone { layer } => layer as int,
        Step::OutputNorm => layers,
        Step::CheckOutput => layers,
    }
}

/// An attention step stays within the past of its token: the positions that
/// were cached before, the tokens of the chunk before it, and itself.
pub open spec fn is_causal(step: Step, n: int, prefix: int) -> bool {
    step matches Step::Attend { token, window, .. } ==> token < n && window == prefix + token + 1
}

/// A rotation is for the position at which the token will stand in the cache.
pub open spec fn is_in_place(step: Step, n: int, prefix: int) -> bool {
    step matches Step::Rope { token, position, .. } ==> token < n && position == prefix + token
}

/// What the steps of a layer have in common.
spec fn belongs(step: Step, layer: int, layers: int, n: int, prefix: int) -> bool {
    &&& layer_of(step, layers) == layer
    &&& is_causal(step, n, prefix)
    &&& is_in_place(step, n, prefix)
}

proof fn lemma_tokens_belong(
    phase: Phase,
    layer: int,
    k: int,
    layers: int,
    n: int,
    prefix: int,
    sub_norms: bool,
)
    requires
        0 <= layer < layers <= usize::MAX,
        k <= n,
        0 <= prefix,
        prefix + n <= usize::MAX,
    ensures
        forall|i: int|
            0 <= i < token_steps(phase, layer, k, prefix, sub_norms).len() ==> belongs(
                #[trigger] token_steps(phase, layer, k, prefix, sub_norms)[i],
                layer,
                layers,
                n,
                prefix,
            ),
    decreases k,
{
    if k > 0 {
        lemma_tokens_belong(phase, layer, k - 1, layers, n, prefix, sub_norms);
        let earlier = token_steps(phase, layer, k - 1, prefix, sub_norms);
        let last = phase_steps(phase, layer, k - 1, prefix, sub_norms);
        let all = token_steps(phase, layer, k, prefix, sub_norms);
        assert forall|i: int| 0 <= i < all.len() implies belongs(
            #[trigger] all[i],
            layer,
            layers,
            n,
            prefix,
        ) by {
            if i < earlier.len() {
                assert(all[i] == earlier[i]);
            } else {
                assert(all[i] == last[i - earlier.len()]);
            }
        }
    }
}

proof fn lemma_layer_belongs(layer: int, layers: int, n: int, prefix: int, sub_norms: bool)
    requires
        0 <= layer < layers <= usize::MAX,
        0 <= n,
        0 <= prefix,
        prefix + n <= usize::MAX,
    ensures
        forall|i: int|
            0 <= i < layer_steps(layer, n, prefix, sub_norms).len() ==> belongs(
                #[trigger] layer_steps(layer, n, prefix, sub_norms)[i],
                layer,
                layers,
                n,
                prefix,
            ),
{
    lemma_tokens_belong(Phase::Normalise, layer, n, layers, n, prefix, sub_norms);
    lemma_tokens_belong(Phase::Store, layer, n, layers, n, prefix, sub_norms);
    lemma_tokens_belong(Phase::Attend, layer, n, layers, n, prefix, sub_norms);
    lemma_tokens_belong(Phase::AddAttention, layer, n, layers, n, prefix, sub_norms);
    lemma_tokens_belong(Phase::Activate, layer, n, layers, n, prefix, sub_norms);
    lemma_tokens_belong(Phase::AddFeedForward, layer, n, layers, n, prefix, sub_norms);
}

proof fn lemma_layers_belong(k: int, layers: int, n: int, prefix: int, sub_norms: bool)
    requires
        k <= layers <= usize::MAX,
        0 <= n,
        0 <= prefix,
        prefix + n <= usize::MAX,
    ensures
        forall|i: int|
            0 <= i < layers_steps(k, n, prefix, sub_norms).len() ==> {
                let step = #[trigger] layers_steps(k, n, prefix, sub_norms)[i];
                &&& 0 <= layer_of(step, layers) < k
                &&& is_causal(step, n, prefix)
                &&& is_in_place(step, n, prefix)
            },
        forall|i: int, j: int|
            0 <= i <= j < layers_steps(k, n, prefix, sub_norms).len() ==> layer_of(
                #[trigger] layers_steps(k, n, prefix, sub_norms)[i],
                layers,
            ) <= layer_of(#[trigger] layers_steps(k, n, prefix, sub_norms)[j], layers),
    decreases k,
{
    if k > 0 {
        lemma_layers_belong(k - 1, layers, n, prefix, sub_norms);
        lemma_layer_belongs(k - 1, layers, n, prefix, sub_norms);
        let earlier = layers_steps(k - 1, n, prefix, sub_norms);
        let last = layer_steps(k - 1, n, prefix, sub_norms);
        let all = layers_steps(k, n, prefix, sub_norms);
        assert forall|i: int| 0 <= i < all.len() implies {
            let step = #[trigger] all[i];
            &&& 0 <= layer_of(step, layers) < k
            &&& is_causal(step, n, prefix)
            &&& is_in_place(step, n, prefix)
            &&& i < earlier.len() ==> step == earlier[i] && layer_of(step, layers) < k - 1
            &&& i >= earlier.len() ==> layer_of(step, layers) == k - 1
        } by {
            if i < earlier.len() {
                assert(all[i] == earlier[i]);
            } else {
                assert(all[i] == last[i - earlier.len()]);
                assert(belongs(last[i - earlier.len()], k - 1, layers, n, prefix));
            }
        }
        assert forall|i: int, j: int| 0 <= i <= j < all.len() implies layer_of(
            #[trigger] all[i],
            layers,
        ) <= layer_of(#[trigger] all[j], layers) by {
            if j < earlier.len() {
                assert(all[i] == earlier[i] && all[j] == earlier[j]);
            }
        }
    }
}

/// A token attends to itself and to what came before it, never to what comes
/// behind it.
pub proof fn attention_is_causal(
    layers: int,
    n: int,
    prefix: int,
    sub_norms: bool,
    check_output: bool,
    i: int,
)
    requires
        0 <= layers <= usize::MAX,
        0 <= n,
        0 <= prefix,
        prefix + n <= usize::MAX,
        0 <= i < pass_steps(layers, n, prefix, sub_norms, check_output).len(),
    ensures
        is_causal(pass_steps(layers, n, prefix, sub_norms, check_output)[i], n, prefix),
        is_in_place(pass_steps(layers, n, prefix, sub_norms, check_output)[i], n, prefix),
{
    lemma_layers_belong(layers, layers, n, prefix, sub_norms);
    let steps = pass_steps(layers, n, prefix, sub_norms, check_output);
    let middle = layers_steps(layers, n, prefix, sub_norms);
    if n <= i < n + middle.len() {
        assert(steps[i] == middle[i - n]);
    } else if i < n {
        assert(steps[i] == embed_steps(n)[i]);
    }
}

/// The embeddings come first, the layers follow one after the other, and the
/// output comes last.
pub proof fn layers_run_in_order(
    layers: int,
    n: int,
    prefix: int,
    sub_norms: bool,
    check_output: bool,
    i: int,
    j: int,
)
    requires
        0 <= layers <= usize::MAX,
        0 <= n,
        0 <= prefix,
        prefix + n <= usize::MAX,
        0 <= i <= j < pass_steps(layers, n, prefix, sub_norms, check_output).len(),
    ensures
        layer_of(pass_steps(layers, n, prefix, sub_norms, check_output)[i], layers) <= layer_of(
            pass_steps(layers, n, prefix, sub_norms, check_output)[j],
            layers,
        ),
{
    lemma_layers_belong(layers, layers, n, prefix, sub_norms);
    let steps = pass_steps(layers, n, prefix, sub_norms, check_output);
    let middle = layers_steps(layers, n, prefix, sub_norms);
    assert forall|k: int| 0 <= k < steps.len() implies {
        &&& k < n ==> layer_of(#[trigger] steps[k], layers) == -1
        &&& n <= k < n + middle.len() ==> steps[k] == middle[k - n]
        &&& k >= n + middle.len() ==> layer_of(steps[k], layers) == layers
    } by {
        if k < n {
            assert(steps[k] == embed_steps(n)[k]);
        }
    }
    if n <= i < n + middle.len() {
        assert(steps[i] == middle[i - n]);
    }
    if n <= j < n + middle.len() {
        assert(steps[j] == middle[j - n]);
    }
}

/// A step writes to the cache.
pub open spec fn writes(step: Step) -> bool {
    step is Append
}

proof fn lemma_stores(layer: int, k: int, prefix: int, sub_norms: bool, t: int)
    requires
        0 <= layer <= usize::MAX,
        0 <= t < k <= usize::MAX,
    ensures
        exists|i: int|
            0 <= i < token_steps(Phase::Store, layer, k, prefix, sub_norms).len() && #[trigger]
            token_steps(Phase::Store, layer, k, prefix, sub_norms)[i] == (Step::Append {
                layer: layer as usize,
                token: t as usize,
            }),
    decreases k,
{
    let earlier = token_steps(Phase::Store, layer, k - 1, prefix, sub_norms);
    let all = token_steps(Phase::Store, layer, k, prefix, sub_norms);
    if t == k - 1 {
        assert(all[earlier.len() as int + 1] == (Step::Append {
            layer: layer as usize,
            token: t as usize,
        }));
    } else {
        lemma_stores(layer, k - 1, prefix, sub_norms, t);
        let i = choose|i: int|
            0 <= i < earlier.len() && #[trigger] earlier[i] == (Step::Append {
                layer: layer as usize,
                token: t as usize,
            });
        assert(all[i] == earlier[i]);
    }
}

proof fn lemma_writes_nothing(phase: Phase, layer: int, k: int, prefix: int, sub_norms: bool)
    requires
        phase != Phase::Store,
    ensures
        forall|i: int|
            0 <= i < token_steps(phase, layer, k, prefix, sub_norms).len() ==> !writes(
                #[trigger] token_steps(phase, layer, k, prefix, sub_norms)[i],
            ),
    decreases k,
{
    if k > 0 {
        lemma_writes_nothing(phase, layer, k - 1, prefix, sub_norms);
        let earlier = token_steps(phase, layer, k - 1, prefix, sub_norms);
        let all = token_steps(phase, layer, k, prefix, sub_norms);
        assert forall|i: int| 0 <= i < all.len() implies !writes(#[trigger] all[i]) by {
            if i < earlier.len() {
                assert(all[i] == earlier[i]);
            }
        }
    }
}

/// How many of the steps store something in a layer.
pub open spec fn appends(steps: Seq<Step>, layer: int) -> nat
    decreases steps.len(),
{
    if steps.len() == 0 {
        0
    } else {
        appends(steps.drop_last(), layer) + if stores_in(steps.last(), layer) {
            1nat
        } else {
            0nat
        }
    }
}

/// A step stores something in a layer.
pub open spec fn stores_in(step: Step, layer: int) -> bool {
    step matches Step::Append { layer: l, .. } && l == layer
}

/// One more step.
pub(crate) proof fn lemma_appends_push(steps: Seq<Step>, step: Step, layer: int)
    ensures
        appends(steps.push(step), layer) == appends(steps, layer) + if stores_in(step, layer) {
            1nat
        } else {
            0nat
        },
{
    assert(steps.push(step).drop_last() =~= steps);
}

/// Steps count apart.
proof fn lemma_appends_add(a: Seq<Step>, b: Seq<Step>, layer: int)
    ensures
        appends(a + b, layer) == appends(a, layer) + appends(b, layer),
    decreases b.len(),
{
    if b.len() == 0 {
        assert(a + b =~= a);
    } else {
        lemma_appends_add(a, b.drop_last(), layer);
        assert((a + b).drop_last() =~= a + b.drop_last());
    }
}

/// Steps of which none stores anything in a layer.
proof fn lemma_appends_none(steps: Seq<Step>, layer: int)
    requires
        forall|i: int| 0 <= i < steps.len() ==> !stores_in(#[trigger] steps[i], layer),
    ensures
        appends(steps, layer) == 0,
    decreases steps.len(),
{
    if steps.len() > 0 {
        assert forall|i: int| 0 <= i < steps.drop_last().len() implies !stores_in(
            #[trigger] steps.drop_last()[i],
            layer,
        ) by {
            assert(steps.drop_last()[i] == steps[i]);
        }
        lemma_appends_none(steps.drop_last(), layer);
    }
}

/// A layer stores once for each token.
proof fn lemma_store_counts(layer: int, k: int, prefix: int, sub_norms: bool)
    requires
        0 <= layer <= usize::MAX,
        0 <= k,
    ensures
        appends(token_steps(Phase::Store, layer, k, prefix, sub_norms), layer) == k,
    decreases k,
{
    if k > 0 {
        lemma_store_counts(layer, k - 1, prefix, sub_norms);
        let earlier = token_steps(Phase::Store, layer, k - 1, prefix, sub_norms);
        let rope = Step::Rope {
            layer: layer as usize,
            token: (k - 1) as usize,
            position: (prefix + k - 1) as usize,
        };
        let append = Step::Append { layer: layer as usize, token: (k - 1) as usize };
        assert(token_steps(Phase::Store, layer, k, prefix, sub_norms) =~= earlier.push(rope).push(
            append,
        ));
        lemma_appends_push(earlier, rope, layer);
        lemma_appends_push(earlier.push(rope), append, layer);
    }
}

/// One layer stores once for each token.
proof fn lemma_layer_counts(layer: int, n: int, prefix: int, sub_norms: bool)
    requires
        0 <= layer <= usize::MAX,
        0 <= n,
    ensures
        appends(layer_steps(layer, n, prefix, sub_norms), layer) == n,
{
    let l = layer as usize;
    let normed = token_steps(Phase::Normalise, layer, n, prefix, sub_norms);
    let stored = token_steps(Phase::Store, layer, n, prefix, sub_norms);
    let mixed = mixing_steps(layer, n, prefix, sub_norms);
    lemma_writes_nothing(Phase::Normalise, layer, n, prefix, sub_norms);
    lemma_writes_nothing(Phase::Attend, layer, n, prefix, sub_norms);
    lemma_writes_nothing(Phase::AddAttention, layer, n, prefix, sub_norms);
    lemma_writes_nothing(Phase::Activate, layer, n, prefix, sub_norms);
    lemma_writes_nothing(Phase::AddFeedForward, layer, n, prefix, sub_norms);
    lemma_store_counts(layer, n, prefix, sub_norms);
    lemma_appends_none(normed, layer);
    lemma_appends_push(normed, Step::ProjectQkv { layer: l }, layer);
    lemma_appends_add(normed.push(Step::ProjectQkv { layer: l }), stored, layer);
    lemma_appends_push(
        storing_steps(layer, n, prefix, sub_norms),
        Step::ReadCache { layer: l },
        layer,
    );
    let a = token_steps(Phase::Attend, layer, n, prefix, sub_norms);
    let b = token_steps(Phase::AddAttention, layer, n, prefix, sub_norms);
    let c = token_steps(Phase::Activate, layer, n, prefix, sub_norms);
    let d = token_steps(Phase::AddFeedForward, layer, n, prefix, sub_norms);
    let a1 = a.push(Step::ProjectAttnOutput { layer: l });
    let b1 = (a1 + b).push(Step::ProjectGateUp { layer: l });
    let c1 = (b1 + c).push(Step::ProjectDown { layer: l });
    lemma_appends_none(a, layer);
    lemma_appends_none(b, layer);
    lemma_appends_none(c, layer);
    lemma_appends_none(d, layer);
    lemma_appends_push(a, Step::ProjectAttnOutput { layer: l }, layer);
    lemma_appends_add(a1, b, layer);
    lemma_appends_push(a1 + b, Step::ProjectGateUp { layer: l }, layer);
    lemma_appends_add(b1, c, layer);
    lemma_appends_push(b1 + c, Step::ProjectDown { layer: l }, layer);
    lemma_appends_add(c1, d, layer);
    lemma_appends_push(c1 + d, Step::LayerDone { layer: l }, layer);
    lemma_appends_add(
        storing_steps(layer, n, prefix, sub_norms).push(Step::ReadCache { layer: l }),
        mixed,
        layer,
    );
}

/// The first `k` layers store once for each token in each of them.
proof fn lemma_layers_count(
    k: int,
    layers: int,
    n: int,
    prefix: int,
    sub_norms: bool,
    layer: int,
)
    requires
        0 <= layer,
        k <= layers <= usize::MAX,
        0 <= n,
        0 <= prefix,
        prefix + n <= usize::MAX,
    ensures
        appends(layers_steps(k, n, prefix, sub_norms), layer) == if layer < k {
            n
        } else {
            0
        },
    decreases k,
{
    if k > 0 {
        lemma_layers_count(k - 1, layers, n, prefix, sub_norms, layer);
        let last = layer_steps(k - 1, n, prefix, sub_norms);
        lemma_appends_add(layers_steps(k - 1, n, prefix, sub_norms), last, layer);
        if layer == k - 1 {
            lemma_layer_counts(layer, n, prefix, sub_norms);
        } else {
            lemma_layer_belongs(k - 1, layers, n, prefix, sub_norms);
            assert forall|i: int| 0 <= i < last.len() implies !stores_in(
                #[trigger] last[i],
                layer,
            ) by {
                assert(belongs(last[i], k - 1, layers, n, prefix));
            }
            lemma_appends_none(last, layer);
        }
    }
}

/// Whatever a pass stores, it stores in a layer of the model.
pub proof fn steps_append_within_the_layers(
    layers: int,
    n: int,
    prefix: int,
    sub_norms: bool,
    check_output: bool,
)
    requires
        0 <= layers <= usize::MAX,
        0 <= n,
        0 <= prefix,
        prefix + n <= usize::MAX,
    ensures
        forall|i: int|
            0 <= i < pass_steps(layers, n, prefix, sub_norms, check_output).len() ==> ((
            #[trigger] pass_steps(layers, n, prefix, sub_norms, check_output)[i])
                matches Step::Append { layer, .. } ==> layer < layers),
{
    lemma_layers_belong(layers, layers, n, prefix, sub_norms);
    let steps = pass_steps(layers, n, prefix, sub_norms, check_output);
    let middle = layers_steps(layers, n, prefix, sub_norms);
    assert forall|i: int| 0 <= i < steps.len() implies ((#[trigger] steps[i])
        matches Step::Append { layer, .. } ==> layer < layers) by {
        if i < n {
            assert(steps[i] == embed_steps(n)[i]);
        } else if i < n + middle.len() {
            assert(steps[i] == middle[i - n]);
        }
    }
}

/// A pass stores once for each token in every layer.
pub proof fn tokens_are_appended_once(
    layers: int,
    n: int,
    prefix: int,
    sub_norms: bool,
    check_output: bool,
    layer: int,
)
    requires
        0 <= layer < layers <= usize::MAX,
        0 <= n,
        0 <= prefix,
        prefix + n <= usize::MAX,
    ensures
        appends(pass_steps(layers, n, prefix, sub_norms, check_output), layer) == n,
{
    let middle = layers_steps(layers, n, prefix, sub_norms);
    let both = embed_steps(n) + middle;
    lemma_appends_none(embed_steps(n), layer);
    lemma_layers_count(layers, layers, n, prefix, sub_norms, layer);
    lemma_appends_add(embed_steps(n), middle, layer);
    lemma_appends_push(both, Step::OutputNorm, layer);
    lemma_appends_push(both.push(Step::OutputNorm), Step::CheckOutput, layer);
}

/// A layer has stored the key and value of every token of the chunk before it
/// reads the cache, and stores nothing after that.
pub proof fn cache_is_read_when_it_is_complete(
    layer: int,
    n: int,
    prefix: int,
    sub_norms: bool,
)
    requires
        0 <= layer <= usize::MAX,
        0 <= n <= usize::MAX,
    ensures
        ({
            let steps = layer_steps(layer, n, prefix, sub_norms);
            let read = storing_steps(layer, n, prefix, sub_norms).len() as int;
            &&& 0 <= read < steps.len()
            &&& steps[read] == (Step::ReadCache { layer: layer as usize })
            &&& forall|t: int|
                0 <= t < n ==> exists|i: int|
                    0 <= i < read && #[trigger] steps[i] == (Step::Append {
                        layer: layer as usize,
                        token: #[trigger] (t as usize),
                    })
            &&& forall|i: int| read < i < steps.len() ==> !writes(#[trigger] steps[i])
        }),
{
    let steps = layer_steps(layer, n, prefix, sub_norms);
    let storing = storing_steps(layer, n, prefix, sub_norms);
    let stored = token_steps(Phase::Store, layer, n, prefix, sub_norms);
    let normed = token_steps(Phase::Normalise, layer, n, prefix, sub_norms);
    let read = storing.len() as int;
    assert forall|t: int| 0 <= t < n implies exists|i: int|
        0 <= i < read && #[trigger] steps[i] == (Step::Append {
            layer: layer as usize,
            token: #[trigger] (t as usize),
        }) by {
        lemma_stores(layer, n, prefix, sub_norms, t);
        let i = choose|i: int|
            0 <= i < stored.len() && #[trigger] stored[i] == (Step::Append {
                layer: layer as usize,
                token: t as usize,
            });
        assert(steps[normed.len() as int + 1 + i] == stored[i]);
    }
    lemma_writes_nothing(Phase::Attend, layer, n, prefix, sub_norms);
    lemma_writes_nothing(Phase::AddAttention, layer, n, prefix, sub_norms);
    lemma_writes_nothing(Phase::Activate, layer, n, prefix, sub_norms);
    lemma_writes_nothing(Phase::AddFeedForward, layer, n, prefix, sub_norms);
    let mixing = mixing_steps(layer, n, prefix, sub_norms);
    assert forall|i: int| 0 <= i < mixing.len() implies !writes(#[trigger] mixing[i]) by {}
    assert forall|i: int| read < i < steps.len() implies !writes(#[trigger] steps[i]) by {
        assert(steps[i] == mixing[i - read - 1]);
    }
}

/// One step of a pass without a cache, in which every token keeps its own keys
/// and values.
#[derive(Debug, Clone, Copy, PartialEq, Eq, Structural)]
pub enum PassStep {
    /// The embedding row of a token becomes its hidden state.
    Embed { token: usize },
    /// The hidden state is normalised for attention.
    AttnNorm { layer: usize, token: usize },
    /// Query, key and value of a token are projected and rotated.
    Project { layer: usize, token: usize, position: u32 },
    /// A token attends to the first `window` tokens.
    Attend { layer: usize, token: usize, window: usize },
    /// What attention gave is normalised, projected, added and checked.
    AddAttn { layer: usize, token: usize },
    /// The feed-forward half is computed, added and checked.
    AddFfn { layer: usize, token: usize },
    /// The hidden state of one token is normalised.
    OutputNorm { token: usize },
}

/// A stretch of a layer in a pass without a cache.
#[derive(Debug, Clone, Copy, PartialEq, Eq, Structural)]
pub enum PassPhase {
    Normalise,
    Project,
    Attend,
    AddAttention,
    AddFeedForward,
}

/// What a phase does with one token.
pub open spec fn pass_step(phase: PassPhase, layer: int, token: int) -> PassStep {
    let l = layer as usize;
    let t = token as usize;
    match phase {
        PassPhase::Normalise => PassStep::AttnNorm { layer: l, token: t },
        PassPhase::Project => PassStep::Project { layer: l, token: t, position: token as u32 },
        PassPhase::Attend => PassStep::Attend { layer: l, token: t, window: (token + 1) as usize },
        PassPhase::AddAttention => PassStep::AddAttn { layer: l, token: t },
        PassPhase::AddFeedForward => PassStep::AddFfn { layer: l, token: t },
    }
}

/// What a phase does with the first `n` tokens.
pub open spec fn pass_phase(phase: PassPhase, layer: int, n: int) -> Seq<PassStep> {
    Seq::new(n as nat, |t: int| pass_step(phase, layer, t))
}

/// What one layer does.
pub open spec fn pass_layer(layer: int, n: int) -> Seq<PassStep> {
    pass_phase(PassPhase::Normalise, layer, n) + pass_phase(PassPhase::Project, layer, n)
        + pass_phase(PassPhase::Attend, layer, n) + pass_phase(PassPhase::AddAttention, layer, n)
        + pass_phase(PassPhase::AddFeedForward, layer, n)
}

/// What the first `layers` layers do.
pub open spec fn pass_layers(layers: int, n: int) -> Seq<PassStep>
    decreases layers,
{
    if layers <= 0 {
        Seq::empty()
    } else {
        pass_layers(layers - 1, n) + pass_layer(layers - 1, n)
    }
}

/// A whole pass without a cache over `n` tokens, which ends with the hidden
/// state of the last one.
pub open spec fn uncached_steps(layers: int, n: int) -> Seq<PassStep> {
    (Seq::new(n as nat, |t: int| PassStep::Embed { token: t as usize }) + pass_layers(
        layers,
        n,
    )).push(PassStep::OutputNorm { token: (n - 1) as usize })
}

/// Adds what a phase does with all tokens.
fn push_pass_phase(out: &mut Vec<PassStep>, phase: PassPhase, layer: usize, n: usize)
    requires
        n <= u32::MAX,
        n < usize::MAX,
    ensures
        final(out)@ == old(out)@ + pass_phase(phase, layer as int, n as int),
{
    let ghost before = out@;
    let mut token: usize = 0;
    while token < n
        invariant
            token <= n,
            n <= u32::MAX,
            n < usize::MAX,
            out@ =~= before + pass_phase(phase, layer as int, token as int),
        decreases n - token,
    {
        let step = match phase {
            PassPhase::Normalise => PassStep::AttnNorm { layer, token },
            PassPhase::Project => PassStep::Project { layer, token, position: token as u32 },
            PassPhase::Attend => PassStep::Attend { layer, token, window: token + 1 },
            PassPhase::AddAttention => PassStep::AddAttn { layer, token },
            PassPhase::AddFeedForward => PassStep::AddFfn { layer, token },
        };
        out.push(step);
        token = token + 1;
    }
}

/// The steps of a pass without a cache.
pub fn plan_uncached_pass(layers: usize, tokens: usize) -> (steps: Vec<PassStep>)
    requires
        0 < tokens <= u32::MAX,
        tokens < usize::MAX,
    ensures
        steps@ == uncached_steps(layers as int, tokens as int),
{
    let mut out: Vec<PassStep> = Vec::new();
    let mut token: usize = 0;
    while token < tokens
        invariant
            token <= tokens,
            out@ =~= Seq::new(token as nat, |t: int| PassStep::Embed { token: t as usize }),
        decreases tokens - token,
    {
        out.push(PassStep::Embed { token });
        token = token + 1;
    }
    let ghost embedded = Seq::new(tokens as nat, |t: int| PassStep::Embed { token: t as usize });
    let mut layer: usize = 0;
    proof {
        assert(out@ =~= embedded + Seq::<PassStep>::empty());
    }
    while layer < layers
        invariant
            layer <= layers,
            0 < tokens <= u32::MAX,
            tokens < usize::MAX,
            out@ == embedded + pass_layers(layer as int, tokens as int),
        decreases layers - layer,
    {
        let ghost done = out@;
        push_pass_phase(&mut out, PassPhase::Normalise, layer, tokens);
        push_pass_phase(&mut out, PassPhase::Project, layer, tokens);
        push_pass_phase(&mut out, PassPhase::Attend, layer, tokens);
        push_pass_phase(&mut out, PassPhase::AddAttention, layer, tokens);
        push_pass_phase(&mut out, PassPhase::AddFeedForward, layer, tokens);
        proof {
            assert(out@ =~= done + pass_layer(layer as int, tokens as int));
            assert(out@ =~= embedded + (pass_layers(layer as int, tokens as int) + pass_layer(
                layer as int,
                tokens as int,
            )));
        }
        layer = layer + 1;
    }
    out.push(PassStep::OutputNorm { token: tokens - 1 });
    out
}

/// Without a cache too, a token attends to itself and to what came before it,
/// and all of that has its keys and values by then.
pub proof fn uncached_attention_is_causal(layer: int, n: int, t: int)
    requires
        0 <= layer <= usize::MAX,
        0 <= t < n <= u32::MAX,
        n < usize::MAX,
    ensures
        pass_layer(layer, n)[2 * n + t] == (PassStep::Attend {
            layer: layer as usize,
            token: t as usize,
            window: (t + 1) as usize,
        }),
        forall|u: int|
            0 <= u <= t ==> #[trigger] pass_layer(layer, n)[n + u] == (PassStep::Project {
                layer: layer as usize,
                token: u as usize,
                position: u as u32,
            }),
{
}

} // verus!
