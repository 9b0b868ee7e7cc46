//! What a forward pass does with each token, and in which order.

use crate::model::cached_forward::rope_of;
use crate::model::architecture::ForwardVariant;
use crate::model::primitives::rope_pair;
use crate::model::schedule::{
    embed_steps, layer_of, layer_steps, layers_steps, mixing_steps, pass_layer, pass_layers,
    pass_steps, phase_steps, storing_steps, token_steps, uncached_steps, PassStep, Phase, Step,
};
use vstd::prelude::*;

verus! {

/// The stages of a layer, in the order in which one needs what the other gave: a hidden
/// state is normalised, projected, rotated and stored; the cache is read and attended to;
/// the outcome is projected, added, normalised for the second half, projected, activated,
/// projected down, added and checked.
pub open spec fn stage(step: Step) -> int {
    match step {
        Step::Embed { .. } => 0,
        Step::AttnNorm { .. } => 1,
        Step::ProjectQkv { .. } => 2,
        Step::Rope { .. } => 3,
        Step::Append { .. } => 4,
        Step::ReadCache { .. } => 5,
        Step::Attend { .. } => 6,
        Step::AttnSubNorm { .. } => 7,
        Step::ProjectAttnOutput { .. } => 8,
        Step::AddAttn { .. } => 9,
        Step::FfnNorm { .. } => 10,
        Step::ProjectGateUp { .. } => 11,
        Step::Activate { .. } => 12,
        Step::FfnSubNorm { .. } => 13,
        Step::ProjectDown { .. } => 14,
        Step::AddFfn { .. } => 15,
        Step::CheckHidden { .. } => 16,
        Step::LayerDone { .. } => 17,
        Step::OutputNorm => 18,
        Step::CheckOutput => 19,
    }
}

/// The token that a step works on; nothing for a step that works on all of them.
pub open spec fn token_of(step: Step) -> Option<usize> {
    match step {
        Step::Embed { token } => Some(token),
        Step::AttnNorm { token, .. } => Some(token),
        Step::Rope { token, .. } => Some(token),
        Step::Append { token, .. } => Some(token),
        Step::Attend { token, .. } => Some(token),
        Step::AttnSubNorm { token, .. } => Some(token),
        Step::AddAttn { token, .. } => Some(token),
        Step::FfnNorm { token, .. } => Some(token),
        Step::Activate { token, .. } => Some(token),
        Step::FfnSubNorm { token, .. } => Some(token),
        Step::AddFfn { token, .. } => Some(token),
        Step::CheckHidden { token, .. } => Some(token),
        _ => None,
    }
}

/// Two steps of one layer work on a token that they share.
pub open spec fn share_a_token(a: Step, b: Step, layers: int) -> bool {
    &&& layer_of(a, layers) == layer_of(b, layers)
    &&& token_of(a) is None || token_of(b) is None || token_of(a) == token_of(b)
}

/// Steps that share a token come in the order of their stages.
spec fn rising(s: Seq<Step>, layers: int) -> bool {
    forall|i: int, j: int|
        0 <= i < j < s.len() && share_a_token(s[i], s[j], layers) ==> stage(#[trigger] s[i])
            < stage(#[trigger] s[j])
}

/// All steps are of certain stages.
spec fn between(s: Seq<Step>, low: int, high: int) -> bool {
    forall|i: int| 0 <= i < s.len() ==> low <= stage(#[trigger] s[i]) <= high
}

/// All steps are of one layer.
spec fn in_layer(s: Seq<Step>, layer: int, layers: int) -> bool {
    forall|i: int| 0 <= i < s.len() ==> layer_of(#[trigger] s[i], layers) == layer
}

proof fn lemma_stages_follow(a: Seq<Step>, b: Seq<Step>, layers: int, low: int, mid: int, high: int)
    requires
        rising(a, layers),
        rising(b, layers),
        between(a, low, mid),
        between(b, mid + 1, high),
        low <= mid + 1,
        mid <= high,
    ensures
        rising(a + b, layers),
        between(a + b, low, high),
{
    let s = a + b;
    assert forall|i: int, j: int|
        0 <= i < j < s.len() && share_a_token(s[i], s[j], layers) implies stage(#[trigger] s[i])
        < stage(#[trigger] s[j]) by {
        if j < a.len() {
            assert(s[i] == a[i] && s[j] == a[j]);
        } else if i >= a.len() {
            assert(s[i] == b[i - a.len()] && s[j] == b[j - a.len()]);
        } else {
            assert(s[i] == a[i] && s[j] == b[j - a.len()]);
        }
    }
    assert forall|i: int| 0 <= i < s.len() implies low <= stage(#[trigger] s[i]) <= high by {
        if i < a.len() {
            assert(s[i] == a[i]);
        } else {
            assert(s[i] == b[i - a.len()]);
        }
    }
}

/// One step is in order.
proof fn lemma_one_step(step: Step, layers: int)
    ensures
        rising(seq![step], layers),
        between(seq![step], stage(step), stage(step)),
{
}

/// One more step is one more list of one.
proof fn lemma_stage_follows(a: Seq<Step>, step: Step, layers: int, low: int, mid: int)
    requires
        rising(a, layers),
        between(a, low, mid),
        stage(step) == mid + 1,
        low <= mid + 1,
    ensures
        rising(a.push(step), layers),
        between(a.push(step), low, mid + 1),
{
    lemma_one_step(step, layers);
    lemma_stages_follow(a, seq![step], layers, low, mid, mid + 1);
    assert(a.push(step) =~= a + seq![step]);
}

/// The first and the last stage of a phase.
spec fn first_stage(phase: Phase) -> int {
    match phase {
        Phase::Normalise => 1,
        Phase::Store => 3,
        Phase::Attend => 6,
        Phase::AddAttention => 9,
        Phase::Activate => 12,
        Phase::AddFeedForward => 15,
    }
}

spec fn last_stage(phase: Phase) -> int {
    match phase {
        Phase::Normalise => 1,
        Phase::Store => 4,
        Phase::Attend => 7,
        Phase::AddAttention => 10,
        Phase::Activate => 13,
        Phase::AddFeedForward => 16,
    }
}

proof fn lemma_phase(
    phase: Phase,
    layer: int,
    layers: int,
    n: int,
    prefix: int,
    sub_norms: bool,
)
    requires
        0 <= layer <= usize::MAX,
        n <= usize::MAX,
    ensures
        rising(token_steps(phase, layer, n, prefix, sub_norms), layers),
        between(
            token_steps(phase, layer, n, prefix, sub_norms),
            first_stage(phase),
            last_stage(phase),
        ),
        in_layer(token_steps(phase, layer, n, prefix, sub_norms), layer, layers),
        forall|i: int|
            0 <= i < token_steps(phase, layer, n, prefix, sub_norms).len() ==> (token_of(
                #[trigger] token_steps(phase, layer, n, prefix, sub_norms)[i],
            ) matches Some(t) && t < n),
    decreases n,
{
    let s = token_steps(phase, layer, n, prefix, sub_norms);
    if n > 0 {
        lemma_phase(phase, layer, layers, n - 1, prefix, sub_norms);
        let a = token_steps(phase, layer, n - 1, prefix, sub_norms);
        let b = phase_steps(phase, layer, n - 1, prefix, sub_norms);
        assert forall|i: int| 0 <= i < b.len() implies token_of(#[trigger] b[i]) == Some(
            (n - 1) as usize,
        ) && layer_of(b[i], layers) == layer && first_stage(phase) <= stage(b[i]) <= last_stage(
            phase,
        ) by {}
        assert(forall|i: int, j: int|
            0 <= i < j < b.len() ==> stage(#[trigger] b[i]) < stage(#[trigger] b[j]));
        assert forall|i: int| 0 <= i < s.len() implies s[i] == if i < a.len() {
            a[i]
        } else {
            b[i - a.len()]
        } by {}
        assert forall|i: int, j: int|
            0 <= i < j < s.len() && share_a_token(s[i], s[j], layers) implies stage(
            #[trigger] s[i],
        ) < stage(#[trigger] s[j]) by {
            if j < a.len() {
                assert(s[i] == a[i] && s[j] == a[j]);
            } else if i >= a.len() {
                assert(s[i] == b[i - a.len()] && s[j] == b[j - a.len()]);
            } else {
                assert(s[i] == a[i] && s[j] == b[j - a.len()]);
                assert(token_of(a[i]) matches Some(t) && t < n - 1);
            }
        }
    }
}

proof fn lemma_layer(layer: int, layers: int, n: int, prefix: int, sub_norms: bool)
    requires
        0 <= layer <= usize::MAX,
        n <= usize::MAX,
    ensures
        rising(layer_steps(layer, n, prefix, sub_norms), layers),
        between(layer_steps(layer, n, prefix, sub_norms), 1, 17),
{
    let l = layer as usize;
    lemma_phase(Phase::Normalise, layer, layers, n, prefix, sub_norms);
    lemma_phase(Phase::Store, layer, layers, n, prefix, sub_norms);
    lemma_phase(Phase::Attend, layer, layers, n, prefix, sub_norms);
    lemma_phase(Phase::AddAttention, layer, layers, n, prefix, sub_norms);
    lemma_phase(Phase::Activate, layer, layers, n, prefix, sub_norms);
    lemma_phase(Phase::AddFeedForward, layer, layers, n, prefix, sub_norms);
    let normalised = token_steps(Phase::Normalise, layer, n, prefix, sub_norms);
    let projected = normalised.push(Step::ProjectQkv { layer: l });
    lemma_stage_follows(normalised, Step::ProjectQkv { layer: l }, layers, 1, 1);
    let store = token_steps(Phase::Store, layer, n, prefix, sub_norms);
    lemma_stages_follow(projected, store, layers, 1, 2, 4);
    let stored = storing_steps(layer, n, prefix, sub_norms);
    assert(stored == projected + store);
    lemma_stage_follows(stored, Step::ReadCache { layer: l }, layers, 1, 4);
    let attend = token_steps(Phase::Attend, layer, n, prefix, sub_norms);
    let attended = attend.push(Step::ProjectAttnOutput { layer: l });
    lemma_stage_follows(attend, Step::ProjectAttnOutput { layer: l }, layers, 6, 7);
    let add = token_steps(Phase::AddAttention, layer, n, prefix, sub_norms);
    lemma_stages_follow(attended, add, layers, 6, 8, 10);
    let added = (attended + add).push(Step::ProjectGateUp { layer: l });
    lemma_stage_follows(attended + add, Step::ProjectGateUp { layer: l }, layers, 6, 10);
    let activate = token_steps(Phase::Activate, layer, n, prefix, sub_norms);
    lemma_stages_follow(added, activate, layers, 6, 11, 13);
    let activated = (added + activate).push(Step::ProjectDown { layer: l });
    lemma_stage_follows(added + activate, Step::ProjectDown { layer: l }, layers, 6, 13);
    let last = token_steps(Phase::AddFeedForward, layer, n, prefix, sub_norms);
    lemma_stages_follow(activated, last, layers, 6, 14, 16);
    lemma_stage_follows(activated + last, Step::LayerDone { layer: l }, layers, 6, 16);
    let mixed = mixing_steps(layer, n, prefix, sub_norms);
    assert(mixed == (activated + last).push(Step::LayerDone { layer: l }));
    lemma_stages_follow(stored.push(Step::ReadCache { layer: l }), mixed, layers, 1, 5, 17);
}

proof fn lemma_in_layer_joins(a: Seq<Step>, b: Seq<Step>, layer: int, layers: int)
    requires
        in_layer(a, layer, layers),
        in_layer(b, layer, layers),
    ensures
        in_layer(a + b, layer, layers),
{
    let s = a + b;
    assert forall|i: int| 0 <= i < s.len() implies layer_of(#[trigger] s[i], layers) == layer by {
        if i < a.len() {
            assert(s[i] == a[i]);
        } else {
            assert(s[i] == b[i - a.len()]);
        }
    }
}

proof fn lemma_in_layer_grows(a: Seq<Step>, step: Step, layer: int, layers: int)
    requires
        in_layer(a, layer, layers),
        layer_of(step, layers) == layer,
    ensures
        in_layer(a.push(step), layer, layers),
{
    let s = a.push(step);
    assert forall|i: int| 0 <= i < s.len() implies layer_of(#[trigger] s[i], layers) == layer by {
        if i < a.len() {
            assert(s[i] == a[i]);
        }
    }
}

proof fn lemma_layer_stays(layer: int, layers: int, n: int, prefix: int, sub_norms: bool)
    requires
        0 <= layer <= usize::MAX,
        n <= usize::MAX,
    ensures
        in_layer(layer_steps(layer, n, prefix, sub_norms), layer, layers),
{
    let l = layer as usize;
    lemma_phase(Phase::Normalise, layer, layers, n, prefix, sub_norms);
    lemma_phase(Phase::Store, layer, layers, n, prefix, sub_norms);
    lemma_phase(Phase::Attend, layer, layers, n, prefix, sub_norms);
    lemma_phase(Phase::AddAttention, layer, layers, n, prefix, sub_norms);
    lemma_phase(Phase::Activate, layer, layers, n, prefix, sub_norms);
    lemma_phase(Phase::AddFeedForward, layer, layers, n, prefix, sub_norms);
    let normalised = token_steps(Phase::Normalise, layer, n, prefix, sub_norms);
    lemma_in_layer_grows(normalised, Step::ProjectQkv { layer: l }, layer, layers);
    let projected = normalised.push(Step::ProjectQkv { layer: l });
    let store = token_steps(Phase::Store, layer, n, prefix, sub_norms);
    lemma_in_layer_joins(projected, store, layer, layers);
    lemma_in_layer_grows(projected + store, Step::ReadCache { layer: l }, layer, layers);
    let attend = token_steps(Phase::Attend, layer, n, prefix, sub_norms);
    lemma_in_layer_grows(attend, Step::ProjectAttnOutput { layer: l }, layer, layers);
    let attended = attend.push(Step::ProjectAttnOutput { layer: l });
    let add = token_steps(Phase::AddAttention, layer, n, prefix, sub_norms);
    lemma_in_layer_joins(attended, add, layer, layers);
    lemma_in_layer_grows(attended + add, Step::ProjectGateUp { layer: l }, layer, layers);
    let added = (attended + add).push(Step::ProjectGateUp { layer: l });
    let activate = token_steps(Phase::Activate, layer, n, prefix, sub_norms);
    lemma_in_layer_joins(added, activate, layer, layers);
    lemma_in_layer_grows(added + activate, Step::ProjectDown { layer: l }, layer, layers);
    let activated = (added + activate).push(Step::ProjectDown { layer: l });
    let last = token_steps(Phase::AddFeedForward, layer, n, prefix, sub_norms);
    lemma_in_layer_joins(activated, last, layer, layers);
    lemma_in_layer_grows(activated + last, Step::LayerDone { layer: l }, layer, layers);
    lemma_in_layer_joins(
        (projected + store).push(Step::ReadCache { layer: l }),
        mixing_steps(layer, n, prefix, sub_norms),
        layer,
        layers,
    );
}

proof fn lemma_layers(k: int, layers: int, n: int, prefix: int, sub_norms: bool)
    requires
        k <= layers <= usize::MAX,
        n <= usize::MAX,
    ensures
        rising(layers_steps(k, n, prefix, sub_norms), layers),
        forall|i: int|
            0 <= i < layers_steps(k, n, prefix, sub_norms).len() ==> 0 <= layer_of(
                #[trigger] layers_steps(k, n, prefix, sub_norms)[i],
                layers,
            ) < k,
    decreases k,
{
    if k > 0 {
        lemma_layers(k - 1, layers, n, prefix, sub_norms);
        lemma_layer(k - 1, layers, n, prefix, sub_norms);
        lemma_layer_stays(k - 1, layers, n, prefix, sub_norms);
        let a = layers_steps(k - 1, n, prefix, sub_norms);
        let b = layer_steps(k - 1, n, prefix, sub_norms);
        let s = layers_steps(k, n, prefix, sub_norms);
        assert(s == a + b);
        lemma_apart(a, b, layers, k - 1);
    }
}

proof fn lemma_apart(a: Seq<Step>, b: Seq<Step>, layers: int, layer: int)
    requires
        rising(a, layers),
        rising(b, layers),
        0 <= layer,
        forall|i: int| 0 <= i < a.len() ==> 0 <= layer_of(#[trigger] a[i], layers) < layer,
        in_layer(b, layer, layers),
    ensures
        rising(a + b, layers),
        forall|i: int|
            0 <= i < (a + b).len() ==> 0 <= layer_of(#[trigger] (a + b)[i], layers) < layer + 1,
{
    let s = a + b;
    assert forall|i: int| 0 <= i < s.len() implies 0 <= layer_of(#[trigger] s[i], layers) < layer
        + 1 by {
        if i < a.len() {
            assert(s[i] == a[i]);
        } else {
            assert(s[i] == b[i - a.len()]);
        }
    }
    assert forall|i: int, j: int|
        0 <= i < j < s.len() && share_a_token(s[i], s[j], layers) implies stage(#[trigger] s[i])
        < stage(#[trigger] s[j]) by {
        if j < a.len() {
            assert(s[i] == a[i] && s[j] == a[j]);
        } else if i >= a.len() {
            assert(s[i] == b[i - a.len()] && s[j] == b[j - a.len()]);
        } else {
            assert(s[i] == a[i] && s[j] == b[j - a.len()]);
        }
    }
}

/// Within a layer the stages of a token come in their order, each at most once, and a
/// step for all tokens stands between what it needs and what needs it.
pub proof fn stages_come_in_order(
    layers: int,
    n: int,
    prefix: int,
    sub_norms: bool,
    check_output: bool,
    i: int,
    j: int,
)
    requires
        0 <= layers <= usize::MAX,
        0 <= n <= usize::MAX,
        0 <= i < j < pass_steps(layers, n, prefix, sub_norms, check_output).len(),
        share_a_token(
            pass_steps(layers, n, prefix, sub_norms, check_output)[i],
            pass_steps(layers, n, prefix, sub_norms, check_output)[j],
            layers,
        ),
    ensures
        stage(pass_steps(layers, n, prefix, sub_norms, check_output)[i]) < stage(
            pass_steps(layers, n, prefix, sub_norms, check_output)[j],
        ),
{
    lemma_layers(layers, layers, n, prefix, sub_norms);
    let steps = pass_steps(layers, n, prefix, sub_norms, check_output);
    let e = embed_steps(n);
    let m = layers_steps(layers, n, prefix, sub_norms);
    if i < n {
        assert(steps[i] == e[i]);
        if j < n {
            assert(steps[j] == e[j]);
        } else if j < n + m.len() {
            assert(steps[j] == m[j - n]);
        }
    } else if i < n + m.len() {
        assert(steps[i] == m[i - n]);
        if j < n + m.len() {
            assert(steps[j] == m[j - n]);
        }
    }
}

/// What is in a part is in the whole.
proof fn lemma_part(a: Seq<Step>, b: Seq<Step>, x: Step)
    requires
        a.contains(x) || b.contains(x),
    ensures
        (a + b).contains(x),
{
    if a.contains(x) {
        let i = choose|i: int| 0 <= i < a.len() && a[i] == x;
        assert((a + b)[i] == x);
    } else {
        let i = choose|i: int| 0 <= i < b.len() && b[i] == x;
        assert((a + b)[a.len() + i] == x);
    }
}

/// What a list had, it has with one more step, and it has that step.
proof fn lemma_pushed(a: Seq<Step>, step: Step, x: Step)
    requires
        a.contains(x) || x == step,
    ensures
        a.push(step).contains(x),
{
    if x == step {
        assert(a.push(step)[a.len() as int] == x);
    } else {
        let i = choose|i: int| 0 <= i < a.len() && a[i] == x;
        assert(a.push(step)[i] == x);
    }
}

proof fn lemma_token_done(
    phase: Phase,
    layer: int,
    n: int,
    prefix: int,
    sub_norms: bool,
    t: int,
    x: Step,
)
    requires
        0 <= t < n,
        phase_steps(phase, layer, t, prefix, sub_norms).contains(x),
    ensures
        token_steps(phase, layer, n, prefix, sub_norms).contains(x),
    decreases n,
{
    if t < n - 1 {
        lemma_token_done(phase, layer, n - 1, prefix, sub_norms, t, x);
    }
    lemma_part(
        token_steps(phase, layer, n - 1, prefix, sub_norms),
        phase_steps(phase, layer, n - 1, prefix, sub_norms),
        x,
    );
}

/// What a phase does is done by its layer.
proof fn lemma_phase_done(
    phase: Phase,
    layer: int,
    n: int,
    prefix: int,
    sub_norms: bool,
    x: Step,
)
    requires
        token_steps(phase, layer, n, prefix, sub_norms).contains(x),
    ensures
        layer_steps(layer, n, prefix, sub_norms).contains(x),
{
    let l = layer as usize;
    let normalised = token_steps(Phase::Normalise, layer, n, prefix, sub_norms);
    let projected = normalised.push(Step::ProjectQkv { layer: l });
    let store = token_steps(Phase::Store, layer, n, prefix, sub_norms);
    let stored = storing_steps(layer, n, prefix, sub_norms);
    let read = stored.push(Step::ReadCache { layer: l });
    let attend = token_steps(Phase::Attend, layer, n, prefix, sub_norms);
    let attended = attend.push(Step::ProjectAttnOutput { layer: l });
    let add = token_steps(Phase::AddAttention, layer, n, prefix, sub_norms);
    let added = (attended + add).push(Step::ProjectGateUp { layer: l });
    let activate = token_steps(Phase::Activate, layer, n, prefix, sub_norms);
    let activated = (added + activate).push(Step::ProjectDown { layer: l });
    let last = token_steps(Phase::AddFeedForward, layer, n, prefix, sub_norms);
    let mixed = mixing_steps(layer, n, prefix, sub_norms);
    if phase == Phase::Normalise || phase == Phase::Store {
        if phase == Phase::Normalise {
            lemma_pushed(normalised, Step::ProjectQkv { layer: l }, x);
        }
        lemma_part(projected, store, x);
        lemma_pushed(stored, Step::ReadCache { layer: l }, x);
    } else {
        if phase == Phase::Attend {
            lemma_pushed(attend, Step::ProjectAttnOutput { layer: l }, x);
        }
        if phase == Phase::Attend || phase == Phase::AddAttention {
            lemma_part(attended, add, x);
            lemma_pushed(attended + add, Step::ProjectGateUp { layer: l }, x);
        }
        if phase != Phase::AddFeedForward {
            lemma_part(added, activate, x);
            lemma_pushed(added + activate, Step::ProjectDown { layer: l }, x);
        }
        lemma_part(activated, last, x);
        lemma_pushed(activated + last, Step::LayerDone { layer: l }, x);
    }
    lemma_part(read, mixed, x);
}

/// What a layer does with all tokens is done by it.
proof fn lemma_projections_done(layer: int, n: int, prefix: int, sub_norms: bool)
    ensures
        ({
            let s = layer_steps(layer, n, prefix, sub_norms);
            let l = layer as usize;
            &&& s.contains(Step::ProjectQkv { layer: l })
            &&& s.contains(Step::ReadCache { layer: l })
            &&& s.contains(Step::ProjectAttnOutput { layer: l })
            &&& s.contains(Step::ProjectGateUp { layer: l })
            &&& s.contains(Step::ProjectDown { layer: l })
            &&& s.contains(Step::LayerDone { layer: l })
        }),
{
    let l = layer as usize;
    let normalised = token_steps(Phase::Normalise, layer, n, prefix, sub_norms);
    let projected = normalised.push(Step::ProjectQkv { layer: l });
    let store = token_steps(Phase::Store, layer, n, prefix, sub_norms);
    let stored = storing_steps(layer, n, prefix, sub_norms);
    let read = stored.push(Step::ReadCache { layer: l });
    let attend = token_steps(Phase::Attend, layer, n, prefix, sub_norms);
    let attended = attend.push(Step::ProjectAttnOutput { layer: l });
    let add = token_steps(Phase::AddAttention, layer, n, prefix, sub_norms);
    let added = (attended + add).push(Step::ProjectGateUp { layer: l });
    let activate = token_steps(Phase::Activate, layer, n, prefix, sub_norms);
    let activated = (added + activate).push(Step::ProjectDown { layer: l });
    let last = token_steps(Phase::AddFeedForward, layer, n, prefix, sub_norms);
    let mixed = mixing_steps(layer, n, prefix, sub_norms);
    let qkv = Step::ProjectQkv { layer: l };
    lemma_pushed(normalised, qkv, qkv);
    lemma_part(projected, store, qkv);
    lemma_pushed(stored, Step::ReadCache { layer: l }, qkv);
    lemma_part(read, mixed, qkv);
    lemma_pushed(stored, Step::ReadCache { layer: l }, Step::ReadCache { layer: l });
    lemma_part(read, mixed, Step::ReadCache { layer: l });
    let out = Step::ProjectAttnOutput { layer: l };
    lemma_pushed(attend, out, out);
    lemma_part(attended, add, out);
    lemma_pushed(attended + add, Step::ProjectGateUp { layer: l }, out);
    lemma_part(added, activate, out);
    lemma_pushed(added + activate, Step::ProjectDown { layer: l }, out);
    lemma_part(activated, last, out);
    lemma_pushed(activated + last, Step::LayerDone { layer: l }, out);
    lemma_part(read, mixed, out);
    let gate = Step::ProjectGateUp { layer: l };
    lemma_pushed(attended + add, gate, gate);
    lemma_part(added, activate, gate);
    lemma_pushed(added + activate, Step::ProjectDown { layer: l }, gate);
    lemma_part(activated, last, gate);
    lemma_pushed(activated + last, Step::LayerDone { layer: l }, gate);
    lemma_part(read, mixed, gate);
    let down = Step::ProjectDown { layer: l };
    lemma_pushed(added + activate, down, down);
    lemma_part(activated, last, down);
    lemma_pushed(activated + last, Step::LayerDone { layer: l }, down);
    lemma_part(read, mixed, down);
    lemma_pushed(activated + last, Step::LayerDone { layer: l }, Step::LayerDone { layer: l });
    lemma_part(read, mixed, Step::LayerDone { layer: l });
}

proof fn lemma_layer_done(
    layers: int,
    layer: int,
    n: int,
    prefix: int,
    sub_norms: bool,
    x: Step,
)
    requires
        0 <= layer < layers,
        layer_steps(layer, n, prefix, sub_norms).contains(x),
    ensures
        layers_steps(layers, n, prefix, sub_norms).contains(x),
    decreases layers,
{
    if layer < layers - 1 {
        lemma_layer_done(layers - 1, layer, n, prefix, sub_norms, x);
    }
    lemma_part(
        layers_steps(layers - 1, n, prefix, sub_norms),
        layer_steps(layers - 1, n, prefix, sub_norms),
        x,
    );
}

proof fn lemma_pass_done(
    layers: int,
    n: int,
    prefix: int,
    sub_norms: bool,
    check_output: bool,
    x: Step,
)
    requires
        layers_steps(layers, n, prefix, sub_norms).contains(x) || embed_steps(n).contains(x),
    ensures
        pass_steps(layers, n, prefix, sub_norms, check_output).contains(x),
{
    let e = embed_steps(n);
    let m = layers_steps(layers, n, prefix, sub_norms);
    lemma_part(e, m, x);
    lemma_pushed(e + m, Step::OutputNorm, x);
    lemma_pushed((e + m).push(Step::OutputNorm), Step::CheckOutput, x);
}

proof fn lemma_step_done(
    layers: int,
    n: int,
    prefix: int,
    sub_norms: bool,
    check_output: bool,
    layer: int,
    t: int,
    phase: Phase,
    k: int,
)
    requires
        0 <= layer < layers,
        0 <= t < n,
        0 <= k < phase_steps(phase, layer, t, prefix, sub_norms).len(),
    ensures
        pass_steps(layers, n, prefix, sub_norms, check_output).contains(
            phase_steps(phase, layer, t, prefix, sub_norms)[k],
        ),
{
    let x = phase_steps(phase, layer, t, prefix, sub_norms)[k];
    lemma_token_done(phase, layer, n, prefix, sub_norms, t, x);
    lemma_phase_done(phase, layer, n, prefix, sub_norms, x);
    lemma_layer_done(layers, layer, n, prefix, sub_norms, x);
    lemma_pass_done(layers, n, prefix, sub_norms, check_output, x);
}

/// Every token is attended for in every layer: it is normalised, rotated for its position
/// behind what the cache held, stored, and attends to all positions up to its own.
pub proof fn every_token_attends(
    layers: int,
    n: int,
    prefix: int,
    sub_norms: bool,
    check_output: bool,
    layer: usize,
    token: usize,
)
    requires
        layer < layers,
        token < n,
        0 <= prefix,
        prefix + n <= usize::MAX,
    ensures
        pass_steps(layers, n, prefix, sub_norms, check_output).contains(
            Step::AttnNorm { layer, token },
        ),
        pass_steps(layers, n, prefix, sub_norms, check_output).contains(
            Step::Rope { layer, token, position: (prefix + token) as usize },
        ),
        pass_steps(layers, n, prefix, sub_norms, check_output).contains(
            Step::Append { layer, token },
        ),
        pass_steps(layers, n, prefix, sub_norms, check_output).contains(
            Step::Attend { layer, token, window: (prefix + token + 1) as usize },
        ),
{
    let l = layer as int;
    let t = token as int;
    assert(phase_steps(Phase::Normalise, l, t, prefix, sub_norms)[0] == Step::AttnNorm { layer, token });
    lemma_step_done(layers, n, prefix, sub_norms, check_output, l, t, Phase::Normalise, 0);
    assert(phase_steps(Phase::Store, l, t, prefix, sub_norms)[0] == Step::Rope { layer, token, position: (prefix + token) as usize });
    lemma_step_done(layers, n, prefix, sub_norms, check_output, l, t, Phase::Store, 0);
    assert(phase_steps(Phase::Store, l, t, prefix, sub_norms)[1] == Step::Append { layer, token });
    lemma_step_done(layers, n, prefix, sub_norms, check_output, l, t, Phase::Store, 1);
    assert(phase_steps(Phase::Attend, l, t, prefix, sub_norms)[0] == Step::Attend { layer, token, window: (prefix + token + 1) as usize });
    lemma_step_done(layers, n, prefix, sub_norms, check_output, l, t, Phase::Attend, 0);
}

/// In every layer what attention gave a token is added, and so is what the feed-forward half
/// gave, after it was normalised and activated; the hidden state is checked.
pub proof fn every_token_is_fed_forward(
    layers: int,
    n: int,
    prefix: int,
    sub_norms: bool,
    check_output: bool,
    layer: usize,
    token: usize,
)
    requires
        layer < layers,
        token < n,
        0 <= prefix,
        prefix + n <= usize::MAX,
    ensures
        pass_steps(layers, n, prefix, sub_norms, check_output).contains(
            Step::AddAttn { layer, token },
        ),
        pass_steps(layers, n, prefix, sub_norms, check_output).contains(
            Step::FfnNorm { layer, token },
        ),
        pass_steps(layers, n, prefix, sub_norms, check_output).contains(
            Step::Activate { layer, token },
        ),
        pass_steps(layers, n, prefix, sub_norms, check_output).contains(
            Step::AddFfn { layer, token },
        ),
        pass_steps(layers, n, prefix, sub_norms, check_output).contains(
            Step::CheckHidden { layer, token },
        ),
{
    let l = layer as int;
    let t = token as int;
    assert(phase_steps(Phase::AddAttention, l, t, prefix, sub_norms)[0] == Step::AddAttn { layer, token });
    lemma_step_done(layers, n, prefix, sub_norms, check_output, l, t, Phase::AddAttention, 0);
    assert(phase_steps(Phase::AddAttention, l, t, prefix, sub_norms)[1] == Step::FfnNorm { layer, token });
    lemma_step_done(layers, n, prefix, sub_norms, check_output, l, t, Phase::AddAttention, 1);
    assert(phase_steps(Phase::Activate, l, t, prefix, sub_norms)[0] == Step::Activate { layer, token });
    lemma_step_done(layers, n, prefix, sub_norms, check_output, l, t, Phase::Activate, 0);
    assert(phase_steps(Phase::AddFeedForward, l, t, prefix, sub_norms)[0] == Step::AddFfn { layer, token });
    lemma_step_done(layers, n, prefix, sub_norms, check_output, l, t, Phase::AddFeedForward, 0);
    assert(phase_steps(Phase::AddFeedForward, l, t, prefix, sub_norms)[1] == Step::CheckHidden { layer, token });
    lemma_step_done(layers, n, prefix, sub_norms, check_output, l, t, Phase::AddFeedForward, 1);
}

/// A model with norms inside its halves applies both to every token in every layer.
pub proof fn inner_norms_are_applied(
    layers: int,
    n: int,
    prefix: int,
    sub_norms: bool,
    check_output: bool,
    layer: usize,
    token: usize,
)
    requires
        layer < layers,
        token < n,
        0 <= prefix,
        prefix + n <= usize::MAX,
        sub_norms,
    ensures
        pass_steps(layers, n, prefix, sub_norms, check_output).contains(
            Step::AttnSubNorm { layer, token },
        ),
        pass_steps(layers, n, prefix, sub_norms, check_output).contains(
            Step::FfnSubNorm { layer, token },
        ),
{
    let l = layer as int;
    let t = token as int;
    assert(phase_steps(Phase::Attend, l, t, prefix, sub_norms)[1] == Step::AttnSubNorm { layer, token });
    lemma_step_done(layers, n, prefix, sub_norms, check_output, l, t, Phase::Attend, 1);
    assert(phase_steps(Phase::Activate, l, t, prefix, sub_norms)[1] == Step::FfnSubNorm { layer, token });
    lemma_step_done(layers, n, prefix, sub_norms, check_output, l, t, Phase::Activate, 1);
}

/// Every layer projects four times for all tokens, reads the cache and is reported.
pub proof fn every_layer_projects(
    layers: int,
    n: int,
    prefix: int,
    sub_norms: bool,
    check_output: bool,
    layer: usize,
)
    requires
        layer < layers,
    ensures
        pass_steps(layers, n, prefix, sub_norms, check_output).contains(
            Step::ProjectQkv { layer },
        ),
        pass_steps(layers, n, prefix, sub_norms, check_output).contains(
            Step::ReadCache { layer },
        ),
        pass_steps(layers, n, prefix, sub_norms, check_output).contains(
            Step::ProjectAttnOutput { layer },
        ),
        pass_steps(layers, n, prefix, sub_norms, check_output).contains(
            Step::ProjectGateUp { layer },
        ),
        pass_steps(layers, n, prefix, sub_norms, check_output).contains(
            Step::ProjectDown { layer },
        ),
        pass_steps(layers, n, prefix, sub_norms, check_output).contains(
            Step::LayerDone { layer },
        ),
{
    let l = layer as int;
    lemma_projections_done(l, n, prefix, sub_norms);
    lemma_whole(layers, l, n, prefix, sub_norms, check_output, Step::ProjectQkv { layer });
    lemma_whole(layers, l, n, prefix, sub_norms, check_output, Step::ReadCache { layer });
    lemma_whole(layers, l, n, prefix, sub_norms, check_output, Step::ProjectAttnOutput { layer });
    lemma_whole(layers, l, n, prefix, sub_norms, check_output, Step::ProjectGateUp { layer });
    lemma_whole(layers, l, n, prefix, sub_norms, check_output, Step::ProjectDown { layer });
    lemma_whole(layers, l, n, prefix, sub_norms, check_output, Step::LayerDone { layer });
}

/// A pass begins with the embedding of every token, and ends with the output, checked
/// where that is asked for.
pub proof fn passes_begin_and_end(
    layers: int,
    n: int,
    prefix: int,
    sub_norms: bool,
    check_output: bool,
    token: usize,
)
    requires
        token < n,
    ensures
        pass_steps(layers, n, prefix, sub_norms, check_output)[token as int] == (Step::Embed {
            token,
        }),
        pass_steps(layers, n, prefix, sub_norms, check_output).last() == if check_output {
            Step::CheckOutput
        } else {
            Step::OutputNorm
        },
        check_output ==> pass_steps(
            layers,
            n,
            prefix,
            sub_norms,
            check_output,
        ).drop_last().last() == Step::OutputNorm,
{
    assert(embed_steps(n)[token as int] == Step::Embed { token });
}

/// Without norms inside its halves a model applies none.
pub proof fn inner_norms_are_left_out(
    layers: int,
    n: int,
    prefix: int,
    check_output: bool,
    i: int,
)
    requires
        0 <= n,
        0 <= i < pass_steps(layers, n, prefix, false, check_output).len(),
    ensures
        !(pass_steps(layers, n, prefix, false, check_output)[i] is AttnSubNorm),
        !(pass_steps(layers, n, prefix, false, check_output)[i] is FfnSubNorm),
{
    let steps = pass_steps(layers, n, prefix, false, check_output);
    let m = layers_steps(layers, n, prefix, false);
    lemma_layers_plain(layers, n, prefix);
    if i < n {
        assert(steps[i] == embed_steps(n)[i]);
    } else if i < n + m.len() {
        assert(steps[i] == m[i - n]);
    }
}

/// No step is a norm inside a half.
spec fn is_plain(s: Seq<Step>) -> bool {
    forall|i: int|
        0 <= i < s.len() ==> !((#[trigger] s[i]) is AttnSubNorm) && !(s[i] is FfnSubNorm)
}

proof fn lemma_plain_joins(a: Seq<Step>, b: Seq<Step>)
    requires
        is_plain(a),
        is_plain(b),
    ensures
        is_plain(a + b),
{
    let s = a + b;
    assert forall|i: int| 0 <= i < s.len() implies !((#[trigger] s[i]) is AttnSubNorm) && !(
    s[i] is FfnSubNorm) by {
        if i < a.len() {
            assert(s[i] == a[i]);
        } else {
            assert(s[i] == b[i - a.len()]);
        }
    }
}

proof fn lemma_tokens_plain(phase: Phase, layer: int, n: int, prefix: int)
    ensures
        is_plain(token_steps(phase, layer, n, prefix, false)),
    decreases n,
{
    if n > 0 {
        lemma_tokens_plain(phase, layer, n - 1, prefix);
        assert(is_plain(phase_steps(phase, layer, n - 1, prefix, false)));
        lemma_plain_joins(
            token_steps(phase, layer, n - 1, prefix, false),
            phase_steps(phase, layer, n - 1, prefix, false),
        );
    }
}

proof fn lemma_layers_plain(layers: int, n: int, prefix: int)
    ensures
        is_plain(layers_steps(layers, n, prefix, false)),
    decreases layers,
{
    if layers > 0 {
        let k = layers - 1;
        lemma_layers_plain(k, n, prefix);
        lemma_tokens_plain(Phase::Normalise, k, n, prefix);
        lemma_tokens_plain(Phase::Store, k, n, prefix);
        lemma_tokens_plain(Phase::Attend, k, n, prefix);
        lemma_tokens_plain(Phase::AddAttention, k, n, prefix);
        lemma_tokens_plain(Phase::Activate, k, n, prefix);
        lemma_tokens_plain(Phase::AddFeedForward, k, n, prefix);
        let l = k as usize;
        let projected = token_steps(Phase::Normalise, k, n, prefix, false).push(
            Step::ProjectQkv { layer: l },
        );
        let store = token_steps(Phase::Store, k, n, prefix, false);
        lemma_plain_joins(projected, store);
        let attended = token_steps(Phase::Attend, k, n, prefix, false).push(
            Step::ProjectAttnOutput { layer: l },
        );
        let add = token_steps(Phase::AddAttention, k, n, prefix, false);
        lemma_plain_joins(attended, add);
        let added = (attended + add).push(Step::ProjectGateUp { layer: l });
        let activate = token_steps(Phase::Activate, k, n, prefix, false);
        lemma_plain_joins(added, activate);
        let activated = (added + activate).push(Step::ProjectDown { layer: l });
        let last = token_steps(Phase::AddFeedForward, k, n, prefix, false);
        lemma_plain_joins(activated, last);
        let mixed = mixing_steps(k, n, prefix, false);
        assert(is_plain(mixed));
        lemma_plain_joins((projected + store).push(Step::ReadCache { layer: l }), mixed);
        lemma_plain_joins(layers_steps(k, n, prefix, false), layer_steps(k, n, prefix, false));
    }
}

proof fn lemma_whole(
    layers: int,
    layer: int,
    n: int,
    prefix: int,
    sub_norms: bool,
    check_output: bool,
    x: Step,
)
    requires
        0 <= layer < layers,
        layer_steps(layer, n, prefix, sub_norms).contains(x),
    ensures
        pass_steps(layers, n, prefix, sub_norms, check_output).contains(x),
{
    lemma_layer_done(layers, layer, n, prefix, sub_norms, x);
    lemma_pass_done(layers, n, prefix, sub_norms, check_output, x);
}

/// Where a step of a pass without a cache stands: the embeddings first, then layer by
/// layer five stages of all tokens each, and last the output of the last token.
pub proof fn uncached_stages_have_their_places(layers: int, n: int, layer: int, t: int)
    requires
        0 <= layer < layers <= usize::MAX,
        0 <= t < n <= u32::MAX,
        n < usize::MAX,
    ensures
        ({
            let s = uncached_steps(layers, n);
            let at = n + 5 * n * layer;
            let l = layer as usize;
            let k = t as usize;
            &&& s.len() == n + 5 * n * layers + 1
            &&& s[t] == (PassStep::Embed { token: k })
            &&& 0 <= at && at + 5 * n <= n + 5 * n * layers
            &&& s[at + t] == (PassStep::AttnNorm { layer: l, token: k })
            &&& s[at + n + t] == (PassStep::Project { layer: l, token: k, position: t as u32 })
            &&& s[at + 2 * n + t] == (PassStep::Attend {
                layer: l,
                token: k,
                window: (t + 1) as usize,
            })
            &&& s[at + 3 * n + t] == (PassStep::AddAttn { layer: l, token: k })
            &&& s[at + 4 * n + t] == (PassStep::AddFfn { layer: l, token: k })
            &&& s.last() == (PassStep::OutputNorm { token: (n - 1) as usize })
        }),
{
    lemma_pass_layers(layers, n, layer);
    let from = 5 * n * layer;
    assert(0 <= from && from + 5 * n <= 5 * n * layers) by (nonlinear_arith)
        requires
            0 <= layer < layers,
            n >= 0,
            from == 5 * n * layer,
    ;
    lemma_places(pass_layers(layers, n), 5 * n * layers, layer, n, from, t);
}

/// The steps of one layer, in a list that has them from a place on.
proof fn lemma_places(m: Seq<PassStep>, size: int, layer: int, n: int, from: int, t: int)
    requires
        0 <= layer <= usize::MAX,
        0 <= t < n <= u32::MAX,
        n < usize::MAX,
        m.len() == size,
        0 <= from,
        from + 5 * n <= size,
        forall|i: int|
            0 <= i < 5 * n ==> #[trigger] pass_layer(layer, n)[i] == m[from + i],
    ensures
        ({
            let s = (Seq::new(n as nat, |t: int| PassStep::Embed { token: t as usize }) + m).push(
                PassStep::OutputNorm { token: (n - 1) as usize },
            );
            let at = n + from;
            let l = layer as usize;
            let k = t as usize;
            &&& s.len() == n + size + 1
            &&& s[t] == (PassStep::Embed { token: k })
            &&& s[at + t] == (PassStep::AttnNorm { layer: l, token: k })
            &&& s[at + n + t] == (PassStep::Project { layer: l, token: k, position: t as u32 })
            &&& s[at + 2 * n + t] == (PassStep::Attend {
                layer: l,
                token: k,
                window: (t + 1) as usize,
            })
            &&& s[at + 3 * n + t] == (PassStep::AddAttn { layer: l, token: k })
            &&& s[at + 4 * n + t] == (PassStep::AddFfn { layer: l, token: k })
            &&& s.last() == (PassStep::OutputNorm { token: (n - 1) as usize })
        }),
{
    let p = pass_layer(layer, n);
    assert(p.len() == 5 * n);
    assert(p[t] == m[from + t]);
    assert(p[n + t] == m[from + (n + t)]);
    assert(p[2 * n + t] == m[from + (2 * n + t)]);
    assert(p[3 * n + t] == m[from + (3 * n + t)]);
    assert(p[4 * n + t] == m[from + (4 * n + t)]);
}

proof fn lemma_pass_layers(layers: int, n: int, layer: int)
    requires
        0 <= layer < layers,
        0 <= n,
    ensures
        pass_layers(layers, n).len() == 5 * n * layers,
        pass_layers(layers, n).subrange(5 * n * layer, 5 * n * layer + 5 * n) == pass_layer(
            layer,
            n,
        ),
        forall|i: int|
            0 <= i < 5 * n ==> #[trigger] pass_layer(layer, n)[i] == pass_layers(layers, n)[5 * n
                * layer + i],
    decreases layers,
{
    let m = pass_layers(layers, n);
    let a = pass_layers(layers - 1, n);
    let b = pass_layer(layers - 1, n);
    assert(b.len() == 5 * n);
    assert(5 * n * layers == 5 * n * (layers - 1) + 5 * n) by (nonlinear_arith);
    if layers == 1 {
        assert(a.len() == 0);
        assert(5 * n * layer == 0) by (nonlinear_arith)
            requires
                layer == 0,
        ;
        assert(m.len() == 5 * n);
        assert(m.subrange(0, 5 * n) =~= b);
    } else if layer == layers - 1 {
        lemma_pass_layers(layers - 1, n, 0);
        assert(m.subrange(5 * n * layer, 5 * n * layer + 5 * n) =~= b);
    } else {
        lemma_pass_layers(layers - 1, n, layer);
        assert(5 * n * layer + 5 * n <= 5 * n * (layers - 1)) by (nonlinear_arith)
            requires
                layer < layers - 1,
                n >= 0,
        ;
        assert(5 * n * layer >= 0) by (nonlinear_arith)
            requires
                layer >= 0,
                n >= 0,
        ;
        assert(m.subrange(5 * n * layer, 5 * n * layer + 5 * n) =~= a.subrange(
            5 * n * layer,
            5 * n * layer + 5 * n,
        ));
    }
    assert forall|i: int| 0 <= i < 5 * n implies #[trigger] pass_layer(layer, n)[i] == m[5 * n
        * layer + i] by {
        assert(m.subrange(5 * n * layer, 5 * n * layer + 5 * n)[i] == m[5 * n * layer + i]);
    }
}

/// The classic Llama family rotates neighbours together, and the others values half of
/// the rotated width apart.
pub proof fn families_rotate_their_pairs(variant: ForwardVariant, n_rot: int, j: int)
    requires
        n_rot > 0,
        n_rot % 2 == 0,
        0 <= j < n_rot / 2,
    ensures
        variant == ForwardVariant::VanillaLlama ==> rope_pair(n_rot, rope_of(variant), j) == (
            2 * j,
            2 * j + 1,
        ),
        variant != ForwardVariant::VanillaLlama ==> rope_pair(n_rot, rope_of(variant), j) == (
            j,
            n_rot / 2 + j,
        ),
{
}

} // verus!
