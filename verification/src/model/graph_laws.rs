//! What the parts of a model have to do with each other: names, shapes, and the numbers of
//! the metadata.

use crate::gguf::bytes::le16;
use crate::gguf::tensor::{lemma_product_nonneg, product, products_fit, TensorView};
use crate::gguf::types::GgmlType;
use crate::model::architecture::{
    family_of, family_prefix, family_roles, family_strings, family_variant, ArchitectureFamily,
    ForwardVariant, LayerTensorRole,
};
use crate::model::config::{config_fault, is_config, ModelConfig, Table};
use crate::model::graph::{
    bad_q4k_block, bad_q6k_block, bias_fault, biases_fault, contract_fault, core_roles, is_layer,
    layer_fault, layer_name, layers_fault, lookup, missing_role, named, names_a_projection_bias,
    place_fault, places_fault, q4k_fault, q4k_faults, q6k_fault, q6k_faults, repeated_role,
    repeats_a_name, role_fault, role_shape, stated_dims, storage_fault, table_fault, tensor_in,
    tensors_fault, values_fault, Dims, LayerWeights, ModelGraph,
};
use crate::model::primitives::{f32_tensor_fault, f32_values, finite_half};
use crate::text::dec;
use vstd::prelude::*;

verus! {

/// The tensors of a layer are called by what they are, with the layer's number in front.
pub proof fn tensors_are_called_by_their_roles(layer: int)
    ensures
        layer_name(layer, LayerTensorRole::AttnNorm) == "blk."@ + dec(layer)
            + ".attn_norm.weight"@,
        layer_name(layer, LayerTensorRole::AttnSubNorm) == "blk."@ + dec(layer)
            + ".attn_sub_norm.weight"@,
        layer_name(layer, LayerTensorRole::AttnQ) == "blk."@ + dec(layer)
            + ".attn_q.weight"@,
        layer_name(layer, LayerTensorRole::AttnQBias) == "blk."@ + dec(layer)
            + ".attn_q.bias"@,
        layer_name(layer, LayerTensorRole::AttnK) == "blk."@ + dec(layer)
            + ".attn_k.weight"@,
        layer_name(layer, LayerTensorRole::AttnKBias) == "blk."@ + dec(layer)
            + ".attn_k.bias"@,
        layer_name(layer, LayerTensorRole::AttnV) == "blk."@ + dec(layer)
            + ".attn_v.weight"@,
        layer_name(layer, LayerTensorRole::AttnVBias) == "blk."@ + dec(layer)
            + ".attn_v.bias"@,
        layer_name(layer, LayerTensorRole::AttnOutput) == "blk."@ + dec(layer)
            + ".attn_output.weight"@,
        layer_name(layer, LayerTensorRole::FfnNorm) == "blk."@ + dec(layer)
            + ".ffn_norm.weight"@,
        layer_name(layer, LayerTensorRole::FfnSubNorm) == "blk."@ + dec(layer)
            + ".ffn_sub_norm.weight"@,
        layer_name(layer, LayerTensorRole::FfnGate) == "blk."@ + dec(layer)
            + ".ffn_gate.weight"@,
        layer_name(layer, LayerTensorRole::FfnUp) == "blk."@ + dec(layer)
            + ".ffn_up.weight"@,
        layer_name(layer, LayerTensorRole::FfnDown) == "blk."@ + dec(layer)
            + ".ffn_down.weight"@,
{
    reveal_strlit(".");
    reveal_strlit(".attn_k.bias");
    reveal_strlit(".attn_k.weight");
    reveal_strlit(".attn_norm.weight");
    reveal_strlit(".attn_output.weight");
    reveal_strlit(".attn_q.bias");
    reveal_strlit(".attn_q.weight");
    reveal_strlit(".attn_sub_norm.weight");
    reveal_strlit(".attn_v.bias");
    reveal_strlit(".attn_v.weight");
    reveal_strlit(".ffn_down.weight");
    reveal_strlit(".ffn_gate.weight");
    reveal_strlit(".ffn_norm.weight");
    reveal_strlit(".ffn_sub_norm.weight");
    reveal_strlit(".ffn_up.weight");
    reveal_strlit("attn_k");
    reveal_strlit("attn_norm");
    reveal_strlit("attn_output");
    reveal_strlit("attn_q");
    reveal_strlit("attn_sub_norm");
    reveal_strlit("attn_v");
    reveal_strlit("bias");
    reveal_strlit("ffn_down");
    reveal_strlit("ffn_gate");
    reveal_strlit("ffn_norm");
    reveal_strlit("ffn_sub_norm");
    reveal_strlit("ffn_up");
    reveal_strlit("weight");
    assert("."@ + "attn_norm"@ + "."@ + "weight"@ =~= ".attn_norm.weight"@);
    assert("."@ + "attn_sub_norm"@ + "."@ + "weight"@ =~= ".attn_sub_norm.weight"@);
    assert("."@ + "attn_q"@ + "."@ + "weight"@ =~= ".attn_q.weight"@);
    assert("."@ + "attn_q"@ + "."@ + "bias"@ =~= ".attn_q.bias"@);
    assert("."@ + "attn_k"@ + "."@ + "weight"@ =~= ".attn_k.weight"@);
    assert("."@ + "attn_k"@ + "."@ + "bias"@ =~= ".attn_k.bias"@);
    assert("."@ + "attn_v"@ + "."@ + "weight"@ =~= ".attn_v.weight"@);
    assert("."@ + "attn_v"@ + "."@ + "bias"@ =~= ".attn_v.bias"@);
    assert("."@ + "attn_output"@ + "."@ + "weight"@ =~= ".attn_output.weight"@);
    assert("."@ + "ffn_norm"@ + "."@ + "weight"@ =~= ".ffn_norm.weight"@);
    assert("."@ + "ffn_sub_norm"@ + "."@ + "weight"@ =~= ".ffn_sub_norm.weight"@);
    assert("."@ + "ffn_gate"@ + "."@ + "weight"@ =~= ".ffn_gate.weight"@);
    assert("."@ + "ffn_up"@ + "."@ + "weight"@ =~= ".ffn_up.weight"@);
    assert("."@ + "ffn_down"@ + "."@ + "weight"@ =~= ".ffn_down.weight"@);
    assert(layer_name(layer, LayerTensorRole::AttnNorm) =~= "blk."@ + dec(layer)
        + ".attn_norm.weight"@);
    assert(layer_name(layer, LayerTensorRole::AttnSubNorm) =~= "blk."@ + dec(layer)
        + ".attn_sub_norm.weight"@);
    assert(layer_name(layer, LayerTensorRole::AttnQ) =~= "blk."@ + dec(layer)
        + ".attn_q.weight"@);
    assert(layer_name(layer, LayerTensorRole::AttnQBias) =~= "blk."@ + dec(layer)
        + ".attn_q.bias"@);
    assert(layer_name(layer, LayerTensorRole::AttnK) =~= "blk."@ + dec(layer)
        + ".attn_k.weight"@);
    assert(layer_name(layer, LayerTensorRole::AttnKBias) =~= "blk."@ + dec(layer)
        + ".attn_k.bias"@);
    assert(layer_name(layer, LayerTensorRole::AttnV) =~= "blk."@ + dec(layer)
        + ".attn_v.weight"@);
    assert(layer_name(layer, LayerTensorRole::AttnVBias) =~= "blk."@ + dec(layer)
        + ".attn_v.bias"@);
    assert(layer_name(layer, LayerTensorRole::AttnOutput) =~= "blk."@ + dec(layer)
        + ".attn_output.weight"@);
    assert(layer_name(layer, LayerTensorRole::FfnNorm) =~= "blk."@ + dec(layer)
        + ".ffn_norm.weight"@);
    assert(layer_name(layer, LayerTensorRole::FfnSubNorm) =~= "blk."@ + dec(layer)
        + ".ffn_sub_norm.weight"@);
    assert(layer_name(layer, LayerTensorRole::FfnGate) =~= "blk."@ + dec(layer)
        + ".ffn_gate.weight"@);
    assert(layer_name(layer, LayerTensorRole::FfnUp) =~= "blk."@ + dec(layer)
        + ".ffn_up.weight"@);
    assert(layer_name(layer, LayerTensorRole::FfnDown) =~= "blk."@ + dec(layer)
        + ".ffn_down.weight"@);
}

/// The first tensor with a name is found, and none where no tensor has it.
pub proof fn tensors_are_found_by_name(ts: Seq<TensorView<'_>>, name: Seq<char>, n: int)
    requires
        0 <= n <= ts.len(),
    ensures
        match named(ts, name, n) {
            Some(i) => {
                &&& 0 <= i < n
                &&& ts[i].name@ == name
                &&& forall|j: int| 0 <= j < i ==> (#[trigger] ts[j]).name@ != name
            },
            None => forall|j: int| 0 <= j < n ==> (#[trigger] ts[j]).name@ != name,
        },
    decreases n,
{
    if n > 0 {
        tensors_are_found_by_name(ts, name, n - 1);
    }
}

proof fn lemma_places(ts: Seq<TensorView<'_>>, d: Dims, layer: int, n: int)
    requires
        0 <= n <= d.roles.len(),
    ensures
        places_fault(ts, d, layer, n) is None <==> forall|i: int|
            0 <= i < n ==> place_fault(ts, d, layer, #[trigger] d.roles[i]) is None,
    decreases n,
{
    if n > 0 {
        lemma_places(ts, d, layer, n - 1);
    }
}

/// A role that a checked layer has is filled by a tensor of its name.
proof fn lemma_placed(ts: Seq<TensorView<'_>>, d: Dims, layer: int, role: LayerTensorRole)
    requires
        layer_fault(ts, d, layer) is None,
        d.roles.contains(role),
    ensures
        tensor_in(ts, layer, role).name@ == layer_name(layer, role),
        tensor_in(ts, layer, role).shape@ == role_shape(d, role),
{
    lemma_places(ts, d, layer, d.roles.len() as int);
    let i = d.roles.index_of(role);
    assert(place_fault(ts, d, layer, d.roles[i]) is None);
    tensors_are_found_by_name(ts, layer_name(layer, role), ts.len() as int);
}

/// The parts of a layer are the tensors with their names.
pub proof fn layers_hold_their_tensors(
    w: LayerWeights<'_>,
    ts: Seq<TensorView<'_>>,
    d: Dims,
    layer: int,
    family: ArchitectureFamily,
)
    requires
        is_layer(w, ts, d, layer),
        d.roles == family_roles(family),
        layer_fault(ts, d, layer) is None,
    ensures
        w.attn_norm.name@ == "blk."@ + dec(layer) + ".attn_norm.weight"@,
        w.attn_q.name@ == "blk."@ + dec(layer) + ".attn_q.weight"@,
        w.attn_k.name@ == "blk."@ + dec(layer) + ".attn_k.weight"@,
        w.attn_v.name@ == "blk."@ + dec(layer) + ".attn_v.weight"@,
        w.attn_output.name@ == "blk."@ + dec(layer) + ".attn_output.weight"@,
        w.ffn_norm.name@ == "blk."@ + dec(layer) + ".ffn_norm.weight"@,
        w.ffn_gate.name@ == "blk."@ + dec(layer) + ".ffn_gate.weight"@,
        w.ffn_up.name@ == "blk."@ + dec(layer) + ".ffn_up.weight"@,
        w.ffn_down.name@ == "blk."@ + dec(layer) + ".ffn_down.weight"@,
        w.attn_q_bias is Some ==> w.attn_q_bias->0.name@ == "blk."@ + dec(layer)
            + ".attn_q.bias"@,
        w.attn_k_bias is Some ==> w.attn_k_bias->0.name@ == "blk."@ + dec(layer)
            + ".attn_k.bias"@,
        w.attn_v_bias is Some ==> w.attn_v_bias->0.name@ == "blk."@ + dec(layer)
            + ".attn_v.bias"@,
        w.attn_sub_norm is Some ==> w.attn_sub_norm->0.name@ == "blk."@ + dec(layer)
            + ".attn_sub_norm.weight"@,
        w.ffn_sub_norm is Some ==> w.ffn_sub_norm->0.name@ == "blk."@ + dec(layer)
            + ".ffn_sub_norm.weight"@,
        w.attn_q_bias is Some <==> family == ArchitectureFamily::Qwen2,
        w.attn_q_bias_f32 is Some <==> family == ArchitectureFamily::Qwen2,
        w.attn_k_bias is Some <==> family == ArchitectureFamily::Qwen2,
        w.attn_k_bias_f32 is Some <==> family == ArchitectureFamily::Qwen2,
        w.attn_v_bias is Some <==> family == ArchitectureFamily::Qwen2,
        w.attn_v_bias_f32 is Some <==> family == ArchitectureFamily::Qwen2,
        w.attn_sub_norm is Some <==> family == ArchitectureFamily::BitNet,
        w.attn_sub_norm_f32 is Some <==> family == ArchitectureFamily::BitNet,
        w.ffn_sub_norm is Some <==> family == ArchitectureFamily::BitNet,
        w.ffn_sub_norm_f32 is Some <==> family == ArchitectureFamily::BitNet,
        w.attn_q_bias is Some ==> w.attn_q_bias_f32->0@ == f32_values(w.attn_q_bias->0.data@),
        w.attn_k_bias is Some ==> w.attn_k_bias_f32->0@ == f32_values(w.attn_k_bias->0.data@),
        w.attn_v_bias is Some ==> w.attn_v_bias_f32->0@ == f32_values(w.attn_v_bias->0.data@),
        w.attn_sub_norm is Some ==> w.attn_sub_norm_f32->0@ == f32_values(w.attn_sub_norm->0.data@),
        w.ffn_sub_norm is Some ==> w.ffn_sub_norm_f32->0@ == f32_values(w.ffn_sub_norm->0.data@),
        w.attn_norm_f32@ == f32_values(w.attn_norm.data@),
        w.ffn_norm_f32@ == f32_values(w.ffn_norm.data@),
        w.index == layer,
        w.attn_norm.shape@ == seq![d.embedding as u64],
        w.ffn_norm.shape@ == seq![d.embedding as u64],
{
    tensors_are_called_by_their_roles(layer);
    families_have_their_tensors(family);
    lemma_placed(ts, d, layer, LayerTensorRole::AttnNorm);
    lemma_placed(ts, d, layer, LayerTensorRole::AttnQ);
    lemma_placed(ts, d, layer, LayerTensorRole::AttnK);
    lemma_placed(ts, d, layer, LayerTensorRole::AttnV);
    lemma_placed(ts, d, layer, LayerTensorRole::AttnOutput);
    lemma_placed(ts, d, layer, LayerTensorRole::FfnNorm);
    lemma_placed(ts, d, layer, LayerTensorRole::FfnGate);
    lemma_placed(ts, d, layer, LayerTensorRole::FfnUp);
    lemma_placed(ts, d, layer, LayerTensorRole::FfnDown);
    if family == ArchitectureFamily::Qwen2 {
        lemma_placed(ts, d, layer, LayerTensorRole::AttnQBias);
        lemma_placed(ts, d, layer, LayerTensorRole::AttnKBias);
        lemma_placed(ts, d, layer, LayerTensorRole::AttnVBias);
    }
    if family == ArchitectureFamily::BitNet {
        lemma_placed(ts, d, layer, LayerTensorRole::AttnSubNorm);
        lemma_placed(ts, d, layer, LayerTensorRole::FfnSubNorm);
    }
}

/// Every family has one tensor for each step of a layer. Only BitNet has norms within the
/// halves, and only Qwen2 has biases. No family asks for a tensor twice.
pub proof fn families_have_their_tensors(family: ArchitectureFamily)
    ensures
        family_roles(family).no_duplicates(),
        forall|role: LayerTensorRole| #[trigger]
            family_roles(family).contains(role) <==> match role {
                LayerTensorRole::AttnSubNorm => family == ArchitectureFamily::BitNet,
                LayerTensorRole::FfnSubNorm => family == ArchitectureFamily::BitNet,
                LayerTensorRole::AttnQBias => family == ArchitectureFamily::Qwen2,
                LayerTensorRole::AttnKBias => family == ArchitectureFamily::Qwen2,
                LayerTensorRole::AttnVBias => family == ArchitectureFamily::Qwen2,
                _ => true,
            },
{
    let r = family_roles(family);
    match family {
        ArchitectureFamily::BitNet => {
            assert(r[0] == LayerTensorRole::AttnNorm && r[1] == LayerTensorRole::AttnSubNorm && r[2]
                == LayerTensorRole::AttnQ && r[3] == LayerTensorRole::AttnK && r[4]
                == LayerTensorRole::AttnV && r[5] == LayerTensorRole::AttnOutput && r[6]
                == LayerTensorRole::FfnNorm && r[7] == LayerTensorRole::FfnSubNorm && r[8]
                == LayerTensorRole::FfnGate && r[9] == LayerTensorRole::FfnUp && r[10]
                == LayerTensorRole::FfnDown);
        },
        ArchitectureFamily::Llama => {
            assert(r[0] == LayerTensorRole::AttnNorm && r[1] == LayerTensorRole::AttnQ && r[2]
                == LayerTensorRole::AttnK && r[3] == LayerTensorRole::AttnV && r[4]
                == LayerTensorRole::AttnOutput && r[5] == LayerTensorRole::FfnNorm && r[6]
                == LayerTensorRole::FfnGate && r[7] == LayerTensorRole::FfnUp && r[8]
                == LayerTensorRole::FfnDown);
        },
        ArchitectureFamily::Qwen2 => {
            assert(r[0] == LayerTensorRole::AttnNorm && r[1] == LayerTensorRole::AttnQ && r[2]
                == LayerTensorRole::AttnQBias && r[3] == LayerTensorRole::AttnK && r[4]
                == LayerTensorRole::AttnKBias && r[5] == LayerTensorRole::AttnV && r[6]
                == LayerTensorRole::AttnVBias && r[7] == LayerTensorRole::AttnOutput && r[8]
                == LayerTensorRole::FfnNorm && r[9] == LayerTensorRole::FfnGate && r[10]
                == LayerTensorRole::FfnUp && r[11] == LayerTensorRole::FfnDown);
        },
    }
}

/// A family is that of a name exactly where it claims the name.
pub proof fn families_claim_their_names(name: Seq<char>, family: ArchitectureFamily)
    ensures
        family_of(name) == Some(family) <==> family_strings(family).contains(name),
        family_of(name) == Some(family) && family != ArchitectureFamily::BitNet ==> family_prefix(
            family,
            name,
        ) == name,
        family_prefix(ArchitectureFamily::BitNet, name) == name,
{
    let s = family_strings(family);
    reveal_strlit("bitnet-b1.58");
    reveal_strlit("bitnet-25");
    reveal_strlit("bitnet");
    reveal_strlit("llama");
    reveal_strlit("qwen2");
    match family {
        ArchitectureFamily::BitNet => {
            assert(s[0] == "bitnet-b1.58"@ && s[1] == "bitnet-25"@ && s[2] == "bitnet"@);
        },
        ArchitectureFamily::Llama => {
            assert(s[0] == "llama"@);
        },
        ArchitectureFamily::Qwen2 => {
            assert(s[0] == "qwen2"@);
        },
    }
    assert("bitnet"@.len() == 6 && "bitnet-25"@.len() == 9 && "bitnet-b1.58"@.len() == 12);
    assert("llama"@[0] == 'l' && "qwen2"@[0] == 'q' && "bitnet"@[0] == 'b' && "bitnet-25"@[0] == 'b'
        && "bitnet-b1.58"@[0] == 'b');
}

/// What a step of a layer gives is what the next one takes: the projections take what the
/// norm gives, the output projection takes what the queries are as wide as and gives back
/// the width of the layer, as the feed-forward half does; a bias is as long as what it is
/// added to, and a norm within a half as what it is applied to.
pub proof fn shapes_follow_the_flow(d: Dims)
    ensures
        ({
            let s = |role: LayerTensorRole| role_shape(d, role);
            &&& s(LayerTensorRole::AttnNorm)[0] == s(LayerTensorRole::AttnQ)[0]
            &&& s(LayerTensorRole::AttnNorm)[0] == s(LayerTensorRole::AttnK)[0]
            &&& s(LayerTensorRole::AttnNorm)[0] == s(LayerTensorRole::AttnV)[0]
            &&& s(LayerTensorRole::AttnK)[1] == s(LayerTensorRole::AttnV)[1]
            &&& s(LayerTensorRole::AttnK)[1] == d.kv as u64
            &&& s(LayerTensorRole::AttnQ)[1] == s(LayerTensorRole::AttnOutput)[0]
            &&& s(LayerTensorRole::AttnSubNorm) == seq![s(LayerTensorRole::AttnOutput)[0]]
            &&& s(LayerTensorRole::AttnOutput)[1] == d.embedding as u64
            &&& s(LayerTensorRole::AttnNorm)[0] == d.embedding as u64
            &&& s(LayerTensorRole::FfnNorm) == seq![s(LayerTensorRole::FfnGate)[0]]
            &&& s(LayerTensorRole::FfnNorm)[0] == d.embedding as u64
            &&& s(LayerTensorRole::FfnGate) == s(LayerTensorRole::FfnUp)
            &&& s(LayerTensorRole::FfnGate)[1] == s(LayerTensorRole::FfnDown)[0]
            &&& s(LayerTensorRole::FfnSubNorm) == seq![s(LayerTensorRole::FfnDown)[0]]
            &&& s(LayerTensorRole::FfnDown) == seq![d.feed_forward as u64, d.embedding as u64]
            &&& s(LayerTensorRole::AttnQBias) == seq![s(LayerTensorRole::AttnQ)[1]]
            &&& s(LayerTensorRole::AttnKBias) == seq![s(LayerTensorRole::AttnK)[1]]
            &&& s(LayerTensorRole::AttnVBias) == seq![s(LayerTensorRole::AttnV)[1]]
            &&& s(LayerTensorRole::AttnQ).len() == 2 && s(LayerTensorRole::AttnK).len() == 2
            &&& s(LayerTensorRole::AttnV).len() == 2 && s(LayerTensorRole::AttnOutput).len() == 2
            &&& s(LayerTensorRole::FfnGate).len() == 2 && s(LayerTensorRole::AttnNorm).len() == 1
        }),
{
}

/// The first block with a scale that is not finite is found: the scales of Q4_K stand at the
/// start of a block of 144 bytes, that of Q6_K at the end of one of 210.
pub proof fn first_bad_blocks_are_found(data: Seq<u8>, n: int)
    requires
        0 <= n,
    ensures
        match bad_q4k_block(data, n) {
            Some(b) => {
                &&& 0 <= b < n
                &&& !(finite_half(le16(data.skip(144 * b)) as u16) && finite_half(
                    le16(data.skip(144 * b + 2)) as u16,
                ))
                &&& bad_q4k_block(data, b) is None
            },
            None => forall|b: int|
                #![trigger data.skip(144 * b)]
                0 <= b < n ==> finite_half(le16(data.skip(144 * b)) as u16) && finite_half(
                    le16(data.skip(144 * b + 2)) as u16,
                ),
        },
        match bad_q6k_block(data, n) {
            Some(b) => {
                &&& 0 <= b < n
                &&& !finite_half(le16(data.skip(210 * b + 208)) as u16)
                &&& bad_q6k_block(data, b) is None
            },
            None => forall|b: int|
                0 <= b < n ==> finite_half(le16(#[trigger] data.skip(210 * b + 208)) as u16),
        },
    decreases n,
{
    if n > 0 {
        first_bad_blocks_are_found(data, n - 1);
    }
}

/// A tensor of blocks is stored whole exactly where its rows are made of whole blocks and it
/// has the bytes of all of them.
pub proof fn whole_blocks_are_stored(t: TensorView<'_>, elements: u64, bytes: u64, label: Seq<char>)
    requires
        elements > 0,
        products_fit(t.shape@),
        product(t.shape@) / (elements as int) * bytes <= usize::MAX,
    ensures
        storage_fault(t, elements, bytes, label) is None <==> {
            &&& t.shape@.len() > 0
            &&& t.shape@[0] % elements == 0
            &&& t.data@.len() == product(t.shape@) / (elements as int) * bytes
        },
{
}

/// A tensor in Q4_K or Q6_K is taken exactly where it is stored whole, 144 or 210 bytes for
/// each 256 weights, and all its scales are finite; other types are not looked at.
pub proof fn whole_finite_tensors_are_taken(t: TensorView<'_>)
    requires
        products_fit(t.shape@),
        product(t.shape@) <= usize::MAX,
    ensures
        t.ggml_type != GgmlType::Q4K ==> q4k_fault(t) is None,
        t.ggml_type != GgmlType::Q6K ==> q6k_fault(t) is None,
        t.ggml_type == GgmlType::Q4K ==> (q4k_fault(t) is None <==> {
            &&& t.shape@.len() > 0
            &&& t.shape@[0] % 256 == 0
            &&& t.data@.len() == product(t.shape@) / 256 * 144
            &&& forall|b: int|
                #![trigger t.data@.skip(144 * b)]
                0 <= b < t.data@.len() as int / 144 ==> finite_half(
                    le16(t.data@.skip(144 * b)) as u16,
                ) && finite_half(le16(t.data@.skip(144 * b + 2)) as u16)
        }),
        t.ggml_type == GgmlType::Q6K ==> (q6k_fault(t) is None <==> {
            &&& t.shape@.len() > 0
            &&& t.shape@[0] % 256 == 0
            &&& t.data@.len() == product(t.shape@) / 256 * 210
            &&& forall|b: int|
                0 <= b < t.data@.len() as int / 210 ==> finite_half(
                    le16(#[trigger] t.data@.skip(210 * b + 208)) as u16,
                )
        }),
{
    lemma_product_nonneg(t.shape@);
    whole_blocks_are_stored(t, 256, 144, "Q4_K"@);
    whole_blocks_are_stored(t, 256, 210, "Q6_K"@);
    first_bad_blocks_are_found(t.data@, t.data@.len() as int / 144);
    first_bad_blocks_are_found(t.data@, t.data@.len() as int / 210);
    if t.ggml_type == GgmlType::Q4K {
        match bad_q4k_block(t.data@, t.data@.len() as int / 144) {
            Some(b) => {
                assert(t.data@.skip(144 * b) == t.data@.skip(144 * b));
            },
            None => {},
        }
    }
    if t.ggml_type == GgmlType::Q6K {
        match bad_q6k_block(t.data@, t.data@.len() as int / 210) {
            Some(b) => {
                assert(t.data@.skip(210 * b + 208) == t.data@.skip(210 * b + 208));
            },
            None => {},
        }
    }
}

/// The biases that a layer can have are those on its queries, keys and values.
pub proof fn layers_have_three_biases(name: Seq<char>, blocks: int)
    ensures
        names_a_projection_bias(name, blocks) <==> exists|layer: int|
            0 <= layer < blocks && (name == "blk."@ + #[trigger] dec(layer) + ".attn_q.bias"@ || name
                == "blk."@ + dec(layer) + ".attn_k.bias"@ || name == "blk."@ + dec(layer)
                + ".attn_v.bias"@),
{
    assert forall|layer: int|
        layer_name(layer, LayerTensorRole::AttnQBias) == "blk."@ + #[trigger] dec(layer)
            + ".attn_q.bias"@ && layer_name(layer, LayerTensorRole::AttnKBias) == "blk."@ + dec(
            layer,
        ) + ".attn_k.bias"@ && layer_name(layer, LayerTensorRole::AttnVBias) == "blk."@ + dec(
            layer,
        ) + ".attn_v.bias"@ by {
        tensors_are_called_by_their_roles(layer);
    }
    if names_a_projection_bias(name, blocks) {
        let layer = choose|layer: int|
            0 <= layer < blocks && (name == #[trigger] layer_name(layer, LayerTensorRole::AttnQBias)
                || name == layer_name(layer, LayerTensorRole::AttnKBias) || name == layer_name(
                layer,
                LayerTensorRole::AttnVBias,
            ));
        assert(dec(layer) == dec(layer));
    }
    if exists|layer: int|
        0 <= layer < blocks && (name == "blk."@ + #[trigger] dec(layer) + ".attn_q.bias"@ || name
            == "blk."@ + dec(layer) + ".attn_k.bias"@ || name == "blk."@ + dec(layer)
            + ".attn_v.bias"@) {
        let layer = choose|layer: int|
            0 <= layer < blocks && (name == "blk."@ + #[trigger] dec(layer) + ".attn_q.bias"@ || name
                == "blk."@ + dec(layer) + ".attn_k.bias"@ || name == "blk."@ + dec(layer)
                + ".attn_v.bias"@);
        assert(layer_name(layer, LayerTensorRole::AttnQBias) == layer_name(
            layer,
            LayerTensorRole::AttnQBias,
        ));
    }
}

/// The roles of a layer suit a shape of layer where none comes twice, the nine that every
/// layer needs are there, and those that the shape needs beside them.
pub proof fn roles_suit_the_layer(
    name: Seq<char>,
    roles: Seq<LayerTensorRole>,
    variant: ForwardVariant,
)
    ensures
        contract_fault(name, roles, variant) is None <==> {
            &&& roles.no_duplicates()
            &&& roles.contains(LayerTensorRole::AttnNorm)
            &&& roles.contains(LayerTensorRole::AttnQ)
            &&& roles.contains(LayerTensorRole::AttnK)
            &&& roles.contains(LayerTensorRole::AttnV)
            &&& roles.contains(LayerTensorRole::AttnOutput)
            &&& roles.contains(LayerTensorRole::FfnNorm)
            &&& roles.contains(LayerTensorRole::FfnGate)
            &&& roles.contains(LayerTensorRole::FfnUp)
            &&& roles.contains(LayerTensorRole::FfnDown)
            &&& variant == ForwardVariant::BitNetSubNorm ==> roles.contains(
                LayerTensorRole::AttnSubNorm,
            ) && roles.contains(LayerTensorRole::FfnSubNorm)
            &&& variant == ForwardVariant::Qwen2 ==> roles.contains(LayerTensorRole::AttnQBias)
                && roles.contains(LayerTensorRole::AttnKBias) && roles.contains(
                LayerTensorRole::AttnVBias,
            )
        },
{
    lemma_repeats(roles, roles.len() as int);
    assert(roles.take(roles.len() as int) =~= roles);
    let c = core_roles();
    assert(c[0] == LayerTensorRole::AttnNorm && c[1] == LayerTensorRole::AttnQ && c[2]
        == LayerTensorRole::AttnK && c[3] == LayerTensorRole::AttnV && c[4]
        == LayerTensorRole::AttnOutput && c[5] == LayerTensorRole::FfnNorm && c[6]
        == LayerTensorRole::FfnGate && c[7] == LayerTensorRole::FfnUp && c[8]
        == LayerTensorRole::FfnDown);
    reveal_with_fuel(missing_role, 10);
}

proof fn lemma_repeats(roles: Seq<LayerTensorRole>, n: int)
    requires
        0 <= n <= roles.len(),
    ensures
        repeated_role(roles, n) is None <==> roles.take(n).no_duplicates(),
    decreases n,
{
    if n > 0 {
        lemma_repeats(roles, n - 1);
        let before = roles.take(n - 1);
        let all = roles.take(n);
        if before.contains(roles[n - 1]) {
            let i = before.index_of(roles[n - 1]);
            assert(all[i] == all[n - 1]);
        }
        if !before.no_duplicates() {
            let (i, j) = choose|i: int, j: int|
                0 <= i < before.len() && 0 <= j < before.len() && i != j && before[i] == before[j];
            assert(all[i] == all[j]);
        }
        if before.no_duplicates() && !before.contains(roles[n - 1]) {
            assert forall|i: int, j: int|
                0 <= i < all.len() && 0 <= j < all.len() && i != j implies all[i] != all[j] by {
                if i < n - 1 {
                    assert(before[i] == all[i]);
                }
                if j < n - 1 {
                    assert(before[j] == all[j]);
                }
            }
        }
    }
}

proof fn lemma_each_tensor(ts: Seq<TensorView<'_>>, name: Seq<char>, variant: ForwardVariant, blocks: int, n: int)
    requires
        0 <= n <= ts.len(),
    ensures
        q4k_faults(ts, n) is None <==> forall|i: int|
            0 <= i < n ==> q4k_fault(#[trigger] ts[i]) is None,
        q6k_faults(ts, n) is None <==> forall|i: int|
            0 <= i < n ==> q6k_fault(#[trigger] ts[i]) is None,
        biases_fault(ts, name, variant, blocks, n) is None <==> forall|i: int|
            0 <= i < n ==> bias_fault(#[trigger] ts[i], name, variant, blocks) is None,
    decreases n,
{
    if n > 0 {
        lemma_each_tensor(ts, name, variant, blocks, n - 1);
    }
}

proof fn lemma_each_layer(ts: Seq<TensorView<'_>>, d: Dims, n: int)
    requires
        0 <= n,
    ensures
        layers_fault(ts, d, n) is None <==> forall|i: int|
            0 <= i < n ==> #[trigger] layer_fault(ts, d, i) is None,
    decreases n,
{
    if n > 0 {
        lemma_each_layer(ts, d, n - 1);
    }
}

/// A type that the embeddings and the output weights of a model can have: half-precision
/// numbers or blocks of Q6_K, and blocks of 4 or 8 bits where the model is no BitNet model.
pub open spec fn is_table_type(t: GgmlType, d: Dims) -> bool {
    ||| t == GgmlType::F16
    ||| t == GgmlType::Q6K
    ||| d.variant != ForwardVariant::BitNetSubNorm && (t == GgmlType::Q4_0 || t == GgmlType::Q4K
        || t == GgmlType::Q8_0)
}

/// A table of embeddings or output weights is taken exactly where it has such a type and a
/// row for each token.
pub proof fn tables_have_a_row_for_each_token(t: TensorView<'_>, d: Dims)
    ensures
        table_fault(t, d) is None <==> is_table_type(t.ggml_type, d) && t.shape@
            == seq![d.embedding as u64, d.vocab as u64],
{
    let few = seq![GgmlType::F16, GgmlType::Q6K];
    let all = seq![GgmlType::F16, GgmlType::Q4_0, GgmlType::Q4K, GgmlType::Q6K, GgmlType::Q8_0];
    assert(few[0] == GgmlType::F16 && few[1] == GgmlType::Q6K);
    assert(all[0] == GgmlType::F16 && all[1] == GgmlType::Q4_0 && all[2] == GgmlType::Q4K && all[3]
        == GgmlType::Q6K && all[4] == GgmlType::Q8_0);
}

/// The tensors of a file that is taken as a model have different names. Each of its layers
/// has a tensor of the right shape and type in each of its roles, the embeddings and the
/// norm behind the last layer are there, and no tensor has a scale that is not finite or a
/// bias that is not known.
pub proof fn models_have_all_their_tensors(ts: Seq<TensorView<'_>>, d: Dims)
    requires
        tensors_fault(ts, d) is None,
        0 <= d.blocks,
    ensures
        forall|i: int, j: int|
            0 <= i < ts.len() && 0 <= j < ts.len() && i != j ==> (#[trigger] ts[i]).name@ != (
            #[trigger] ts[j]).name@,
        forall|layer: int, k: int|
            #![trigger layer_name(layer, d.roles[k])]
            0 <= layer < d.blocks && 0 <= k < d.roles.len() ==> exists|i: int|
                0 <= i < ts.len() && (#[trigger] ts[i]).name@ == layer_name(layer, d.roles[k])
                    && role_fault(ts[i], d.roles[k], d) is None,
        exists|i: int|
            0 <= i < ts.len() && (#[trigger] ts[i]).name@ == "token_embd.weight"@ && ts[i].shape@
                == seq![d.embedding as u64, d.vocab as u64] && is_table_type(ts[i].ggml_type, d),
        exists|i: int|
            0 <= i < ts.len() && (#[trigger] ts[i]).name@ == "output_norm.weight"@ && ts[i].shape@
                == seq![d.embedding as u64] && ts[i].ggml_type == GgmlType::F32 && ts[i].data@.len()
                == 4 * product(ts[i].shape@),
        forall|i: int|
            0 <= i < ts.len() && (#[trigger] ts[i]).name@ == "output.weight"@ ==> ts[i].shape@
                == seq![d.embedding as u64, d.vocab as u64] && is_table_type(ts[i].ggml_type, d),
        forall|i: int|
            0 <= i < ts.len() ==> bias_fault(#[trigger] ts[i], d.name, d.variant, d.blocks) is None,
        forall|i: int|
            0 <= i < ts.len() && (#[trigger] ts[i]).ggml_type == GgmlType::Q4K
                ==> bad_q4k_block(ts[i].data@, ts[i].data@.len() as int / 144) is None,
        forall|i: int|
            0 <= i < ts.len() && (#[trigger] ts[i]).ggml_type == GgmlType::Q6K
                ==> bad_q6k_block(ts[i].data@, ts[i].data@.len() as int / 210) is None,
{
    let n = ts.len() as int;
    lemma_each_tensor(ts, d.name, d.variant, d.blocks, n);
    lemma_each_layer(ts, d, d.blocks);
    tensors_are_found_by_name(ts, "token_embd.weight"@, n);
    tensors_are_found_by_name(ts, "output_norm.weight"@, n);
    tensors_are_found_by_name(ts, "output.weight"@, n);
    assert forall|i: int, j: int|
        0 <= i < ts.len() && 0 <= j < ts.len() && i != j implies (#[trigger] ts[i]).name@ != (
    #[trigger] ts[j]).name@ by {
        if i < j {
            assert(!repeats_a_name(ts));
        } else {
            assert(!repeats_a_name(ts));
            assert(ts[j].name@ != ts[i].name@);
        }
    }
    assert forall|layer: int, k: int|
        #![trigger layer_name(layer, d.roles[k])]
        0 <= layer < d.blocks && 0 <= k < d.roles.len() implies exists|i: int|
        0 <= i < ts.len() && (#[trigger] ts[i]).name@ == layer_name(layer, d.roles[k])
            && role_fault(ts[i], d.roles[k], d) is None by {
        assert(layer_fault(ts, d, layer) is None);
        lemma_places(ts, d, layer, d.roles.len() as int);
        assert(place_fault(ts, d, layer, d.roles[k]) is None);
        tensors_are_found_by_name(ts, layer_name(layer, d.roles[k]), n);
        let i = lookup(ts, layer_name(layer, d.roles[k]))->0;
        assert(ts[i].name@ == layer_name(layer, d.roles[k]));
    }
    assert forall|t: TensorView<'_>| #[trigger] table_fault(t, d) is None implies is_table_type(
        t.ggml_type,
        d,
    ) by {
        tables_have_a_row_for_each_token(t, d);
    }
    let e = lookup(ts, "token_embd.weight"@)->0;
    assert(ts[e].name@ == "token_embd.weight"@);
    let o = lookup(ts, "output_norm.weight"@)->0;
    assert(ts[o].name@ == "output_norm.weight"@);
}

/// A role whose numbers are read when a model is put together: that of a norm or a bias.
pub open spec fn is_read(role: LayerTensorRole) -> bool {
    ||| role == LayerTensorRole::AttnNorm
    ||| role == LayerTensorRole::FfnNorm
    ||| role == LayerTensorRole::AttnSubNorm
    ||| role == LayerTensorRole::FfnSubNorm
    ||| role == LayerTensorRole::AttnQBias
    ||| role == LayerTensorRole::AttnKBias
    ||| role == LayerTensorRole::AttnVBias
}

proof fn lemma_layer_is_taken(ts: Seq<TensorView<'_>>, d: Dims, layer: int)
    requires
        forall|k: int|
            0 <= k < d.roles.len() ==> place_fault(ts, d, layer, #[trigger] d.roles[k]) is None,
        forall|k: int|
            0 <= k < d.roles.len() && is_read(#[trigger] d.roles[k]) ==> f32_tensor_fault(
                tensor_in(ts, layer, d.roles[k]),
            ) is None,
    ensures
        layer_fault(ts, d, layer) is None,
{
    lemma_places(ts, d, layer, d.roles.len() as int);
    assert forall|role: LayerTensorRole| is_read(role) implies #[trigger] values_fault(
        ts,
        d,
        layer,
        role,
    ) is None by {
        if d.roles.contains(role) {
            let k = d.roles.index_of(role);
            assert(d.roles[k] == role);
        }
    }
}

/// A file is taken as a model where nothing is missing: its tensors have different names,
/// those in blocks are whole, no bias is unknown, the embeddings, the norm behind the last
/// layer and the output weights, if there are any, are as they should be, and so is each
/// tensor of each layer.
pub proof fn complete_models_are_taken(ts: Seq<TensorView<'_>>, d: Dims, embd: int, norm: int)
    requires
        0 <= d.blocks,
        forall|i: int, j: int|
            0 <= i < ts.len() && 0 <= j < ts.len() && i != j ==> (#[trigger] ts[i]).name@ != (
            #[trigger] ts[j]).name@,
        forall|i: int|
            0 <= i < ts.len() ==> q4k_fault(#[trigger] ts[i]) is None && q6k_fault(ts[i]) is None
                && bias_fault(ts[i], d.name, d.variant, d.blocks) is None,
        0 <= embd < ts.len() && ts[embd].name@ == "token_embd.weight"@ && table_fault(ts[embd], d)
            is None,
        0 <= norm < ts.len() && ts[norm].name@ == "output_norm.weight"@ && ts[norm].ggml_type
            == GgmlType::F32 && ts[norm].shape@ == seq![d.embedding as u64] && ts[norm].data@.len()
            == 4 * product(ts[norm].shape@),
        forall|i: int|
            0 <= i < ts.len() && (#[trigger] ts[i]).name@ == "output.weight"@ ==> table_fault(
                ts[i],
                d,
            ) is None,
        forall|layer: int, k: int|
            #![trigger layer_name(layer, d.roles[k])]
            0 <= layer < d.blocks && 0 <= k < d.roles.len() ==> exists|i: int|
                0 <= i < ts.len() && (#[trigger] ts[i]).name@ == layer_name(layer, d.roles[k])
                    && role_fault(ts[i], d.roles[k], d) is None && (is_read(d.roles[k])
                    ==> ts[i].data@.len() == 4 * product(ts[i].shape@)),
    ensures
        tensors_fault(ts, d) is None,
{
    let n = ts.len() as int;
    lemma_each_tensor(ts, d.name, d.variant, d.blocks, n);
    lemma_each_layer(ts, d, d.blocks);
    tensors_are_found_by_name(ts, "token_embd.weight"@, n);
    tensors_are_found_by_name(ts, "output_norm.weight"@, n);
    tensors_are_found_by_name(ts, "output.weight"@, n);
    assert(ts[embd].name@ == "token_embd.weight"@);
    assert(ts[norm].name@ == "output_norm.weight"@);
    assert(lookup(ts, "token_embd.weight"@) == Some(embd));
    assert(lookup(ts, "output_norm.weight"@) == Some(norm));
    assert forall|layer: int| 0 <= layer < d.blocks implies #[trigger] layer_fault(ts, d, layer)
        is None by {
        assert forall|k: int| 0 <= k < d.roles.len() implies place_fault(
            ts,
            d,
            layer,
            #[trigger] d.roles[k],
        ) is None && (is_read(d.roles[k]) ==> f32_tensor_fault(tensor_in(ts, layer, d.roles[k]))
            is None) by {
            let name = layer_name(layer, d.roles[k]);
            let i = choose|i: int|
                0 <= i < ts.len() && (#[trigger] ts[i]).name@ == name && role_fault(
                    ts[i],
                    d.roles[k],
                    d,
                ) is None && (is_read(d.roles[k]) ==> ts[i].data@.len() == 4 * product(
                    ts[i].shape@,
                ));
            tensors_are_found_by_name(ts, name, n);
            assert(lookup(ts, name) == Some(i));
            crate::model::acceptance::tensors_fit_their_roles(ts[i], d.roles[k], d);
            crate::model::acceptance::four_bytes_make_a_number(ts[i]);
        }
        lemma_layer_is_taken(ts, d, layer);
    }
    crate::model::acceptance::four_bytes_make_a_number(ts[norm]);
}

/// The parts of a model outside its layers are the tensors with their names; a model whose
/// file has output weights uses them, unless it is a BitNet model.
pub proof fn models_hold_their_tensors(g: ModelGraph<'_>, m: Table, ts: Seq<TensorView<'_>>)
    requires
        tensors_fault(ts, stated_dims(m)) is None,
        g.describes(m, ts),
    ensures
        g.token_embd.name@ == "token_embd.weight"@,
        g.output_norm.name@ == "output_norm.weight"@,
        g.lm_head.name@ == "output.weight"@ || g.lm_head.name@ == "token_embd.weight"@,
        g.lm_head.name@ == "output.weight"@ <==> g.forward_variant
            != ForwardVariant::BitNetSubNorm && exists|i: int|
            0 <= i < ts.len() && (#[trigger] ts[i]).name@ == "output.weight"@,
        g.has_output_weight_tensor <==> exists|i: int|
            0 <= i < ts.len() && (#[trigger] ts[i]).name@ == "output.weight"@,
{
    let n = ts.len() as int;
    tensors_are_found_by_name(ts, "token_embd.weight"@, n);
    tensors_are_found_by_name(ts, "output_norm.weight"@, n);
    tensors_are_found_by_name(ts, "output.weight"@, n);
    reveal_strlit("output.weight");
    reveal_strlit("token_embd.weight");
    assert("output.weight"@.len() != "token_embd.weight"@.len());
    if lookup(ts, "output.weight"@) is Some {
        let i = lookup(ts, "output.weight"@)->0;
        assert(ts[i].name@ == "output.weight"@);
    }
}

/// The dimensions by which tensors are checked are those of the configuration.
pub proof fn models_are_checked_by_their_configuration(c: ModelConfig, m: Table)
    requires
        config_fault(m) is None,
        is_config(c, m),
    ensures
        ({
            let d = stated_dims(m);
            &&& d.name == c.architecture@
            &&& d.blocks == c.block_count
            &&& d.embedding == c.embedding_length
            &&& d.feed_forward == c.feed_forward_length
            &&& d.kv == c.kv_dim
            &&& d.vocab == c.vocab_size
            &&& family_of(c.architecture@) matches Some(f) && d.variant == family_variant(f)
                && d.roles == family_roles(f)
        }),
{
}

/// Only models of the BitNet family have norms within the halves of a layer, and only those
/// of the Qwen2 family have biases: the shape of a layer follows.
pub proof fn layers_follow_the_family(family: ArchitectureFamily)
    ensures
        family_variant(family) == ForwardVariant::BitNetSubNorm <==> family_roles(family).contains(
            LayerTensorRole::AttnSubNorm,
        ),
        family_variant(family) == ForwardVariant::Qwen2 <==> family_roles(family).contains(
            LayerTensorRole::AttnQBias,
        ),
{
    families_have_their_tensors(family);
}

} // verus!
