//! Where numbers stand in tables and how the widths of a model belong together.

use crate::gguf::format_laws::{holds_number, written_numbers_read_back};
use crate::gguf::tensor::TensorView;
use crate::gguf::types::GgmlType;
use crate::model::architecture::ForwardVariant;
use crate::model::block::block_input_fault;
use crate::model::bitlinear::MatvecKernel;
use crate::model::cached_forward::is_ctx;
use crate::model::config::{
    config_fault, configurations_are_consistent, is_config, ModelConfig, Table,
};
use crate::model::graph::LayerWeights;
use crate::model::lengths::bias_fault;
use crate::model::linear::{linear_batch_fault, linear_fault, prequantized_fault, BlockLayout};
use crate::model::pass::ctx_of;
use crate::model::primitives::{embedding_bits, f32_values, gqa_fault, widened};
use vstd::prelude::*;

verus! {

/// The numbers of a single-precision tensor are the ones that stand in it, four bytes each.
pub proof fn written_singles_are_read(
    front: Seq<u8>,
    number: Seq<u8>,
    back: Seq<u8>,
    i: int,
    bits: u32,
)
    requires
        0 <= i,
        front.len() == 4 * i,
        number.len() == 4,
        back.len() % 4 == 0,
        holds_number(number + back, bits as int, 4),
    ensures
        f32_values(front + number + back)[i] == bits,
        f32_values(front + number + back).len() == i + 1 + back.len() as int / 4,
{
    let data = front + number + back;
    assert(data.skip(4 * i) =~= number + back);
    written_numbers_read_back(number + back, bits as int);
}

/// The embedding of a token is a row of the table: behind the rows of the tokens in front of
/// it, two bytes for each number.
pub proof fn written_embeddings_are_read(
    front: Seq<u8>,
    row: Seq<u8>,
    back: Seq<u8>,
    width: int,
    token: int,
    i: int,
    bits: u16,
)
    requires
        0 <= token,
        0 <= i < width,
        front.len() == token * (2 * width),
        row.len() == 2 * width,
        holds_number(row.skip(2 * i) + back, bits as int, 2),
    ensures
        embedding_bits(front + row + back, width, token, i) == widened(bits),
{
    let data = front + row + back;
    assert(data.skip(token * (2 * width) + 2 * i) =~= row.skip(2 * i) + back);
    written_numbers_read_back(row.skip(2 * i) + back, bits as int);
}

/// In the widths of a pass the query heads make up the hidden state, the others the keys and
/// values, and each of the others serves as many query heads as the next.
pub proof fn widths_belong_together(c: ModelConfig, m: Table, variant: ForwardVariant)
    requires
        config_fault(m) is None,
        is_config(c, m),
    ensures
        ({
            let x = ctx_of(c, variant);
            &&& x.variant == variant
            &&& x.n_embd == c.embedding_length
            &&& x.n_ff == c.feed_forward_length
            &&& x.n_embd == x.n_heads * x.head_dim
            &&& x.kv_dim == x.n_heads_kv * x.head_dim
            &&& x.n_rot == x.head_dim
            &&& x.eps == c.layer_norm_rms_epsilon
            &&& x.freq_base == c.rope_freq_base
            &&& x.shape.q_per_token_dim == x.n_embd
            &&& x.shape.kv_per_token_dim == x.kv_dim
            &&& x.shape.group_size * x.shape.n_kv_heads == x.shape.n_heads
            &&& x.shape.n_heads == x.n_heads && x.shape.n_kv_heads == x.n_heads_kv
            &&& x.shape.head_dim == x.head_dim
            &&& is_ctx(x, c, variant)
        }),
{
    configurations_are_consistent(c, m);
    let h = c.head_count as int;
    let k = c.head_count_kv as int;
    let d = c.head_dim as int;
    vstd::arithmetic::div_mod::lemma_fundamental_div_mod(h, k);
    assert(h * d == d * h) by (nonlinear_arith);
    assert(k * d == d * k) by (nonlinear_arith);
    assert(k * (h / k) == (h / k) * k) by (nonlinear_arith);
}

/// A hidden state goes through a layer exactly where it is as wide as the model, and so is
/// the place for the outcome; the norms of a BitNet layer are as wide as what they are
/// applied to.
pub proof fn layers_take_hidden_states(
    x: int,
    out: int,
    layer: LayerWeights<'_>,
    c: ModelConfig,
    variant: ForwardVariant,
)
    ensures
        variant != ForwardVariant::BitNetSubNorm ==> (block_input_fault(x, out, layer, c, variant)
            is None <==> x == c.embedding_length && out == c.embedding_length),
        variant == ForwardVariant::BitNetSubNorm ==> (block_input_fault(x, out, layer, c, variant)
            is None <==> {
            &&& x == c.embedding_length && out == c.embedding_length
            &&& layer.attn_norm_f32@.len() == c.embedding_length
            &&& layer.attn_sub_norm_f32 matches Some(a) && a@.len() == c.embedding_length
            &&& layer.ffn_norm_f32@.len() == c.embedding_length
            &&& layer.ffn_sub_norm_f32 matches Some(f) && f@.len() == c.feed_forward_length
            &&& gqa_fault(c.head_count as int, c.head_count_kv as int) is None
        }),
        bias_fault(x, out) is None <==> x == out,
{
}

/// Matrices of six types are multiplied and no others; quantised activations are taken where
/// they and the vectors are as long as the matrix says.
pub proof fn known_matrices_are_multiplied(
    kernel: MatvecKernel,
    layout: BlockLayout,
    w: TensorView<'_>,
    input: int,
    activation: int,
    output: int,
)
    requires
        w.shape@.len() == 2,
        w.shape@[0] <= usize::MAX,
        w.shape@[1] <= usize::MAX,
    ensures
        linear_fault(kernel, w, input, output) is None || linear_batch_fault(w, input, output)
            is None ==> w.ggml_type == GgmlType::BitNetI2S || w.ggml_type == GgmlType::F16
            || w.ggml_type == GgmlType::Q4_0 || w.ggml_type == GgmlType::Q4K || w.ggml_type
            == GgmlType::Q6K || w.ggml_type == GgmlType::Q8_0,
        linear_fault(kernel, w, input, output) is None ==> w.shape@[0] == input && w.shape@[1]
            == output,
        prequantized_fault(layout, w, input, activation, output) is None <==> w.shape@[0] == input
            && w.shape@[0] == activation && w.shape@[1] == output,
{
}

} // verus!
