//! What the checks of the model accept: everything that fits, and nothing else.

use crate::chat::engine::Conversation;
use crate::gguf::bytes::le32;
use crate::gguf::tensor::{finite_bits, product, TensorView};
use crate::gguf::types::GgmlType;
use crate::model::architecture::{ForwardVariant, LayerTensorRole};
use crate::model::attention::{
    attention_block_fault, attention_fault, residual_fault, rope_heads_fault,
};
use crate::model::bitlinear::{matvec_fault, unpack_fault, MatvecKernel};
use crate::model::bitlinear_sparse::{sparse_matvec_fault, sparse_shape_fault, SparseWeight};
use crate::model::cached_forward::{
    all_finite, layer_fault, layers_fault, prefill_fault, step_fault, stray, LayerCtx,
};
use crate::model::config::ModelConfig;
use crate::model::ffn::{ffn_block_fault, product_lists_fault};
use crate::model::generate::{
    budget_fault, first_stray_token_is_found, prompt_fault, single_token_fault,
};
use crate::model::graph::{bias_fault, names_a_projection_bias, role_fault, role_shape, Dims};
use crate::model::graph::{LayerWeights, ModelGraph};
use crate::model::kv_cache::CacheState;
use crate::model::lengths::{batched_bias_fault, rms_norm_fault};
use crate::model::linear::{batch_fault, halves_fault, quantized_fault, BlockLayout};
use crate::model::lm_head::logits_fault;
use crate::model::multi_forward::tokens_fault;
use crate::model::primitives::{
    f32_tensor_fault, finite_half, gather_fault, gqa_fault, rope_fault, AttentionShape,
};
use crate::model::q4_0;
use crate::model::q4_k;
use crate::model::q4_k::{activation_fault, dot_fault, Q8KActivation};
use crate::text::has_suffix;
use vstd::prelude::*;

verus! {

/// A head is rotated exactly where it has its width and an even number of its values, at
/// least one pair and at most all of them, is to be rotated.
pub proof fn whole_pairs_of_a_head_are_rotated(len: int, head_dim: int, n_rot: int)
    requires
        0 <= n_rot,
    ensures
        rope_fault(len, head_dim, n_rot) is None <==> len == head_dim && 2 <= n_rot <= head_dim
            && n_rot == 2 * (n_rot / 2),
{
}

/// Several heads are rotated exactly where they fill the list and each of them can be.
pub proof fn heads_fill_the_list(len: int, n_heads: int, head_dim: int, n_rot: int)
    requires
        0 <= n_rot,
        0 <= n_heads,
        0 <= head_dim,
    ensures
        rope_heads_fault(len, n_heads, head_dim, n_rot) is None <==> len == n_heads * head_dim
            && (n_heads > 0 ==> 2 <= n_rot <= head_dim && n_rot == 2 * (n_rot / 2)),
{
}

/// Query heads share key and value heads exactly where there are such heads and each of
/// them serves equally many.
pub proof fn heads_share_out_evenly(n_heads: int, n_kv_heads: int)
    requires
        0 <= n_heads,
        0 <= n_kv_heads,
    ensures
        gqa_fault(n_heads, n_kv_heads) is None <==> n_kv_heads > 0 && n_heads == n_kv_heads * (
        n_heads / n_kv_heads),
{
    if n_kv_heads > 0 {
        vstd::arithmetic::div_mod::lemma_fundamental_div_mod(n_heads, n_kv_heads);
    }
}

/// A row is gathered exactly where the table is one of half-precision rows, has the row,
/// and holds its bytes.
pub proof fn rows_of_the_table_are_gathered(t: TensorView<'_>, token_id: int, out_len: int)
    ensures
        gather_fault(t, token_id, out_len) is None <==> {
            &&& t.ggml_type == GgmlType::F16
            &&& t.shape@.len() == 2
            &&& t.shape@[0] == out_len
            &&& token_id < t.shape@[1]
            &&& token_id * (2 * out_len) + 2 * out_len <= t.data@.len()
        },
{
    assert((token_id + 1) * (2 * out_len) == token_id * (2 * out_len) + 2 * out_len)
        by (nonlinear_arith);
}

/// A single-precision tensor is read exactly where it has four bytes for each number.
pub proof fn four_bytes_make_a_number(t: TensorView<'_>)
    ensures
        f32_tensor_fault(t) is None <==> t.ggml_type == GgmlType::F32 && t.data@.len() == 4
            * product(t.shape@),
{
}

/// One token attends where queries and output have the width of the query heads, and keys
/// and values that of the others.
pub proof fn attention_takes_its_widths(q: int, k: int, v: int, out: int, shape: AttentionShape)
    ensures
        attention_fault(q, k, v, out, shape) is None <==> {
            &&& q == shape.n_heads * shape.head_dim
            &&& k == shape.n_kv_heads * shape.head_dim
            &&& v == shape.n_kv_heads * shape.head_dim
            &&& out == shape.n_heads * shape.head_dim
        },
{
}

/// The halves of a layer take lists of their widths, and lists that are combined element by
/// element are equally long.
pub proof fn halves_take_their_widths(x: int, norm: int, sub_norm: int, out: int, c: ModelConfig)
    ensures
        attention_block_fault(x, norm, sub_norm, out, c) is None <==> {
            &&& gqa_fault(c.head_count as int, c.head_count_kv as int) is None
            &&& x == c.embedding_length && norm == c.embedding_length
            &&& sub_norm == c.embedding_length && out == c.embedding_length
        },
        ffn_block_fault(x, norm, sub_norm, out, c) is None <==> {
            &&& x == c.embedding_length && norm == c.embedding_length
            &&& sub_norm == c.feed_forward_length && out == c.embedding_length
        },
        residual_fault(x, norm, out) is None <==> x == norm && norm == out,
        product_lists_fault(x, norm, out) is None <==> x == norm && norm == out,
        rms_norm_fault(x, norm, out) is None <==> x == norm && norm == out,
{
}

/// The biases of a chunk are added exactly where the projections are whole multiples of
/// them.
pub proof fn chunks_take_whole_biases(projection: int, bias: int)
    requires
        0 <= bias,
        0 <= projection,
    ensures
        batched_bias_fault(projection, bias) is None <==> bias > 0 && projection == bias * (
        projection / bias),
{
    if bias > 0 {
        vstd::arithmetic::div_mod::lemma_fundamental_div_mod(projection, bias);
    }
}

/// A tensor has an I2_S scale: four bytes at least behind it, which are a finite number.
pub open spec fn is_scaled(w: TensorView<'_>) -> bool {
    w.scale_data matches Some(s) && s@.len() >= 4 && finite_bits(le32(s@) as u32)
}

/// A ternary tensor is multiplied exactly where it is a matrix of the dimensions asked for,
/// with whole blocks of 128 weights in a row, four weights in each byte and a scale, whatever
/// the kernel.
pub proof fn whole_ternary_matrices_are_multiplied(
    kernel: MatvecKernel,
    w: TensorView<'_>,
    input: int,
    output: int,
)
    requires
        0 <= input,
    ensures
        matvec_fault(kernel, w, input, output) is None <==> {
            &&& w.ggml_type == GgmlType::BitNetI2S
            &&& w.shape@.len() == 2
            &&& input == w.shape@[0]
            &&& output == w.shape@[1]
            &&& input > 0
            &&& input == 128 * (input / 128)
            &&& w.data@.len() == input / 4 * output
            &&& is_scaled(w)
        },
{
}

/// A row of a ternary tensor is unpacked exactly where the tensor is a matrix of whole
/// blocks that has the row and its bytes.
pub proof fn whole_ternary_rows_are_unpacked(w: TensorView<'_>, row: int)
    requires
        0 <= row,
    ensures
        unpack_fault(w, row) is None <==> {
            &&& w.ggml_type == GgmlType::BitNetI2S
            &&& w.shape@.len() == 2
            &&& row < w.shape@[1]
            &&& w.shape@[0] > 0
            &&& w.shape@[0] == 128 * (w.shape@[0] / 128)
            &&& row * (w.shape@[0] as int / 4) + w.shape@[0] as int / 4 <= w.data@.len()
        },
{
    if w.shape@.len() == 2 {
        let b = w.shape@[0] as int / 4;
        assert((row + 1) * b == row * b + b) by (nonlinear_arith);
    }
}

/// Zeros are left out of ternary matrices of whole blocks whose columns can be numbered in
/// sixteen bits.
pub proof fn sparse_matrices_have_few_columns(w: TensorView<'_>, sw: SparseWeight, act: int, out: int)
    ensures
        sparse_shape_fault(w) is None <==> {
            &&& w.ggml_type == GgmlType::BitNetI2S
            &&& w.shape@.len() == 2
            &&& 0 < w.shape@[0] <= 0xffff
            &&& w.shape@[0] == 128 * (w.shape@[0] / 128)
        },
        sparse_matvec_fault(sw, act, out) is None <==> act == sw.in_dim && out == sw.out_dim,
{
}

/// A generation is started exactly where its prompt is made of known tokens, and where the
/// prompt and all tokens but the last fit the model and the cache, which is no larger than
/// the model's context.
pub proof fn prompts_that_fit_are_taken(
    operation: Seq<char>,
    ids: Seq<u32>,
    vocab_size: u32,
    max_new_tokens: int,
    max_seq_len: Option<usize>,
    context_length: int,
)
    requires
        0 <= max_new_tokens,
        0 <= context_length <= usize::MAX,
        ids.len() > 0,
    ensures
        prompt_fault(operation, ids, vocab_size) is None <==> forall|i: int|
            0 <= i < ids.len() ==> #[trigger] ids[i] < vocab_size,
        prompt_fault(operation, Seq::<u32>::empty(), vocab_size) is Some,
        budget_fault(operation, ids.len() as int, max_new_tokens, max_seq_len, context_length)
            is None <==> {
            let last = ids.len() + max_new_tokens - if max_new_tokens > 0 {
                1int
            } else {
                0int
            };
            &&& last <= context_length
            &&& max_seq_len matches Some(m) ==> last <= m && m <= context_length
        },
        single_token_fault(ids[0], vocab_size) is None <==> ids[0] < vocab_size,
{
    first_stray_token_is_found(ids, vocab_size, ids.len() as int);
}

/// A turn is taken exactly where it says something and, with all of its reply, fits the
/// context.
pub proof fn turns_that_fit_are_taken(
    c: Conversation,
    cached: int,
    prompt_tokens: int,
    max_new_tokens: int,
)
    requires
        0 <= prompt_tokens,
    ensures
        c.turn_fault(cached, prompt_tokens, max_new_tokens) is None <==> prompt_tokens > 0 && cached
            + prompt_tokens + max_new_tokens <= c.max_seq_len,
{
}

/// How many positions a cache holds: as many as its first layer, and none where it has none.
pub open spec fn positions_held(c: CacheState) -> int {
    if c.layers.len() == 0 {
        0
    } else {
        c.layers.first().len() as int
    }
}

/// A pair goes into a layer of the cache that has room for it; a chunk into a cache of the
/// right shape whose layers hold equally many positions and have room for all of it.
pub proof fn caches_take_what_has_room(
    c: CacheState,
    layer: int,
    key_len: int,
    value_len: int,
    n_layers: int,
    kv_dim: int,
    tokens: int,
)
    requires
        0 <= layer,
    ensures
        c.append_fault(layer, key_len, value_len) is None <==> {
            &&& layer < c.layers.len()
            &&& key_len == c.kv_dim
            &&& value_len == c.kv_dim
            &&& c.layers[layer].len() + 1 <= c.max_seq_len
        },
        c.chunk_fault(n_layers, kv_dim, tokens) is None <==> {
            &&& c.layers.len() == n_layers
            &&& c.kv_dim == kv_dim
            &&& forall|l: int|
                0 <= l < c.layers.len() ==> (#[trigger] c.layers[l]).len() == c.layers[0].len()
            &&& positions_held(c) + tokens <= c.max_seq_len
        },
{
}

/// A token goes next through the model exactly where the cache is the model's and holds as
/// many positions as stand in front of it, and where the vocabulary has it.
pub proof fn next_tokens_are_taken(
    c: CacheState,
    kv_dim: int,
    n_layers: int,
    vocab_size: u32,
    token: u32,
    position: u32,
)
    ensures
        step_fault(c, kv_dim, n_layers, vocab_size, token, position) is None <==> {
            &&& c.kv_dim == kv_dim
            &&& c.layers.len() == n_layers
            &&& positions_held(c) == position
            &&& token < vocab_size
        },
{
}

/// The first token that the vocabulary does not have.
proof fn lemma_stray(ids: Seq<u32>, vocab_size: u32, n: int)
    requires
        0 <= n <= ids.len(),
    ensures
        stray(ids, vocab_size, n) is None <==> forall|i: int|
            0 <= i < n ==> #[trigger] ids[i] < vocab_size,
    decreases n,
{
    if n > 0 {
        lemma_stray(ids, vocab_size, n - 1);
    }
}

/// A layer stands in its place and its norms have their widths.
pub open spec fn is_in_place(layer: LayerWeights<'_>, i: int, ctx: LayerCtx) -> bool {
    &&& layer.index == i
    &&& layer.attn_norm_f32@.len() == ctx.n_embd
    &&& layer.ffn_norm_f32@.len() == ctx.n_embd
    &&& ctx.variant == ForwardVariant::BitNetSubNorm ==> {
        &&& (match layer.attn_sub_norm_f32 {
            Some(v) => v@.len() as int,
            None => 0,
        }) == ctx.n_embd
        &&& (match layer.ffn_sub_norm_f32 {
            Some(v) => v@.len() as int,
            None => 0,
        }) == ctx.n_ff
    }
}

proof fn lemma_layers_in_place(layers: Seq<LayerWeights<'_>>, n: int, ctx: LayerCtx)
    requires
        0 <= n <= layers.len(),
    ensures
        layers_fault(layers, n, ctx) is None <==> forall|i: int|
            0 <= i < n ==> is_in_place(#[trigger] layers[i], i, ctx),
    decreases n,
{
    if n > 0 {
        lemma_layers_in_place(layers, n - 1, ctx);
        assert(layer_fault(layers[n - 1], n - 1, ctx) is None <==> is_in_place(
            layers[n - 1],
            n - 1,
            ctx,
        ));
    }
}

/// A chunk of tokens goes next through the model exactly where it has tokens, all of them
/// known, the cache is the model's and has room for them behind what it holds, and the
/// model's norms have their widths.
pub proof fn next_chunks_are_taken(
    graph: ModelGraph<'_>,
    c: CacheState,
    ids: Seq<u32>,
    start: u32,
    ctx: LayerCtx,
)
    ensures
        prefill_fault(graph, c, ids, start, ctx) is None <==> {
            &&& ids.len() > 0
            &&& c.chunk_fault(
                graph.layers@.len() as int,
                ctx.kv_dim as int,
                ids.len() as int,
            ) is None
            &&& positions_held(c) == start
            &&& start + ids.len() - 1 <= u32::MAX
            &&& forall|i: int| 0 <= i < ids.len() ==> #[trigger] ids[i] < graph.config.vocab_size
            &&& graph.output_norm_f32@.len() == ctx.n_embd
            &&& forall|i: int|
                0 <= i < graph.layers@.len() ==> is_in_place(#[trigger] graph.layers@[i], i, ctx)
        },
{
    lemma_stray(ids, graph.config.vocab_size, ids.len() as int);
    lemma_layers_in_place(graph.layers@, graph.layers@.len() as int, ctx);
}

/// A row of Q4_0 has eighteen bytes for each 32 values, and one of Q4_K 144 bytes for each
/// 256 of them, of which there is at least one; where it has, and where the scales are
/// finite, it is decoded.
pub proof fn whole_rows_are_decoded(row: Seq<u8>, values: int)
    requires
        0 <= values,
    ensures
        q4_0::row_fault(row, values) is None <==> {
            &&& values == 32 * (values / 32)
            &&& row.len() == values / 32 * 18
            &&& forall|b: int|
                0 <= b < values / 32 ==> finite_half(#[trigger] q4_0::half_at(row, 18 * b))
        },
        q4_k::row_fault(row, values) is None <==> {
            &&& values > 0
            &&& values == 256 * (values / 256)
            &&& row.len() == values / 256 * 144
            &&& q4_k::super_scales_are_finite(row, values / 256)
        },
{
    if row.len() == values / 256 * 144 {
        assert(row.len() as int / 144 == values / 256);
    }
}

/// The two scales of every block are finite.
pub proof fn both_scales_are_checked(row: Seq<u8>, blocks: int)
    ensures
        q4_k::super_scales_are_finite(row, blocks) <==> forall|b: int|
            #![trigger q4_0::half_at(row, 144 * b)]
            0 <= b < blocks ==> finite_half(q4_0::half_at(row, 144 * b)) && finite_half(
                q4_0::half_at(row, 144 * b + 2),
            ),
{
    if q4_k::super_scales_are_finite(row, blocks) {
        assert forall|b: int| #![trigger q4_0::half_at(row, 144 * b)] 0 <= b < blocks implies
            finite_half(q4_0::half_at(row, 144 * b)) && finite_half(
            q4_0::half_at(row, 144 * b + 2),
        ) by {
            assert(q4_k::block_is_finite(row, b));
        }
    } else {
        let b = choose|b: int| 0 <= b < blocks && !#[trigger] q4_k::block_is_finite(row, b);
        assert(!finite_half(q4_0::half_at(row, 144 * b)) || !finite_half(
            q4_0::half_at(row, 144 * b + 2),
        ));
    }
}

/// Activations are quantised where they are finite numbers in whole blocks of 256, and rows
/// are multiplied with them where they have as many values.
pub proof fn whole_activations_are_quantised(input: Seq<u32>, row: Seq<u8>, a: Q8KActivation)
    ensures
        activation_fault(input) is None <==> {
            &&& input.len() > 0
            &&& input.len() == 256 * (input.len() / 256)
            &&& forall|i: int| 0 <= i < input.len() ==> finite_bits(#[trigger] input[i])
        },
        dot_fault(row, a) is None <==> {
            &&& a.values > 0
            &&& a.values == 256 * a.blocks@.len()
            &&& q4_k::row_fault(row, a.values as int) is None
        },
{
    assert(all_finite(input) <==> forall|i: int|
        0 <= i < input.len() ==> finite_bits(#[trigger] input[i]));
}

/// Logits are computed exactly where the table is one of half-precision rows, one for each
/// token, with all its bytes, and the hidden state is as long as a row.
pub proof fn logits_take_the_whole_table(
    hidden: int,
    t: TensorView<'_>,
    embedding_length: u32,
    vocab_size: u32,
)
    ensures
        logits_fault(hidden, t, embedding_length, vocab_size) is None <==> {
            &&& t.ggml_type == GgmlType::F16
            &&& t.shape@.len() == 2
            &&& t.shape@[0] == embedding_length
            &&& t.shape@[1] == vocab_size
            &&& hidden == embedding_length
            &&& t.data@.len() == embedding_length * vocab_size * 2
        },
{
    if t.shape@.len() == 2 && t.shape@[0] == embedding_length && t.shape@[1] == vocab_size {
        assert(t.shape@ =~= seq![embedding_length as u64, vocab_size as u64]);
    }
    assert(2 * embedding_length * vocab_size == embedding_length * vocab_size * 2)
        by (nonlinear_arith);
}

/// A half-precision matrix is multiplied exactly where it has the dimensions asked for and
/// two bytes for each weight.
pub proof fn whole_half_matrices_are_multiplied(w: TensorView<'_>, input: int, output: int)
    requires
        0 <= input <= usize::MAX,
        0 <= output <= usize::MAX,
        w.data@.len() <= usize::MAX,
    ensures
        halves_fault(w, input, output) is None <==> {
            &&& w.ggml_type == GgmlType::F16
            &&& w.shape@.len() == 2
            &&& w.shape@[0] == input
            &&& w.shape@[1] == output
            &&& 2 * input <= usize::MAX
            &&& w.data@.len() == 2 * input * output
        },
{
}

/// A matrix of blocks is multiplied exactly where it has the dimensions asked for, whole
/// blocks in a row, and the bytes of all its blocks.
pub proof fn whole_block_matrices_are_multiplied(
    layout: BlockLayout,
    w: TensorView<'_>,
    input: int,
    output: int,
)
    requires
        0 <= input <= usize::MAX,
        0 <= output <= usize::MAX,
        w.data@.len() <= usize::MAX,
        input / (layout.elements() as int) * layout.bytes() <= u64::MAX,
    ensures
        quantized_fault(layout, w, input, output) is None <==> {
            &&& w.ggml_type == layout.of_type()
            &&& w.shape@.len() == 2
            &&& w.shape@[0] == input
            &&& w.shape@[1] == output
            &&& input % (layout.elements() as int) == 0
            &&& input / (layout.elements() as int) * layout.bytes() <= usize::MAX
            &&& w.data@.len() == input / (layout.elements() as int) * layout.bytes() * output
        },
{
    if w.shape@.len() == 2 {
        let row = seq![w.shape@[0]];
        crate::gguf::format_laws::products_multiply_by_parts(row, Seq::<u64>::empty());
        assert(row.drop_last() =~= Seq::<u64>::empty());
        assert(product(row) == w.shape@[0]);
        assert(crate::gguf::tensor::product_fault(row.drop_last()) is None);
        assert(crate::gguf::tensor::product_fault(row) is None);
    }
}

/// The vectors of several tokens are multiplied exactly where they are whole, there is at
/// least one, and there is one output vector for each.
pub proof fn whole_batches_are_multiplied(w: TensorView<'_>, input: int, output: int)
    requires
        0 <= input <= usize::MAX,
        0 <= output <= usize::MAX,
        w.shape@.len() == 2,
        w.shape@[0] <= usize::MAX,
        w.shape@[1] <= usize::MAX,
    ensures
        batch_fault(w, input, output) is None <==> {
            let tokens = input / (w.shape@[0] as int);
            &&& w.shape@[0] > 0
            &&& w.shape@[1] > 0
            &&& input > 0
            &&& input == w.shape@[0] * tokens
            &&& output == tokens * w.shape@[1]
        },
{
    let a = w.shape@[0] as int;
    if a > 0 {
        vstd::arithmetic::div_mod::lemma_fundamental_div_mod(input, a);
    }
}

/// A pass without a cache takes any number of tokens that 32 bits can count, but not none.
pub proof fn passes_take_tokens(n: int, c: ModelConfig)
    requires
        0 <= n,
    ensures
        tokens_fault(n, c) is None <==> 0 < n <= u32::MAX && gqa_fault(
            c.head_count as int,
            c.head_count_kv as int,
        ) is None,
{
}

/// A tensor fits its role exactly where it has the role's shape and a type that the role
/// can have: ternary weights in the matrices of a BitNet model, half-precision or quantised
/// ones in those of the others, and single-precision numbers everywhere else.
pub proof fn tensors_fit_their_roles(t: TensorView<'_>, role: LayerTensorRole, d: Dims)
    ensures
        role_fault(t, role, d) is None <==> {
            &&& t.shape@ == role_shape(d, role)
            &&& if role == LayerTensorRole::AttnQ || role == LayerTensorRole::AttnK || role
                == LayerTensorRole::AttnV || role == LayerTensorRole::AttnOutput || role
                == LayerTensorRole::FfnGate || role == LayerTensorRole::FfnUp || role
                == LayerTensorRole::FfnDown {
                if d.variant == ForwardVariant::BitNetSubNorm {
                    t.ggml_type == GgmlType::BitNetI2S
                } else {
                    t.ggml_type == GgmlType::F16 || t.ggml_type == GgmlType::Q4_0 || t.ggml_type
                        == GgmlType::Q4K || t.ggml_type == GgmlType::Q6K || t.ggml_type
                        == GgmlType::Q8_0
                }
            } else {
                t.ggml_type == GgmlType::F32
            }
        },
{
    let types = seq![GgmlType::F16, GgmlType::Q4_0, GgmlType::Q4K, GgmlType::Q6K, GgmlType::Q8_0];
    assert(types[0] == GgmlType::F16 && types[1] == GgmlType::Q4_0 && types[2] == GgmlType::Q4K
        && types[3] == GgmlType::Q6K && types[4] == GgmlType::Q8_0);
    assert(types.contains(t.ggml_type) <==> (t.ggml_type == GgmlType::F16 || t.ggml_type
        == GgmlType::Q4_0 || t.ggml_type == GgmlType::Q4K || t.ggml_type == GgmlType::Q6K
        || t.ggml_type == GgmlType::Q8_0));
}

/// A bias is refused everywhere but on the queries, keys and values of a Qwen2 model; other
/// tensors are not looked at.
pub proof fn biases_belong_to_qwen2(
    t: TensorView<'_>,
    name: Seq<char>,
    variant: ForwardVariant,
    blocks: int,
)
    ensures
        !has_suffix(t.name@, ".bias"@) ==> bias_fault(t, name, variant, blocks) is None,
        has_suffix(t.name@, ".bias"@) && variant != ForwardVariant::Qwen2 ==> bias_fault(
            t,
            name,
            variant,
            blocks,
        ) is Some,
        has_suffix(t.name@, ".bias"@) && variant == ForwardVariant::Qwen2 ==> (bias_fault(
            t,
            name,
            variant,
            blocks,
        ) is None <==> names_a_projection_bias(t.name@, blocks)),
{
}

/// A row of Q4_K is multiplied with the vectors of several tokens exactly where it is whole
/// and finite, there is a token, and there is a vector of the row's length for each.
pub proof fn whole_rows_are_multiplied(row: Seq<u8>, inputs: int, width: int, tokens: int)
    requires
        0 <= inputs <= usize::MAX,
        0 <= width,
        0 <= tokens,
    ensures
        q4_k::rows_fault(row, inputs, width, tokens) is None <==> {
            &&& q4_k::row_fault(row, width) is None
            &&& tokens > 0
            &&& inputs == width * tokens
        },
{
}

/// A block of activations that are all zero is quantised to zeros, and any other to what was
/// computed for it; each sum is that of sixteen neighbours.
pub proof fn zero_blocks_are_zeros(
    block: q4_k::Q8KBlock,
    input: Seq<u32>,
    b: int,
    scaled: (u32, Vec<i8>),
)
    requires
        0 <= b,
        256 * b + 256 <= input.len(),
        q4_k::is_quantized(block, input, b, scaled),
    ensures
        (forall|i: int|
            256 * b <= i < 256 * b + 256 ==> #[trigger] input[i] == 0 || input[i] == 0x8000_0000)
            ==> block.d == 0 && forall|i: int| 0 <= i < 256 ==> #[trigger] block.qs@[i] == 0,
        (exists|i: int|
            256 * b <= i < 256 * b + 256 && #[trigger] input[i] != 0 && input[i] != 0x8000_0000)
            ==> block.d == scaled.0 && block.qs@ == scaled.1@,
        block.qs@.len() == 256,
{
    q4_k::extreme_is_first_and_largest(input, 256 * b, 256);
    assert forall|i: int| 256 * b <= i < 256 * b + 256 implies (q4_k::magnitude(
        #[trigger] input[i],
    ) == 0 <==> input[i] == 0 || input[i] == 0x8000_0000) by {}
}

} // verus!
