//! The tensors of a model, found by name and checked against its
//! configuration.

use crate::error::{Fault, WillametteError};
use crate::gguf::bytes::le16;
use crate::gguf::reader::GgufFile;
use crate::gguf::tensor::{
    block_bytes, block_fault, is_finite_bits, product, product_fault, products_fit, TensorView,
};
use crate::gguf::types::{ggml_name, raw_of_type, GgmlType};
use crate::model::architecture::{
    family_of, family_roles, family_variant, resolve, role_kind, role_suffix, role_text,
    ArchitectureFamily, ForwardVariant, LayerTensorRole, ModelArchitecture,
};
use crate::model::config::{
    config_fault, first, found_str, is_config, key, llama_head_dim, llama_kv_heads, u32_of,
    vocabulary_len, ModelConfig, Table,
};
use crate::model::primitives::{
    f16_to_f32, f32_tensor_fault, f32_tensor_to_vec, f32_values, finite_half,
    widening_keeps_finiteness,
};
use crate::text::{
    bracket, bracketed, cat2, cat3, cat4, cat5, cat6, dec, decimal, finishes_with, has_suffix, join,
    joined, owned, quote, quoted, same_text, views,
};
use vstd::prelude::*;

verus! {

/// What the checks of a model's tensors go by.
pub struct Dims {
    pub name: Seq<char>,
    pub variant: ForwardVariant,
    pub roles: Seq<LayerTensorRole>,
    pub blocks: int,
    pub embedding: int,
    pub feed_forward: int,
    pub kv: int,
    pub vocab: int,
}

/// The dimensions in a configuration of a family.
pub open spec fn dims(c: ModelConfig, family: ArchitectureFamily) -> Dims {
    Dims {
        name: c.architecture@,
        variant: family_variant(family),
        roles: family_roles(family),
        blocks: c.block_count as int,
        embedding: c.embedding_length as int,
        feed_forward: c.feed_forward_length as int,
        kv: c.kv_dim as int,
        vocab: c.vocab_size as int,
    }
}

/// The dimensions that the metadata of a model states.
pub open spec fn stated_dims(m: Table) -> Dims {
    let name = found_str(m, "general.architecture"@)->0;
    let family = family_of(name)->0;
    let prefix = crate::model::architecture::family_prefix(family, name);
    let embedding = u32_of(m, key(prefix, "embedding_length"@));
    let heads = u32_of(m, key(prefix, "attention.head_count"@));
    Dims {
        name,
        variant: family_variant(family),
        roles: family_roles(family),
        blocks: u32_of(m, key(prefix, "block_count"@)),
        embedding,
        feed_forward: u32_of(m, key(prefix, "feed_forward_length"@)),
        kv: if family == ArchitectureFamily::BitNet {
            embedding / heads * u32_of(m, key(prefix, "attention.head_count_kv"@))
        } else {
            llama_head_dim(m, prefix) * llama_kv_heads(m, prefix)
        },
        vocab: if family == ArchitectureFamily::BitNet {
            u32_of(m, key(prefix, "vocab_size"@))
        } else {
            vocabulary_len(m)
        },
    }
}

/// The first of the first `n` tensors with a name.
pub open spec fn named(ts: Seq<TensorView<'_>>, name: Seq<char>, n: int) -> Option<int>
    decreases n,
{
    if n <= 0 {
        None
    } else if named(ts, name, n - 1) is Some {
        named(ts, name, n - 1)
    } else if ts[n - 1].name@ == name {
        Some(n - 1)
    } else {
        None
    }
}

/// The tensor with a name.
pub open spec fn lookup(ts: Seq<TensorView<'_>>, name: Seq<char>) -> Option<int> {
    named(ts, name, ts.len() as int)
}

/// Two tensors have the same name.
pub open spec fn repeats_a_name(ts: Seq<TensorView<'_>>) -> bool {
    exists|i: int, j: int|
        0 <= i < j < ts.len() && (#[trigger] ts[i]).name@ == (#[trigger] ts[j]).name@
}

/// A tensor that is not there.
pub open spec fn absent(name: Seq<char>) -> Option<Fault> {
    Some(Fault::MissingMetadata(seq!["tensor "@ + name]))
}

/// The name of a layer's tensor.
pub open spec fn layer_name(layer: int, role: LayerTensorRole) -> Seq<char> {
    "blk."@ + dec(layer) + "."@ + role_suffix(role) + "."@ + role_kind(role)
}

/// Why a tensor has the wrong type.
pub open spec fn dtype_fault(t: TensorView<'_>, expected: GgmlType) -> Option<Fault> {
    if t.ggml_type != expected {
        Some(
            Fault::GgufParse(
                "tensor "@ + quoted(t.name@) + ": expected dtype "@ + ggml_name(expected) + " ("@
                    + dec(raw_of_type(expected) as int) + "), got "@ + ggml_name(t.ggml_type)
                    + " ("@ + dec(raw_of_type(t.ggml_type) as int) + ")"@,
            ),
        )
    } else {
        None
    }
}

/// The names of types, with `or` between them.
pub open spec fn type_names(types: Seq<GgmlType>) -> Seq<char> {
    joined(types.map_values(|t: GgmlType| ggml_name(t)), " or "@)
}

/// Why a tensor has none of the right types.
pub open spec fn dtypes_fault(t: TensorView<'_>, expected: Seq<GgmlType>) -> Option<Fault> {
    if !expected.contains(t.ggml_type) {
        Some(
            Fault::GgufParse(
                "tensor "@ + quoted(t.name@) + ": expected dtype "@ + type_names(expected)
                    + ", got "@ + ggml_name(t.ggml_type) + " ("@ + dec(
                    raw_of_type(t.ggml_type) as int,
                ) + ")"@,
            ),
        )
    } else {
        None
    }
}

/// Why a tensor has the wrong shape.
pub open spec fn shape_fault(t: TensorView<'_>, expected: Seq<u64>) -> Option<Fault> {
    if t.shape@ != expected {
        Some(
            Fault::GgufParse(
                "tensor "@ + quoted(t.name@) + ": expected shape "@ + bracketed(expected)
                    + ", got "@ + bracketed(t.shape@),
            ),
        )
    } else {
        None
    }
}

/// The types that embeddings and output weights may have.
pub open spec fn table_types(variant: ForwardVariant) -> Seq<GgmlType> {
    if variant == ForwardVariant::BitNetSubNorm {
        seq![GgmlType::F16, GgmlType::Q6K]
    } else {
        seq![GgmlType::F16, GgmlType::Q4_0, GgmlType::Q4K, GgmlType::Q6K, GgmlType::Q8_0]
    }
}

/// Why a weight of a layer has the wrong type.
pub open spec fn linear_fault(t: TensorView<'_>, variant: ForwardVariant) -> Option<Fault> {
    if variant == ForwardVariant::BitNetSubNorm {
        dtype_fault(t, GgmlType::BitNetI2S)
    } else {
        dtypes_fault(
            t,
            seq![GgmlType::F16, GgmlType::Q4_0, GgmlType::Q4K, GgmlType::Q6K, GgmlType::Q8_0],
        )
    }
}

/// The shape that a role requires.
pub open spec fn role_shape(d: Dims, role: LayerTensorRole) -> Seq<u64> {
    match role {
        LayerTensorRole::AttnNorm => seq![d.embedding as u64],
        LayerTensorRole::AttnSubNorm => seq![d.embedding as u64],
        LayerTensorRole::FfnNorm => seq![d.embedding as u64],
        LayerTensorRole::FfnSubNorm => seq![d.feed_forward as u64],
        LayerTensorRole::AttnQ => seq![d.embedding as u64, d.embedding as u64],
        LayerTensorRole::AttnK => seq![d.embedding as u64, d.kv as u64],
        LayerTensorRole::AttnV => seq![d.embedding as u64, d.kv as u64],
        LayerTensorRole::AttnQBias => seq![d.embedding as u64],
        LayerTensorRole::AttnKBias => seq![d.kv as u64],
        LayerTensorRole::AttnVBias => seq![d.kv as u64],
        LayerTensorRole::AttnOutput => seq![d.embedding as u64, d.embedding as u64],
        LayerTensorRole::FfnGate => seq![d.embedding as u64, d.feed_forward as u64],
        LayerTensorRole::FfnUp => seq![d.embedding as u64, d.feed_forward as u64],
        LayerTensorRole::FfnDown => seq![d.feed_forward as u64, d.embedding as u64],
    }
}

/// What is wrong with a tensor for its role.
pub open spec fn role_fault(t: TensorView<'_>, role: LayerTensorRole, d: Dims) -> Option<Fault> {
    first(
        match role {
            LayerTensorRole::AttnQ => linear_fault(t, d.variant),
            LayerTensorRole::AttnK => linear_fault(t, d.variant),
            LayerTensorRole::AttnV => linear_fault(t, d.variant),
            LayerTensorRole::AttnOutput => linear_fault(t, d.variant),
            LayerTensorRole::FfnGate => linear_fault(t, d.variant),
            LayerTensorRole::FfnUp => linear_fault(t, d.variant),
            LayerTensorRole::FfnDown => linear_fault(t, d.variant),
            _ => dtype_fault(t, GgmlType::F32),
        },
        shape_fault(t, role_shape(d, role)),
    )
}

/// What is wrong with the tensor that a layer has in a role.
pub open spec fn place_fault(
    ts: Seq<TensorView<'_>>,
    d: Dims,
    layer: int,
    role: LayerTensorRole,
) -> Option<Fault> {
    match lookup(ts, layer_name(layer, role)) {
        None => absent(layer_name(layer, role)),
        Some(i) => role_fault(ts[i], role, d),
    }
}

/// What is wrong with the first `n` tensors of a layer.
pub open spec fn places_fault(
    ts: Seq<TensorView<'_>>,
    d: Dims,
    layer: int,
    n: int,
) -> Option<Fault>
    decreases n,
{
    if n <= 0 {
        None
    } else {
        first(places_fault(ts, d, layer, n - 1), place_fault(ts, d, layer, d.roles[n - 1]))
    }
}

/// The tensor that a layer has in a role.
pub open spec fn tensor_in(
    ts: Seq<TensorView<'_>>,
    layer: int,
    role: LayerTensorRole,
) -> TensorView<'_> {
    ts[lookup(ts, layer_name(layer, role))->0]
}

/// Why the numbers of a layer's tensor cannot be read; nothing where layers
/// have no such tensor.
pub open spec fn values_fault(
    ts: Seq<TensorView<'_>>,
    d: Dims,
    layer: int,
    role: LayerTensorRole,
) -> Option<Fault> {
    if d.roles.contains(role) {
        f32_tensor_fault(tensor_in(ts, layer, role))
    } else {
        None
    }
}

/// What is wrong with a layer.
pub open spec fn layer_fault(ts: Seq<TensorView<'_>>, d: Dims, layer: int) -> Option<Fault> {
    first(
        places_fault(ts, d, layer, d.roles.len() as int),
        first(
            values_fault(ts, d, layer, LayerTensorRole::AttnNorm),
            first(
                values_fault(ts, d, layer, LayerTensorRole::AttnQBias),
                first(
                    values_fault(ts, d, layer, LayerTensorRole::AttnKBias),
                    first(
                        values_fault(ts, d, layer, LayerTensorRole::AttnVBias),
                        first(
                            values_fault(ts, d, layer, LayerTensorRole::AttnSubNorm),
                            first(
                                values_fault(ts, d, layer, LayerTensorRole::FfnNorm),
                                values_fault(ts, d, layer, LayerTensorRole::FfnSubNorm),
                            ),
                        ),
                    ),
                ),
            ),
        ),
    )
}

/// What is wrong with the first `n` layers.
pub open spec fn layers_fault(ts: Seq<TensorView<'_>>, d: Dims, n: int) -> Option<Fault>
    decreases n,
{
    if n <= 0 {
        None
    } else {
        first(layers_fault(ts, d, n - 1), layer_fault(ts, d, n - 1))
    }
}

/// What is wrong with a tensor of embeddings or output weights.
pub open spec fn table_fault(t: TensorView<'_>, d: Dims) -> Option<Fault> {
    first(
        dtypes_fault(t, table_types(d.variant)),
        shape_fault(t, seq![d.embedding as u64, d.vocab as u64]),
    )
}

/// What is wrong with the embeddings.
pub open spec fn embedding_fault(ts: Seq<TensorView<'_>>, d: Dims) -> Option<Fault> {
    match lookup(ts, "token_embd.weight"@) {
        None => absent("token_embd.weight"@),
        Some(i) => table_fault(ts[i], d),
    }
}

/// What is wrong with the norm behind the last layer.
pub open spec fn output_norm_fault(ts: Seq<TensorView<'_>>, d: Dims) -> Option<Fault> {
    match lookup(ts, "output_norm.weight"@) {
        None => absent("output_norm.weight"@),
        Some(i) => first(
            dtype_fault(ts[i], GgmlType::F32),
            shape_fault(ts[i], seq![d.embedding as u64]),
        ),
    }
}

/// What is wrong with the output weights, which a file need not have.
pub open spec fn output_fault(ts: Seq<TensorView<'_>>, d: Dims) -> Option<Fault> {
    match lookup(ts, "output.weight"@) {
        None => None,
        Some(i) => table_fault(ts[i], d),
    }
}

/// The first of the first `n` blocks with a scale that is not finite: two
/// half-precision scales at the start of a block of Q4_K.
pub open spec fn bad_q4k_block(data: Seq<u8>, n: int) -> Option<int>
    decreases n,
{
    if n <= 0 {
        None
    } else if bad_q4k_block(data, n - 1) is Some {
        bad_q4k_block(data, n - 1)
    } else if !finite_half(le16(data.skip(144 * (n - 1))) as u16) || !finite_half(
        le16(data.skip(144 * (n - 1) + 2)) as u16,
    ) {
        Some(n - 1)
    } else {
        None
    }
}

/// The first of the first `n` blocks with a scale that is not finite: one
/// half-precision scale at the end of a block of Q6_K.
pub open spec fn bad_q6k_block(data: Seq<u8>, n: int) -> Option<int>
    decreases n,
{
    if n <= 0 {
        None
    } else if bad_q6k_block(data, n - 1) is Some {
        bad_q6k_block(data, n - 1)
    } else if !finite_half(le16(data.skip(210 * (n - 1) + 208)) as u16) {
        Some(n - 1)
    } else {
        None
    }
}

/// What is wrong with the storage of a block-quantised tensor.
pub open spec fn storage_fault(
    t: TensorView<'_>,
    elements: u64,
    bytes: u64,
    label: Seq<char>,
) -> Option<Fault> {
    match block_fault(t.shape@, elements, bytes, label) {
        Some(e) => Some(Fault::GgufParse(e)),
        None => if block_bytes(t.shape@, elements, bytes) > usize::MAX {
            Some(Fault::GgufParse(label + " tensor size overflow"@))
        } else if t.data@.len() != block_bytes(t.shape@, elements, bytes) {
            Some(
                Fault::GgufParse(
                    "tensor "@ + quoted(t.name@) + ": "@ + label + " data length "@ + dec(
                        t.data@.len() as int,
                    ) + " != expected "@ + dec(block_bytes(t.shape@, elements, bytes)),
                ),
            )
        } else {
            None
        },
    }
}

/// What is wrong with a Q4_K tensor.
pub open spec fn q4k_fault(t: TensorView<'_>) -> Option<Fault> {
    if t.ggml_type != GgmlType::Q4K {
        None
    } else {
        first(
            storage_fault(t, 256, 144, "Q4_K"@),
            match bad_q4k_block(t.data@, t.data@.len() as int / 144) {
                Some(b) => Some(
                    Fault::GgufParse(
                        "tensor "@ + quoted(t.name@) + ": Q4_K block "@ + dec(b)
                            + " has a non-finite d or dmin scale"@,
                    ),
                ),
                None => None,
            },
        )
    }
}

/// What is wrong with a Q6_K tensor.
pub open spec fn q6k_fault(t: TensorView<'_>) -> Option<Fault> {
    if t.ggml_type != GgmlType::Q6K {
        None
    } else {
        first(
            storage_fault(t, 256, 210, "Q6_K"@),
            match bad_q6k_block(t.data@, t.data@.len() as int / 210) {
                Some(b) => Some(
                    Fault::GgufParse(
                        "tensor "@ + quoted(t.name@) + ": GGUF parse error: Q6_K block "@ + dec(b)
                            + " has a non-finite d scale"@,
                    ),
                ),
                None => None,
            },
        )
    }
}

/// What is wrong with the Q4_K tensors among the first `n`.
pub open spec fn q4k_faults(ts: Seq<TensorView<'_>>, n: int) -> Option<Fault>
    decreases n,
{
    if n <= 0 {
        None
    } else {
        first(q4k_faults(ts, n - 1), q4k_fault(ts[n - 1]))
    }
}

/// What is wrong with the Q6_K tensors among the first `n`.
pub open spec fn q6k_faults(ts: Seq<TensorView<'_>>, n: int) -> Option<Fault>
    decreases n,
{
    if n <= 0 {
        None
    } else {
        first(q6k_faults(ts, n - 1), q6k_fault(ts[n - 1]))
    }
}

/// A name is that of a bias on queries, keys or values of a layer.
pub open spec fn names_a_projection_bias(name: Seq<char>, blocks: int) -> bool {
    exists|layer: int|
        0 <= layer < blocks && (name == #[trigger] layer_name(layer, LayerTensorRole::AttnQBias)
            || name == layer_name(layer, LayerTensorRole::AttnKBias) || name == layer_name(
            layer,
            LayerTensorRole::AttnVBias,
        ))
}

/// Why a bias tensor is refused.
pub open spec fn bias_fault(
    t: TensorView<'_>,
    name: Seq<char>,
    variant: ForwardVariant,
    blocks: int,
) -> Option<Fault> {
    if has_suffix(t.name@, ".bias"@) && !(variant == ForwardVariant::Qwen2
        && names_a_projection_bias(t.name@, blocks)) {
        Some(
            Fault::NotImplemented(
                "architecture "@ + quoted(name) + " bias tensor "@ + quoted(t.name@)
                    + " is not supported"@,
            ),
        )
    } else {
        None
    }
}

/// Why one of the first `n` tensors is refused as a bias.
pub open spec fn biases_fault(
    ts: Seq<TensorView<'_>>,
    name: Seq<char>,
    variant: ForwardVariant,
    blocks: int,
    n: int,
) -> Option<Fault>
    decreases n,
{
    if n <= 0 {
        None
    } else {
        first(
            biases_fault(ts, name, variant, blocks, n - 1),
            bias_fault(ts[n - 1], name, variant, blocks),
        )
    }
}

/// The first of the first `n` roles that an earlier place has too.
pub open spec fn repeated_role(roles: Seq<LayerTensorRole>, n: int) -> Option<LayerTensorRole>
    decreases n,
{
    if n <= 0 {
        None
    } else if repeated_role(roles, n - 1) is Some {
        repeated_role(roles, n - 1)
    } else if roles.take(n - 1).contains(roles[n - 1]) {
        Some(roles[n - 1])
    } else {
        None
    }
}

/// The roles that every family must have.
pub open spec fn core_roles() -> Seq<LayerTensorRole> {
    seq![
        LayerTensorRole::AttnNorm,
        LayerTensorRole::AttnQ,
        LayerTensorRole::AttnK,
        LayerTensorRole::AttnV,
        LayerTensorRole::AttnOutput,
        LayerTensorRole::FfnNorm,
        LayerTensorRole::FfnGate,
        LayerTensorRole::FfnUp,
        LayerTensorRole::FfnDown,
    ]
}

/// The first of the first `n` core roles that is not among `roles`.
pub open spec fn missing_role(roles: Seq<LayerTensorRole>, n: int) -> Option<LayerTensorRole>
    decreases n,
{
    if n <= 0 {
        None
    } else if missing_role(roles, n - 1) is Some {
        missing_role(roles, n - 1)
    } else if !roles.contains(core_roles()[n - 1]) {
        Some(core_roles()[n - 1])
    } else {
        None
    }
}

/// What is wrong with the roles that a family declares.
pub open spec fn contract_fault(
    name: Seq<char>,
    roles: Seq<LayerTensorRole>,
    variant: ForwardVariant,
) -> Option<Fault> {
    if repeated_role(roles, roles.len() as int) is Some {
        Some(
            Fault::NotImplemented(
                "architecture "@ + quoted(name) + " declares duplicate tensor role "@ + role_text(
                    repeated_role(roles, roles.len() as int)->0,
                ),
            ),
        )
    } else if missing_role(roles, 9) is Some {
        Some(
            Fault::NotImplemented(
                "architecture "@ + quoted(name) + " does not declare required tensor role "@
                    + role_text(missing_role(roles, 9)->0),
            ),
        )
    } else if variant == ForwardVariant::BitNetSubNorm && !(roles.contains(
        LayerTensorRole::AttnSubNorm,
    ) && roles.contains(LayerTensorRole::FfnSubNorm)) {
        Some(
            Fault::NotImplemented(
                "architecture "@ + quoted(name)
                    + " uses BitNetSubNorm without both sub-norm tensor roles"@,
            ),
        )
    } else if variant == ForwardVariant::Qwen2 && !(roles.contains(LayerTensorRole::AttnQBias)
        && roles.contains(LayerTensorRole::AttnKBias) && roles.contains(
        LayerTensorRole::AttnVBias,
    )) {
        Some(
            Fault::NotImplemented(
                "architecture "@ + quoted(name)
                    + " uses Qwen2 without all Q/K/V bias tensor roles"@,
            ),
        )
    } else {
        None
    }
}

/// What is wrong with the tensors of a model.
pub open spec fn tensors_fault(ts: Seq<TensorView<'_>>, d: Dims) -> Option<Fault> {
    if repeats_a_name(ts) {
        Some(Fault::GgufParse("duplicate tensor names in GGUF tensor directory"@))
    } else {
        first(
            q4k_faults(ts, ts.len() as int),
            first(
                q6k_faults(ts, ts.len() as int),
                first(
                    biases_fault(ts, d.name, d.variant, d.blocks, ts.len() as int),
                    first(
                        embedding_fault(ts, d),
                        first(
                            output_norm_fault(ts, d),
                            first(
                                output_fault(ts, d),
                                first(
                                    layers_fault(ts, d, d.blocks),
                                    f32_tensor_fault(ts[lookup(ts, "output_norm.weight"@)->0]),
                                ),
                            ),
                        ),
                    ),
                ),
            ),
        )
    }
}

/// What keeps a file from being a model.
pub open spec fn graph_fault(m: Table, ts: Seq<TensorView<'_>>) -> Option<Fault> {
    first(config_fault(m), tensors_fault(ts, stated_dims(m)))
}

/// The weights of one layer. The numbers of norms and biases are read once and
/// held by their bits.
#[derive(Debug)]
pub struct LayerWeights<'a> {
    pub index: u32,
    pub attn_norm: &'a TensorView<'a>,
    pub attn_norm_f32: Vec<u32>,
    pub attn_q: &'a TensorView<'a>,
    pub attn_q_bias: Option<&'a TensorView<'a>>,
    pub attn_q_bias_f32: Option<Vec<u32>>,
    pub attn_k: &'a TensorView<'a>,
    pub attn_k_bias: Option<&'a TensorView<'a>>,
    pub attn_k_bias_f32: Option<Vec<u32>>,
    pub attn_v: &'a TensorView<'a>,
    pub attn_v_bias: Option<&'a TensorView<'a>>,
    pub attn_v_bias_f32: Option<Vec<u32>>,
    pub attn_output: &'a TensorView<'a>,
    pub attn_sub_norm: Option<&'a TensorView<'a>>,
    pub attn_sub_norm_f32: Option<Vec<u32>>,
    pub ffn_norm: &'a TensorView<'a>,
    pub ffn_norm_f32: Vec<u32>,
    pub ffn_gate: &'a TensorView<'a>,
    pub ffn_up: &'a TensorView<'a>,
    pub ffn_down: &'a TensorView<'a>,
    pub ffn_sub_norm: Option<&'a TensorView<'a>>,
    pub ffn_sub_norm_f32: Option<Vec<u32>>,
}

/// A model: its configuration and its tensors.
#[derive(Debug)]
pub struct ModelGraph<'a> {
    pub config: ModelConfig,
    pub forward_variant: ForwardVariant,
    pub token_embd: &'a TensorView<'a>,
    /// The number of `token_embd` in the directory.
    pub token_embd_index: usize,
    pub output_norm: &'a TensorView<'a>,
    pub output_norm_f32: Vec<u32>,
    /// The weights of the last projection: the embeddings, except where a
    /// Llama or Qwen2 file has weights of its own for it.
    pub lm_head: &'a TensorView<'a>,
    /// The number of `lm_head` in the directory.
    pub lm_head_index: usize,
    /// Whether the file has an `output.weight` tensor.
    pub has_output_weight_tensor: bool,
    pub layers: Vec<LayerWeights<'a>>,
}

/// A tensor that layers of some families have, and its numbers.
pub open spec fn is_optional_part(
    t: Option<&TensorView<'_>>,
    values: Option<Vec<u32>>,
    ts: Seq<TensorView<'_>>,
    d: Dims,
    layer: int,
    role: LayerTensorRole,
) -> bool {
    if d.roles.contains(role) {
        &&& t is Some
        &&& *t->0 == tensor_in(ts, layer, role)
        &&& values is Some
        &&& values->0@ == f32_values(t->0.data@)
    } else {
        t is None && values is None
    }
}

/// `w` holds the weights of a layer.
pub open spec fn is_layer(w: LayerWeights<'_>, ts: Seq<TensorView<'_>>, d: Dims, layer: int) -> bool {
    &&& w.index == layer
    &&& *w.attn_norm == tensor_in(ts, layer, LayerTensorRole::AttnNorm)
    &&& w.attn_norm_f32@ == f32_values(w.attn_norm.data@)
    &&& *w.attn_q == tensor_in(ts, layer, LayerTensorRole::AttnQ)
    &&& is_optional_part(
        w.attn_q_bias,
        w.attn_q_bias_f32,
        ts,
        d,
        layer,
        LayerTensorRole::AttnQBias,
    )
    &&& *w.attn_k == tensor_in(ts, layer, LayerTensorRole::AttnK)
    &&& is_optional_part(
        w.attn_k_bias,
        w.attn_k_bias_f32,
        ts,
        d,
        layer,
        LayerTensorRole::AttnKBias,
    )
    &&& *w.attn_v == tensor_in(ts, layer, LayerTensorRole::AttnV)
    &&& is_optional_part(
        w.attn_v_bias,
        w.attn_v_bias_f32,
        ts,
        d,
        layer,
        LayerTensorRole::AttnVBias,
    )
    &&& *w.attn_output == tensor_in(ts, layer, LayerTensorRole::AttnOutput)
    &&& is_optional_part(
        w.attn_sub_norm,
        w.attn_sub_norm_f32,
        ts,
        d,
        layer,
        LayerTensorRole::AttnSubNorm,
    )
    &&& *w.ffn_norm == tensor_in(ts, layer, LayerTensorRole::FfnNorm)
    &&& w.ffn_norm_f32@ == f32_values(w.ffn_norm.data@)
    &&& *w.ffn_gate == tensor_in(ts, layer, LayerTensorRole::FfnGate)
    &&& *w.ffn_up == tensor_in(ts, layer, LayerTensorRole::FfnUp)
    &&& *w.ffn_down == tensor_in(ts, layer, LayerTensorRole::FfnDown)
    &&& is_optional_part(
        w.ffn_sub_norm,
        w.ffn_sub_norm_f32,
        ts,
        d,
        layer,
        LayerTensorRole::FfnSubNorm,
    )
}

impl<'a> ModelGraph<'a> {
    /// The graph is that of a file with this metadata and these tensors.
    pub open spec fn describes(&self, m: Table, ts: Seq<TensorView<'a>>) -> bool {
        let d = stated_dims(m);
        let own = lookup(ts, "output.weight"@);
        &&& is_config(self.config, m)
        &&& self.forward_variant == d.variant
        &&& lookup(ts, "token_embd.weight"@) == Some(self.token_embd_index as int)
        &&& *self.token_embd == ts[self.token_embd_index as int]
        &&& *self.output_norm == ts[lookup(ts, "output_norm.weight"@)->0]
        &&& self.output_norm_f32@ == f32_values(self.output_norm.data@)
        &&& self.has_output_weight_tensor == (own is Some)
        &&& self.lm_head_index == (if own is Some && d.variant != ForwardVariant::BitNetSubNorm {
            own->0
        } else {
            self.token_embd_index as int
        })
        &&& *self.lm_head == ts[self.lm_head_index as int]
        &&& self.layers@.len() == d.blocks
        &&& forall|i: int|
            0 <= i < self.layers@.len() ==> is_layer(#[trigger] self.layers@[i], ts, d, i)
    }
}

/// What `named` finds is a tensor of that name, among those it looked at.
proof fn lemma_named(ts: Seq<TensorView<'_>>, name: Seq<char>, n: int)
    requires
        0 <= n <= ts.len(),
    ensures
        named(ts, name, n) matches Some(i) ==> 0 <= i < n && ts[i].name@ == name,
        named(ts, name, n) is None ==> forall|i: int|
            0 <= i < n ==> (#[trigger] ts[i]).name@ != name,
    decreases n,
{
    if n > 0 {
        lemma_named(ts, name, n - 1);
    }
}

/// What is found by name is a tensor of that name.
pub(crate) proof fn lemma_lookup_in_bounds(ts: Seq<TensorView<'_>>, name: Seq<char>)
    ensures
        lookup(ts, name) matches Some(i) ==> 0 <= i < ts.len() && ts[i].name@ == name,
{
    lemma_named(ts, name, ts.len() as int);
}

/// Once a tensor is found, looking further does not change it.
proof fn lemma_named_stays(ts: Seq<TensorView<'_>>, name: Seq<char>, n: int, m: int)
    requires
        0 <= n <= m <= ts.len(),
        named(ts, name, n) is Some,
    ensures
        named(ts, name, m) == named(ts, name, n),
    decreases m - n,
{
    if n < m {
        lemma_named_stays(ts, name, n, m - 1);
    }
}

/// Finds a tensor by its name.
fn find_tensor(tensors: &[TensorView<'_>], name: &str) -> (r: Option<usize>)
    ensures
        match r {
            Some(i) => i < tensors@.len() && lookup(tensors@, name@) == Some(i as int),
            None => lookup(tensors@, name@) is None,
        },
{
    let mut i: usize = 0;
    while i < tensors.len()
        invariant
            i <= tensors.len(),
            named(tensors@, name@, i as int) is None,
        decreases tensors.len() - i,
    {
        if same_text(tensors[i].name.as_str(), name) {
            proof {
                lemma_named_stays(tensors@, name@, i + 1, tensors@.len() as int);
            }
            return Some(i);
        }
        i = i + 1;
    }
    None
}

/// The error for a tensor that is not there.
fn missing_tensor(name: &str) -> (e: WillametteError)
    ensures
        Some(e@) == absent(name@),
{
    let mut keys: Vec<String> = Vec::new();
    keys.push(cat2("tensor ", name));
    proof {
        assert(views(keys@) =~= seq!["tensor "@ + name@]);
    }
    WillametteError::MissingMetadata(keys)
}

/// Finds a tensor that must be there.
fn require_tensor(tensors: &[TensorView<'_>], name: &str) -> (r: Result<usize, WillametteError>)
    ensures
        match r {
            Ok(i) => i < tensors@.len() && lookup(tensors@, name@) == Some(i as int),
            Err(e) => lookup(tensors@, name@) is None && Some(e@) == absent(name@),
        },
{
    match find_tensor(tensors, name) {
        Some(i) => Ok(i),
        None => Err(missing_tensor(name)),
    }
}

/// The name of a layer's tensor.
fn layer_tensor_name(layer: u32, role: LayerTensorRole) -> (s: String)
    ensures
        s@ == layer_name(layer as int, role),
{
    let number = decimal(layer as u64);
    cat6("blk.", number.as_str(), ".", role.suffix(), ".", role.tensor_kind())
}

/// Finds the tensor that a layer must have in a role.
fn require_layer_tensor(tensors: &[TensorView<'_>], layer: u32, role: LayerTensorRole) -> (r:
    Result<usize, WillametteError>)
    ensures
        match r {
            Ok(i) => i < tensors@.len() && lookup(tensors@, layer_name(layer as int, role)) == Some(
                i as int,
            ),
            Err(e) => lookup(tensors@, layer_name(layer as int, role)) is None && Some(e@)
                == absent(layer_name(layer as int, role)),
        },
{
    let name = layer_tensor_name(layer, role);
    require_tensor(tensors, name.as_str())
}

/// Whether two tensors have the same name.
fn has_repeated_name(tensors: &[TensorView<'_>]) -> (b: bool)
    ensures
        b == repeats_a_name(tensors@),
{
    let mut j: usize = 0;
    while j < tensors.len()
        invariant
            j <= tensors.len(),
            forall|a: int, b: int|
                0 <= a < b < j ==> (#[trigger] tensors@[a]).name@ != (
                #[trigger] tensors@[b]).name@,
        decreases tensors.len() - j,
    {
        let mut i: usize = 0;
        while i < j
            invariant
                i <= j,
                j < tensors.len(),
                forall|a: int|
                    0 <= a < i ==> (#[trigger] tensors@[a]).name@ != tensors@[j as int].name@,
            decreases j - i,
        {
            if same_text(tensors[i].name.as_str(), tensors[j].name.as_str()) {
                proof {
                    assert(tensors@[i as int].name@ == tensors@[j as int].name@);
                }
                return true;
            }
            i = i + 1;
        }
        j = j + 1;
    }
    false
}

/// Checks the type of a tensor.
fn check_dtype(t: &TensorView<'_>, expected: GgmlType) -> (r: Result<(), WillametteError>)
    ensures
        match r {
            Ok(_) => dtype_fault(*t, expected) is None,
            Err(e) => dtype_fault(*t, expected) == Some(e@),
        },
{
    if t.ggml_type != expected {
        let name = quote(t.name.as_str());
        let wanted = expected.name();
        let wanted_raw = decimal(expected.to_raw() as u64);
        let found = t.ggml_type.name();
        let found_raw = decimal(t.ggml_type.to_raw() as u64);
        let start = cat6(
            "tensor ",
            name.as_str(),
            ": expected dtype ",
            wanted.as_str(),
            " (",
            wanted_raw.as_str(),
        );
        return Err(
            WillametteError::GgufParse(
                cat6(
                    start.as_str(),
                    "), got ",
                    found.as_str(),
                    " (",
                    found_raw.as_str(),
                    ")",
                ),
            ),
        );
    }
    Ok(())
}

/// The names of types, with `or` between them.
fn list_types(types: &Vec<GgmlType>) -> (s: String)
    ensures
        s@ == type_names(types@),
{
    let mut names: Vec<String> = Vec::new();
    let mut i: usize = 0;
    while i < types.len()
        invariant
            i <= types.len(),
            names@.len() == i,
            forall|k: int| 0 <= k < i ==> (#[trigger] names@[k])@ == ggml_name(types@[k]),
        decreases types.len() - i,
    {
        names.push(types[i].name());
        i = i + 1;
    }
    proof {
        assert(views(names@) =~= types@.map_values(|t: GgmlType| ggml_name(t)));
    }
    join(&names, " or ")
}

/// Checks that a tensor has one of several types.
fn check_dtype_one_of(t: &TensorView<'_>, expected: &Vec<GgmlType>) -> (r: Result<
    (),
    WillametteError,
>)
    ensures
        match r {
            Ok(_) => dtypes_fault(*t, expected@) is None,
            Err(e) => dtypes_fault(*t, expected@) == Some(e@),
        },
{
    let mut i: usize = 0;
    while i < expected.len()
        invariant
            i <= expected.len(),
            forall|k: int| 0 <= k < i ==> #[trigger] expected@[k] != t.ggml_type,
        decreases expected.len() - i,
    {
        if expected[i] == t.ggml_type {
            proof {
                assert(expected@[i as int] == t.ggml_type);
            }
            return Ok(());
        }
        i = i + 1;
    }
    let name = quote(t.name.as_str());
    let wanted = list_types(expected);
    let found = t.ggml_type.name();
    let raw = decimal(t.ggml_type.to_raw() as u64);
    let start = cat4("tensor ", name.as_str(), ": expected dtype ", wanted.as_str());
    Err(
        WillametteError::GgufParse(
            cat6(start.as_str(), ", got ", found.as_str(), " (", raw.as_str(), ")"),
        ),
    )
}

/// Whether two lists of dimensions are the same.
fn same_shape(a: &Vec<u64>, b: &Vec<u64>) -> (r: bool)
    ensures
        r == (a@ == b@),
{
    if a.len() != b.len() {
        return false;
    }
    let mut i: usize = 0;
    while i < a.len()
        invariant
            i <= a.len(),
            a.len() == b.len(),
            forall|k: int| 0 <= k < i ==> a@[k] == b@[k],
        decreases a.len() - i,
    {
        if a[i] != b[i] {
            return false;
        }
        i = i + 1;
    }
    proof {
        assert(a@ =~= b@);
    }
    true
}

/// Checks the shape of a tensor.
fn check_shape(t: &TensorView<'_>, expected: &Vec<u64>) -> (r: Result<(), WillametteError>)
    ensures
        match r {
            Ok(_) => shape_fault(*t, expected@) is None,
            Err(e) => shape_fault(*t, expected@) == Some(e@),
        },
{
    if !same_shape(&t.shape, expected) {
        let name = quote(t.name.as_str());
        let wanted = bracket(expected.as_slice());
        let found = bracket(t.shape.as_slice());
        return Err(
            WillametteError::GgufParse(
                cat6(
                    "tensor ",
                    name.as_str(),
                    ": expected shape ",
                    wanted.as_str(),
                    ", got ",
                    found.as_str(),
                ),
            ),
        );
    }
    Ok(())
}

/// The types of weight matrices outside BitNet.
fn plain_weight_types() -> (types: Vec<GgmlType>)
    ensures
        types@ == seq![
            GgmlType::F16,
            GgmlType::Q4_0,
            GgmlType::Q4K,
            GgmlType::Q6K,
            GgmlType::Q8_0,
        ],
{
    let mut types: Vec<GgmlType> = Vec::new();
    types.push(GgmlType::F16);
    types.push(GgmlType::Q4_0);
    types.push(GgmlType::Q4K);
    types.push(GgmlType::Q6K);
    types.push(GgmlType::Q8_0);
    proof {
        assert(types@ =~= seq![
            GgmlType::F16,
            GgmlType::Q4_0,
            GgmlType::Q4K,
            GgmlType::Q6K,
            GgmlType::Q8_0,
        ]);
    }
    types
}

/// Checks the type of a weight matrix of a layer.
pub fn check_linear_dtype(tensor: &TensorView<'_>, variant: ForwardVariant) -> (r: Result<
    (),
    WillametteError,
>)
    ensures
        match r {
            Ok(_) => linear_fault(*tensor, variant) is None,
            Err(e) => linear_fault(*tensor, variant) == Some(e@),
        },
{
    match variant {
        ForwardVariant::BitNetSubNorm => check_dtype(tensor, GgmlType::BitNetI2S),
        _ => check_dtype_one_of(tensor, &plain_weight_types()),
    }
}

/// One dimension.
fn one_dim(a: u64) -> (v: Vec<u64>)
    ensures
        v@ == seq![a],
{
    let mut v: Vec<u64> = Vec::new();
    v.push(a);
    proof {
        assert(v@ =~= seq![a]);
    }
    v
}

/// Two dimensions.
fn two_dims(a: u64, b: u64) -> (v: Vec<u64>)
    ensures
        v@ == seq![a, b],
{
    let mut v: Vec<u64> = Vec::new();
    v.push(a);
    v.push(b);
    proof {
        assert(v@ =~= seq![a, b]);
    }
    v
}

/// The shape that a role requires.
fn shape_for(config: &ModelConfig, role: LayerTensorRole, Ghost(d): Ghost<Dims>) -> (v: Vec<u64>)
    requires
        d.embedding == config.embedding_length,
        d.feed_forward == config.feed_forward_length,
        d.kv == config.kv_dim,
    ensures
        v@ == role_shape(d, role),
{
    let n_embd: u64 = config.embedding_length as u64;
    let n_ff: u64 = config.feed_forward_length as u64;
    let kv_dim: u64 = config.kv_dim as u64;
    match role {
        LayerTensorRole::AttnNorm => one_dim(n_embd),
        LayerTensorRole::AttnSubNorm => one_dim(n_embd),
        LayerTensorRole::FfnNorm => one_dim(n_embd),
        LayerTensorRole::FfnSubNorm => one_dim(n_ff),
        LayerTensorRole::AttnQ => two_dims(n_embd, n_embd),
        LayerTensorRole::AttnK => two_dims(n_embd, kv_dim),
        LayerTensorRole::AttnV => two_dims(n_embd, kv_dim),
        LayerTensorRole::AttnQBias => one_dim(n_embd),
        LayerTensorRole::AttnKBias => one_dim(kv_dim),
        LayerTensorRole::AttnVBias => one_dim(kv_dim),
        LayerTensorRole::AttnOutput => two_dims(n_embd, n_embd),
        LayerTensorRole::FfnGate => two_dims(n_embd, n_ff),
        LayerTensorRole::FfnUp => two_dims(n_embd, n_ff),
        LayerTensorRole::FfnDown => two_dims(n_ff, n_embd),
    }
}

/// Checks a tensor against its role.
fn check_layer_tensor(
    tensor: &TensorView<'_>,
    role: LayerTensorRole,
    config: &ModelConfig,
    variant: ForwardVariant,
    Ghost(d): Ghost<Dims>,
) -> (r: Result<(), WillametteError>)
    requires
        d.embedding == config.embedding_length,
        d.feed_forward == config.feed_forward_length,
        d.kv == config.kv_dim,
        d.variant == variant,
    ensures
        match r {
            Ok(_) => role_fault(*tensor, role, d) is None,
            Err(e) => role_fault(*tensor, role, d) == Some(e@),
        },
{
    let typed = match role {
        LayerTensorRole::AttnQ => check_linear_dtype(tensor, variant),
        LayerTensorRole::AttnK => check_linear_dtype(tensor, variant),
        LayerTensorRole::AttnV => check_linear_dtype(tensor, variant),
        LayerTensorRole::AttnOutput => check_linear_dtype(tensor, variant),
        LayerTensorRole::FfnGate => check_linear_dtype(tensor, variant),
        LayerTensorRole::FfnUp => check_linear_dtype(tensor, variant),
        LayerTensorRole::FfnDown => check_linear_dtype(tensor, variant),
        _ => check_dtype(tensor, GgmlType::F32),
    };
    match typed {
        Ok(_) => check_shape(tensor, &shape_for(config, role, Ghost(d))),
        Err(e) => Err(e),
    }
}

/// What the check of one tensor goes by.
pub open spec fn tensor_dims(config: ModelConfig, variant: ForwardVariant) -> Dims {
    Dims {
        name: config.architecture@,
        variant,
        roles: Seq::empty(),
        blocks: config.block_count as int,
        embedding: config.embedding_length as int,
        feed_forward: config.feed_forward_length as int,
        kv: config.kv_dim as int,
        vocab: config.vocab_size as int,
    }
}

/// Checks a tensor against its role.
pub fn validate_layer_tensor(
    tensor: &TensorView<'_>,
    role: LayerTensorRole,
    config: &ModelConfig,
    variant: ForwardVariant,
) -> (r: Result<(), WillametteError>)
    ensures
        match r {
            Ok(_) => role_fault(*tensor, role, tensor_dims(*config, variant)) is None,
            Err(e) => role_fault(*tensor, role, tensor_dims(*config, variant)) == Some(e@),
        },
{
    check_layer_tensor(tensor, role, config, variant, Ghost(tensor_dims(*config, variant)))
}

/// Two bytes at a place as a half-precision number that is finite.
fn half_is_finite(data: &[u8], at: usize) -> (b: bool)
    requires
        at + 2 <= data@.len(),
    ensures
        b == finite_half(le16(data@.skip(at as int)) as u16),
{
    let lo = data[at] as u16;
    let hi = data[at + 1] as u16;
    let bits: u16 = lo + 0x100 * hi;
    proof {
        let s = data@.skip(at as int);
        assert(s[0] == lo && s[1] == hi);
        widening_keeps_finiteness(bits);
    }
    is_finite_bits(f16_to_f32(bits))
}

/// Checks that the bytes of a block-quantised tensor are as many as its shape
/// needs.
fn check_storage(t: &TensorView<'_>, elements: u64, bytes: u64, label: &str) -> (r: Result<
    (),
    WillametteError,
>)
    requires
        elements > 0,
    ensures
        match r {
            Ok(_) => storage_fault(*t, elements, bytes, label@) is None,
            Err(e) => storage_fault(*t, elements, bytes, label@) == Some(e@),
        },
{
    let expected: u64 = match crate::gguf::tensor::block_byte_len(
        t.shape.as_slice(),
        elements,
        bytes,
        label,
    ) {
        Ok(n) => n,
        Err(e) => {
            return Err(e);
        },
    };
    if expected > usize::MAX as u64 {
        return Err(WillametteError::GgufParse(cat2(label, " tensor size overflow")));
    }
    if t.data.len() as u64 != expected {
        let name = quote(t.name.as_str());
        let found = decimal(t.data.len() as u64);
        let wanted = decimal(expected);
        let start = cat4("tensor ", name.as_str(), ": ", label);
        return Err(
            WillametteError::GgufParse(
                cat5(
                    start.as_str(),
                    " data length ",
                    found.as_str(),
                    " != expected ",
                    wanted.as_str(),
                ),
            ),
        );
    }
    Ok(())
}

/// A bad block stays the first bad block.
proof fn lemma_bad_q4k_stays(data: Seq<u8>, n: int, m: int)
    requires
        0 <= n <= m,
        bad_q4k_block(data, n) is Some,
    ensures
        bad_q4k_block(data, m) == bad_q4k_block(data, n),
    decreases m - n,
{
    if n < m {
        lemma_bad_q4k_stays(data, n, m - 1);
    }
}

/// A bad block stays the first bad block.
proof fn lemma_bad_q6k_stays(data: Seq<u8>, n: int, m: int)
    requires
        0 <= n <= m,
        bad_q6k_block(data, n) is Some,
    ensures
        bad_q6k_block(data, m) == bad_q6k_block(data, n),
    decreases m - n,
{
    if n < m {
        lemma_bad_q6k_stays(data, n, m - 1);
    }
}

/// Checks one tensor if it is Q4_K.
fn check_q4k(t: &TensorView<'_>) -> (r: Result<(), WillametteError>)
    ensures
        match r {
            Ok(_) => q4k_fault(*t) is None,
            Err(e) => q4k_fault(*t) == Some(e@),
        },
{
    if t.ggml_type != GgmlType::Q4K {
        return Ok(());
    }
    match check_storage(t, 256, 144, "Q4_K") {
        Ok(_) => {},
        Err(e) => {
            return Err(e);
        },
    }
    let blocks: usize = t.data.len() / 144;
    let mut b: usize = 0;
    while b < blocks
        invariant
            b <= blocks,
            blocks == t.data@.len() / 144,
            t.data@.len() <= usize::MAX,
            t.ggml_type == GgmlType::Q4K,
            storage_fault(*t, 256, 144, "Q4_K"@) is None,
            bad_q4k_block(t.data@, b as int) is None,
        decreases blocks - b,
    {
        if !half_is_finite(t.data, 144 * b) || !half_is_finite(t.data, 144 * b + 2) {
            let name = quote(t.name.as_str());
            let number = decimal(b as u64);
            proof {
                lemma_bad_q4k_stays(t.data@, b + 1, blocks as int);
            }
            return Err(
                WillametteError::GgufParse(
                    cat5(
                        "tensor ",
                        name.as_str(),
                        ": Q4_K block ",
                        number.as_str(),
                        " has a non-finite d or dmin scale",
                    ),
                ),
            );
        }
        b = b + 1;
    }
    Ok(())
}

/// Checks one tensor if it is Q6_K.
fn check_q6k(t: &TensorView<'_>) -> (r: Result<(), WillametteError>)
    ensures
        match r {
            Ok(_) => q6k_fault(*t) is None,
            Err(e) => q6k_fault(*t) == Some(e@),
        },
{
    if t.ggml_type != GgmlType::Q6K {
        return Ok(());
    }
    match check_storage(t, 256, 210, "Q6_K") {
        Ok(_) => {},
        Err(e) => {
            return Err(e);
        },
    }
    let blocks: usize = t.data.len() / 210;
    let mut b: usize = 0;
    while b < blocks
        invariant
            b <= blocks,
            blocks == t.data@.len() / 210,
            t.data@.len() <= usize::MAX,
            t.ggml_type == GgmlType::Q6K,
            storage_fault(*t, 256, 210, "Q6_K"@) is None,
            bad_q6k_block(t.data@, b as int) is None,
        decreases blocks - b,
    {
        if !half_is_finite(t.data, 210 * b + 208) {
            let name = quote(t.name.as_str());
            let number = decimal(b as u64);
            proof {
                lemma_bad_q6k_stays(t.data@, b + 1, blocks as int);
            }
            return Err(
                WillametteError::GgufParse(
                    cat5(
                        "tensor ",
                        name.as_str(),
                        ": GGUF parse error: Q6_K block ",
                        number.as_str(),
                        " has a non-finite d scale",
                    ),
                ),
            );
        }
        b = b + 1;
    }
    Ok(())
}

/// A faulty tensor stays the first faulty one.
proof fn lemma_q4k_stays(ts: Seq<TensorView<'_>>, n: int, m: int)
    requires
        0 <= n <= m,
        q4k_faults(ts, n) is Some,
    ensures
        q4k_faults(ts, m) == q4k_faults(ts, n),
    decreases m - n,
{
    if n < m {
        lemma_q4k_stays(ts, n, m - 1);
    }
}

/// A faulty tensor stays the first faulty one.
proof fn lemma_q6k_stays(ts: Seq<TensorView<'_>>, n: int, m: int)
    requires
        0 <= n <= m,
        q6k_faults(ts, n) is Some,
    ensures
        q6k_faults(ts, m) == q6k_faults(ts, n),
    decreases m - n,
{
    if n < m {
        lemma_q6k_stays(ts, n, m - 1);
    }
}

/// A refused bias stays the first refused one.
proof fn lemma_biases_stay(
    ts: Seq<TensorView<'_>>,
    name: Seq<char>,
    variant: ForwardVariant,
    blocks: int,
    n: int,
    m: int,
)
    requires
        0 <= n <= m,
        biases_fault(ts, name, variant, blocks, n) is Some,
    ensures
        biases_fault(ts, name, variant, blocks, m) == biases_fault(ts, name, variant, blocks, n),
    decreases m - n,
{
    if n < m {
        lemma_biases_stay(ts, name, variant, blocks, n, m - 1);
    }
}

/// Checks the storage and the scales of all Q4_K tensors.
pub fn validate_q4_k_super_scales(tensors: &[TensorView<'_>]) -> (r: Result<(), WillametteError>)
    ensures
        match r {
            Ok(_) => q4k_faults(tensors@, tensors@.len() as int) is None,
            Err(e) => q4k_faults(tensors@, tensors@.len() as int) == Some(e@),
        },
{
    let mut i: usize = 0;
    while i < tensors.len()
        invariant
            i <= tensors.len(),
            q4k_faults(tensors@, i as int) is None,
        decreases tensors.len() - i,
    {
        match check_q4k(&tensors[i]) {
            Ok(_) => {},
            Err(e) => {
                proof {
                    lemma_q4k_stays(tensors@, i + 1, tensors@.len() as int);
                }
                return Err(e);
            },
        }
        i = i + 1;
    }
    Ok(())
}

/// Checks the storage and the scales of all Q6_K tensors.
pub fn validate_q6_k_scales(tensors: &[TensorView<'_>]) -> (r: Result<(), WillametteError>)
    ensures
        match r {
            Ok(_) => q6k_faults(tensors@, tensors@.len() as int) is None,
            Err(e) => q6k_faults(tensors@, tensors@.len() as int) == Some(e@),
        },
{
    let mut i: usize = 0;
    while i < tensors.len()
        invariant
            i <= tensors.len(),
            q6k_faults(tensors@, i as int) is None,
        decreases tensors.len() - i,
    {
        match check_q6k(&tensors[i]) {
            Ok(_) => {},
            Err(e) => {
                proof {
                    lemma_q6k_stays(tensors@, i + 1, tensors@.len() as int);
                }
                return Err(e);
            },
        }
        i = i + 1;
    }
    Ok(())
}

/// Whether a name is that of a bias on queries, keys or values.
fn is_projection_bias(name: &str, blocks: u32) -> (b: bool)
    ensures
        b == names_a_projection_bias(name@, blocks as int),
{
    let mut layer: u32 = 0;
    while layer < blocks
        invariant
            layer <= blocks,
            forall|l: int|
                0 <= l < layer ==> name@ != #[trigger] layer_name(l, LayerTensorRole::AttnQBias)
                    && name@ != layer_name(l, LayerTensorRole::AttnKBias) && name@ != layer_name(
                    l,
                    LayerTensorRole::AttnVBias,
                ),
        decreases blocks - layer,
    {
        let q = layer_tensor_name(layer, LayerTensorRole::AttnQBias);
        let k = layer_tensor_name(layer, LayerTensorRole::AttnKBias);
        let v = layer_tensor_name(layer, LayerTensorRole::AttnVBias);
        if same_text(name, q.as_str()) || same_text(name, k.as_str()) || same_text(
            name,
            v.as_str(),
        ) {
            return true;
        }
        layer = layer + 1;
    }
    false
}

/// Refuses bias tensors that no layer uses.
pub fn reject_unsupported_bias_tensors(
    architecture: &str,
    tensors: &[TensorView<'_>],
    variant: ForwardVariant,
    block_count: u32,
) -> (r: Result<(), WillametteError>)
    ensures
        match r {
            Ok(_) => biases_fault(
                tensors@,
                architecture@,
                variant,
                block_count as int,
                tensors@.len() as int,
            ) is None,
            Err(e) => biases_fault(
                tensors@,
                architecture@,
                variant,
                block_count as int,
                tensors@.len() as int,
            ) == Some(e@),
        },
{
    let mut i: usize = 0;
    while i < tensors.len()
        invariant
            i <= tensors.len(),
            biases_fault(tensors@, architecture@, variant, block_count as int, i as int) is None,
        decreases tensors.len() - i,
    {
        let name = tensors[i].name.as_str();
        if finishes_with(name, ".bias") {
            let supported: bool = variant == ForwardVariant::Qwen2 && is_projection_bias(
                name,
                block_count,
            );
            if !supported {
                let family = quote(architecture);
                let shown = quote(name);
                proof {
                    lemma_biases_stay(
                        tensors@,
                        architecture@,
                        variant,
                        block_count as int,
                        i + 1,
                        tensors@.len() as int,
                    );
                }
                return Err(
                    WillametteError::NotImplemented(
                        cat5(
                            "architecture ",
                            family.as_str(),
                            " bias tensor ",
                            shown.as_str(),
                            " is not supported",
                        ),
                    ),
                );
            }
        }
        i = i + 1;
    }
    Ok(())
}

/// Whether a role is among the first `n` of a list.
fn role_among(roles: &[LayerTensorRole], n: usize, role: LayerTensorRole) -> (b: bool)
    requires
        n <= roles@.len(),
    ensures
        b == roles@.take(n as int).contains(role),
{
    let mut i: usize = 0;
    while i < n
        invariant
            i <= n <= roles@.len(),
            forall|k: int| 0 <= k < i ==> #[trigger] roles@[k] != role,
        decreases n - i,
    {
        if roles[i] == role {
            proof {
                assert(roles@.take(n as int)[i as int] == role);
            }
            return true;
        }
        i = i + 1;
    }
    proof {
        assert forall|k: int| 0 <= k < n implies roles@.take(n as int)[k] != role by {
            assert(roles@[k] != role);
        }
    }
    false
}

/// Whether a role is in a list.
fn has_role(roles: &[LayerTensorRole], role: LayerTensorRole) -> (b: bool)
    ensures
        b == roles@.contains(role),
{
    let b = role_among(roles, roles.len(), role);
    proof {
        assert(roles@.take(roles@.len() as int) =~= roles@);
    }
    b
}

/// A repeated role stays the first repeated one.
proof fn lemma_repeated_stays(roles: Seq<LayerTensorRole>, n: int, m: int)
    requires
        0 <= n <= m,
        repeated_role(roles, n) is Some,
    ensures
        repeated_role(roles, m) == repeated_role(roles, n),
    decreases m - n,
{
    if n < m {
        lemma_repeated_stays(roles, n, m - 1);
    }
}

/// A missing role stays the first missing one.
proof fn lemma_missing_stays(roles: Seq<LayerTensorRole>, n: int, m: int)
    requires
        0 <= n <= m,
        missing_role(roles, n) is Some,
    ensures
        missing_role(roles, m) == missing_role(roles, n),
    decreases m - n,
{
    if n < m {
        lemma_missing_stays(roles, n, m - 1);
    }
}

/// The roles that every family must have.
fn list_core_roles() -> (roles: Vec<LayerTensorRole>)
    ensures
        roles@ == core_roles(),
{
    let mut roles: Vec<LayerTensorRole> = Vec::new();
    roles.push(LayerTensorRole::AttnNorm);
    roles.push(LayerTensorRole::AttnQ);
    roles.push(LayerTensorRole::AttnK);
    roles.push(LayerTensorRole::AttnV);
    roles.push(LayerTensorRole::AttnOutput);
    roles.push(LayerTensorRole::FfnNorm);
    roles.push(LayerTensorRole::FfnGate);
    roles.push(LayerTensorRole::FfnUp);
    roles.push(LayerTensorRole::FfnDown);
    proof {
        assert(roles@ =~= core_roles());
    }
    roles
}

/// Checks that a family declares each role once, the core roles, and those
/// that its block shape needs.
pub fn validate_role_contract(
    architecture: &str,
    roles: &[LayerTensorRole],
    variant: ForwardVariant,
) -> (r: Result<(), WillametteError>)
    ensures
        match r {
            Ok(_) => contract_fault(architecture@, roles@, variant) is None,
            Err(e) => contract_fault(architecture@, roles@, variant) == Some(e@),
        },
{
    let mut i: usize = 0;
    while i < roles.len()
        invariant
            i <= roles.len(),
            repeated_role(roles@, i as int) is None,
        decreases roles.len() - i,
    {
        if role_among(roles, i, roles[i]) {
            let name = quote(architecture);
            proof {
                lemma_repeated_stays(roles@, i + 1, roles@.len() as int);
            }
            return Err(
                WillametteError::NotImplemented(
                    cat4(
                        "architecture ",
                        name.as_str(),
                        " declares duplicate tensor role ",
                        roles[i].text(),
                    ),
                ),
            );
        }
        i = i + 1;
    }
    let core = list_core_roles();
    let mut k: usize = 0;
    while k < core.len()
        invariant
            k <= core.len(),
            core@ == core_roles(),
            core@.len() == 9,
            repeated_role(roles@, roles@.len() as int) is None,
            missing_role(roles@, k as int) is None,
        decreases core.len() - k,
    {
        if !has_role(roles, core[k]) {
            let name = quote(architecture);
            proof {
                lemma_missing_stays(roles@, k + 1, 9);
            }
            return Err(
                WillametteError::NotImplemented(
                    cat4(
                        "architecture ",
                        name.as_str(),
                        " does not declare required tensor role ",
                        core[k].text(),
                    ),
                ),
            );
        }
        k = k + 1;
    }
    if variant == ForwardVariant::BitNetSubNorm && (!has_role(roles, LayerTensorRole::AttnSubNorm)
        || !has_role(roles, LayerTensorRole::FfnSubNorm)) {
        let name = quote(architecture);
        return Err(
            WillametteError::NotImplemented(
                cat3(
                    "architecture ",
                    name.as_str(),
                    " uses BitNetSubNorm without both sub-norm tensor roles",
                ),
            ),
        );
    }
    if variant == ForwardVariant::Qwen2 && (!has_role(roles, LayerTensorRole::AttnQBias)
        || !has_role(roles, LayerTensorRole::AttnKBias) || !has_role(
        roles,
        LayerTensorRole::AttnVBias,
    )) {
        let name = quote(architecture);
        return Err(
            WillametteError::NotImplemented(
                cat3(
                    "architecture ",
                    name.as_str(),
                    " uses Qwen2 without all Q/K/V bias tensor roles",
                ),
            ),
        );
    }
    Ok(())
}

/// Where the first `n` tensors of a layer are in order, each of them is.
proof fn lemma_places(ts: Seq<TensorView<'_>>, d: Dims, layer: int, n: int, k: int)
    requires
        places_fault(ts, d, layer, n) is None,
        0 <= k < n,
    ensures
        place_fault(ts, d, layer, d.roles[k]) is None,
    decreases n,
{
    if k < n - 1 {
        lemma_places(ts, d, layer, n - 1, k);
    }
}

/// A tensor out of order stays the first one.
proof fn lemma_places_stay(ts: Seq<TensorView<'_>>, d: Dims, layer: int, n: int, m: int)
    requires
        0 <= n <= m,
        places_fault(ts, d, layer, n) is Some,
    ensures
        places_fault(ts, d, layer, m) == places_fault(ts, d, layer, n),
    decreases m - n,
{
    if n < m {
        lemma_places_stay(ts, d, layer, n, m - 1);
    }
}

/// A faulty layer stays the first one.
proof fn lemma_layers_stay(ts: Seq<TensorView<'_>>, d: Dims, n: int, m: int)
    requires
        0 <= n <= m,
        layers_fault(ts, d, n) is Some,
    ensures
        layers_fault(ts, d, m) == layers_fault(ts, d, n),
    decreases m - n,
{
    if n < m {
        lemma_layers_stay(ts, d, n, m - 1);
    }
}

/// The tensor that a layer has in a role is there and in order.
proof fn lemma_role_in_order(ts: Seq<TensorView<'_>>, d: Dims, layer: int, role: LayerTensorRole)
    requires
        places_fault(ts, d, layer, d.roles.len() as int) is None,
        d.roles.contains(role),
    ensures
        place_fault(ts, d, layer, role) is None,
        lookup(ts, layer_name(layer, role)) is Some,
{
    let k = choose|k: int| 0 <= k < d.roles.len() && d.roles[k] == role;
    lemma_places(ts, d, layer, d.roles.len() as int, k);
}

/// A list of one dimension has that dimension as its product.
proof fn lemma_product_of_one(a: u64)
    ensures
        product(seq![a]) == a,
        products_fit(seq![a]),
{
    let s = seq![a];
    assert(s.drop_last() =~= Seq::<u64>::empty());
    assert(product(s.drop_last()) == 1);
    assert(product_fault(s.drop_last()) is None);
    assert(s.last() == a);
    assert(1 * a == a) by (nonlinear_arith);
}

/// Finds the tensor that a layer has in a role which its family declares.
fn part<'a>(
    tensors: &'a Vec<TensorView<'a>>,
    layer: u32,
    role: LayerTensorRole,
    Ghost(d): Ghost<Dims>,
) -> (t: &'a TensorView<'a>)
    requires
        places_fault(tensors@, d, layer as int, d.roles.len() as int) is None,
        d.roles.contains(role),
    ensures
        *t == tensor_in(tensors@, layer as int, role),
{
    proof {
        lemma_role_in_order(tensors@, d, layer as int, role);
    }
    match require_layer_tensor(tensors.as_slice(), layer, role) {
        Ok(i) => &tensors[i],
        Err(_) => &tensors[0],
    }
}

/// Finds the tensor that a layer has in a role which not all families declare.
fn optional_part<'a>(
    tensors: &'a Vec<TensorView<'a>>,
    layer: u32,
    role: LayerTensorRole,
    roles: &Vec<LayerTensorRole>,
    Ghost(d): Ghost<Dims>,
) -> (t: Option<&'a TensorView<'a>>)
    requires
        places_fault(tensors@, d, layer as int, d.roles.len() as int) is None,
        d.roles == roles@,
    ensures
        match t {
            Some(x) => d.roles.contains(role) && *x == tensor_in(tensors@, layer as int, role),
            None => !d.roles.contains(role),
        },
{
    if has_role(roles.as_slice(), role) {
        Some(part(tensors, layer, role, Ghost(d)))
    } else {
        None
    }
}

/// Reads the numbers of a layer's norm or bias.
fn part_values(
    t: &TensorView<'_>,
    layer: u32,
    role: LayerTensorRole,
    Ghost(ts): Ghost<Seq<TensorView<'_>>>,
    Ghost(d): Ghost<Dims>,
) -> (r: Result<Vec<u32>, WillametteError>)
    requires
        places_fault(ts, d, layer as int, d.roles.len() as int) is None,
        d.roles.contains(role),
        *t == tensor_in(ts, layer as int, role),
        role_shape(d, role).len() == 1,
        role_shape(d, role)[0] <= u32::MAX,
    ensures
        match r {
            Ok(v) => values_fault(ts, d, layer as int, role) is None && v@ == f32_values(t.data@),
            Err(e) => values_fault(ts, d, layer as int, role) == Some(e@),
        },
{
    proof {
        lemma_role_in_order(ts, d, layer as int, role);
        assert(t.shape@ == role_shape(d, role));
        assert(t.shape@ =~= seq![role_shape(d, role)[0]]);
        lemma_product_of_one(role_shape(d, role)[0]);
    }
    f32_tensor_to_vec(t)
}

/// Reads the numbers of a norm or bias that not all families have.
fn optional_values(
    t: Option<&TensorView<'_>>,
    layer: u32,
    role: LayerTensorRole,
    Ghost(ts): Ghost<Seq<TensorView<'_>>>,
    Ghost(d): Ghost<Dims>,
) -> (r: Result<Option<Vec<u32>>, WillametteError>)
    requires
        places_fault(ts, d, layer as int, d.roles.len() as int) is None,
        match t {
            Some(x) => d.roles.contains(role) && *x == tensor_in(ts, layer as int, role),
            None => !d.roles.contains(role),
        },
        role_shape(d, role).len() == 1,
        role_shape(d, role)[0] <= u32::MAX,
    ensures
        match r {
            Ok(v) => values_fault(ts, d, layer as int, role) is None && is_optional_part(
                t,
                v,
                ts,
                d,
                layer as int,
                role,
            ),
            Err(e) => values_fault(ts, d, layer as int, role) == Some(e@),
        },
{
    match t {
        Some(x) => match part_values(x, layer, role, Ghost(ts), Ghost(d)) {
            Ok(v) => Ok(Some(v)),
            Err(e) => Err(e),
        },
        None => Ok(None),
    }
}

/// Checks the tensors of a layer.
fn check_layer(
    tensors: &Vec<TensorView<'_>>,
    config: &ModelConfig,
    variant: ForwardVariant,
    roles: &Vec<LayerTensorRole>,
    layer: u32,
    Ghost(d): Ghost<Dims>,
) -> (r: Result<(), WillametteError>)
    requires
        d.embedding == config.embedding_length,
        d.feed_forward == config.feed_forward_length,
        d.kv == config.kv_dim,
        d.variant == variant,
        d.roles == roles@,
    ensures
        match r {
            Ok(_) => places_fault(tensors@, d, layer as int, d.roles.len() as int) is None,
            Err(e) => places_fault(tensors@, d, layer as int, d.roles.len() as int) == Some(e@),
        },
{
    let mut k: usize = 0;
    while k < roles.len()
        invariant
            k <= roles.len(),
            d.embedding == config.embedding_length,
            d.feed_forward == config.feed_forward_length,
            d.kv == config.kv_dim,
            d.variant == variant,
            d.roles == roles@,
            places_fault(tensors@, d, layer as int, k as int) is None,
        decreases roles.len() - k,
    {
        let checked = match require_layer_tensor(tensors.as_slice(), layer, roles[k]) {
            Ok(i) => check_layer_tensor(&tensors[i], roles[k], config, variant, Ghost(d)),
            Err(e) => Err(e),
        };
        match checked {
            Ok(_) => {},
            Err(e) => {
                proof {
                    lemma_places_stay(tensors@, d, layer as int, k + 1, roles@.len() as int);
                }
                return Err(e);
            },
        }
        k = k + 1;
    }
    Ok(())
}

/// Loads a layer.
fn load_layer<'a>(
    tensors: &'a Vec<TensorView<'a>>,
    config: &ModelConfig,
    variant: ForwardVariant,
    roles: &Vec<LayerTensorRole>,
    layer: u32,
    Ghost(d): Ghost<Dims>,
) -> (r: Result<LayerWeights<'a>, WillametteError>)
    requires
        d.embedding == config.embedding_length,
        d.feed_forward == config.feed_forward_length,
        d.kv == config.kv_dim,
        d.variant == variant,
        d.roles == roles@,
        missing_role(d.roles, 9) is None,
    ensures
        match r {
            Ok(w) => layer_fault(tensors@, d, layer as int) is None && is_layer(
                w,
                tensors@,
                d,
                layer as int,
            ),
            Err(e) => layer_fault(tensors@, d, layer as int) == Some(e@),
        },
{
    match check_layer(tensors, config, variant, roles, layer, Ghost(d)) {
        Ok(_) => {},
        Err(e) => {
            return Err(e);
        },
    }
    let ghost ts = tensors@;
    proof {
        lemma_core_roles_present(d.roles);
    }
    let attn_norm = part(tensors, layer, LayerTensorRole::AttnNorm, Ghost(d));
    let attn_sub_norm = optional_part(
        tensors,
        layer,
        LayerTensorRole::AttnSubNorm,
        roles,
        Ghost(d),
    );
    let attn_q = part(tensors, layer, LayerTensorRole::AttnQ, Ghost(d));
    let attn_q_bias = optional_part(tensors, layer, LayerTensorRole::AttnQBias, roles, Ghost(d));
    let attn_k = part(tensors, layer, LayerTensorRole::AttnK, Ghost(d));
    let attn_k_bias = optional_part(tensors, layer, LayerTensorRole::AttnKBias, roles, Ghost(d));
    let attn_v = part(tensors, layer, LayerTensorRole::AttnV, Ghost(d));
    let attn_v_bias = optional_part(tensors, layer, LayerTensorRole::AttnVBias, roles, Ghost(d));
    let attn_output = part(tensors, layer, LayerTensorRole::AttnOutput, Ghost(d));
    let ffn_norm = part(tensors, layer, LayerTensorRole::FfnNorm, Ghost(d));
    let ffn_sub_norm = optional_part(tensors, layer, LayerTensorRole::FfnSubNorm, roles, Ghost(d));
    let ffn_gate = part(tensors, layer, LayerTensorRole::FfnGate, Ghost(d));
    let ffn_up = part(tensors, layer, LayerTensorRole::FfnUp, Ghost(d));
    let ffn_down = part(tensors, layer, LayerTensorRole::FfnDown, Ghost(d));

    let attn_norm_f32 = match part_values(
        attn_norm,
        layer,
        LayerTensorRole::AttnNorm,
        Ghost(ts),
        Ghost(d),
    ) {
        Ok(v) => v,
        Err(e) => {
            return Err(e);
        },
    };
    let attn_q_bias_f32 = match optional_values(
        attn_q_bias,
        layer,
        LayerTensorRole::AttnQBias,
        Ghost(ts),
        Ghost(d),
    ) {
        Ok(v) => v,
        Err(e) => {
            return Err(e);
        },
    };
    let attn_k_bias_f32 = match optional_values(
        attn_k_bias,
        layer,
        LayerTensorRole::AttnKBias,
        Ghost(ts),
        Ghost(d),
    ) {
        Ok(v) => v,
        Err(e) => {
            return Err(e);
        },
    };
    let attn_v_bias_f32 = match optional_values(
        attn_v_bias,
        layer,
        LayerTensorRole::AttnVBias,
        Ghost(ts),
        Ghost(d),
    ) {
        Ok(v) => v,
        Err(e) => {
            return Err(e);
        },
    };
    let attn_sub_norm_f32 = match optional_values(
        attn_sub_norm,
        layer,
        LayerTensorRole::AttnSubNorm,
        Ghost(ts),
        Ghost(d),
    ) {
        Ok(v) => v,
        Err(e) => {
            return Err(e);
        },
    };
    let ffn_norm_f32 = match part_values(
        ffn_norm,
        layer,
        LayerTensorRole::FfnNorm,
        Ghost(ts),
        Ghost(d),
    ) {
        Ok(v) => v,
        Err(e) => {
            return Err(e);
        },
    };
    let ffn_sub_norm_f32 = match optional_values(
        ffn_sub_norm,
        layer,
        LayerTensorRole::FfnSubNorm,
        Ghost(ts),
        Ghost(d),
    ) {
        Ok(v) => v,
        Err(e) => {
            return Err(e);
        },
    };
    Ok(
        LayerWeights {
            index: layer,
            attn_norm,
            attn_norm_f32,
            attn_q,
            attn_q_bias,
            attn_q_bias_f32,
            attn_k,
            attn_k_bias,
            attn_k_bias_f32,
            attn_v,
            attn_v_bias,
            attn_v_bias_f32,
            attn_output,
            attn_sub_norm,
            attn_sub_norm_f32,
            ffn_norm,
            ffn_norm_f32,
            ffn_gate,
            ffn_up,
            ffn_down,
            ffn_sub_norm,
            ffn_sub_norm_f32,
        },
    )
}

/// Where no core role is missing, each is there.
proof fn lemma_core_roles_present(roles: Seq<LayerTensorRole>)
    requires
        missing_role(roles, 9) is None,
    ensures
        roles.contains(LayerTensorRole::AttnNorm),
        roles.contains(LayerTensorRole::AttnQ),
        roles.contains(LayerTensorRole::AttnK),
        roles.contains(LayerTensorRole::AttnV),
        roles.contains(LayerTensorRole::AttnOutput),
        roles.contains(LayerTensorRole::FfnNorm),
        roles.contains(LayerTensorRole::FfnGate),
        roles.contains(LayerTensorRole::FfnUp),
        roles.contains(LayerTensorRole::FfnDown),
{
    reveal_with_fuel(missing_role, 10);
    let core = core_roles();
    assert(core[0] == LayerTensorRole::AttnNorm && core[1] == LayerTensorRole::AttnQ && core[2]
        == LayerTensorRole::AttnK && core[3] == LayerTensorRole::AttnV && core[4]
        == LayerTensorRole::AttnOutput && core[5] == LayerTensorRole::FfnNorm && core[6]
        == LayerTensorRole::FfnGate && core[7] == LayerTensorRole::FfnUp && core[8]
        == LayerTensorRole::FfnDown);
}

/// Checks a tensor of embeddings or output weights.
fn check_table(
    t: &TensorView<'_>,
    config: &ModelConfig,
    variant: ForwardVariant,
    Ghost(d): Ghost<Dims>,
) -> (r: Result<(), WillametteError>)
    requires
        d.embedding == config.embedding_length,
        d.vocab == config.vocab_size,
        d.variant == variant,
    ensures
        match r {
            Ok(_) => table_fault(*t, d) is None,
            Err(e) => table_fault(*t, d) == Some(e@),
        },
{
    let types = match variant {
        ForwardVariant::BitNetSubNorm => {
            let mut types: Vec<GgmlType> = Vec::new();
            types.push(GgmlType::F16);
            types.push(GgmlType::Q6K);
            proof {
                assert(types@ =~= seq![GgmlType::F16, GgmlType::Q6K]);
            }
            types
        },
        _ => plain_weight_types(),
    };
    match check_dtype_one_of(t, &types) {
        Ok(_) => check_shape(
            t,
            &two_dims(config.embedding_length as u64, config.vocab_size as u64),
        ),
        Err(e) => Err(e),
    }
}

/// Loads all layers.
fn load_layers<'a>(
    tensors: &'a Vec<TensorView<'a>>,
    config: &ModelConfig,
    variant: ForwardVariant,
    roles: &Vec<LayerTensorRole>,
    Ghost(d): Ghost<Dims>,
) -> (r: Result<Vec<LayerWeights<'a>>, WillametteError>)
    requires
        d.embedding == config.embedding_length,
        d.feed_forward == config.feed_forward_length,
        d.kv == config.kv_dim,
        d.blocks == config.block_count,
        d.variant == variant,
        d.roles == roles@,
        missing_role(d.roles, 9) is None,
    ensures
        match r {
            Ok(layers) => {
                &&& layers_fault(tensors@, d, d.blocks) is None
                &&& layers@.len() == d.blocks
                &&& forall|i: int|
                    0 <= i < layers@.len() ==> is_layer(#[trigger] layers@[i], tensors@, d, i)
            },
            Err(e) => layers_fault(tensors@, d, d.blocks) == Some(e@),
        },
{
    let mut layers: Vec<LayerWeights<'a>> = Vec::new();
    let mut il: u32 = 0;
    while il < config.block_count
        invariant
            il <= config.block_count,
            d.embedding == config.embedding_length,
            d.feed_forward == config.feed_forward_length,
            d.kv == config.kv_dim,
            d.blocks == config.block_count,
            d.variant == variant,
            d.roles == roles@,
            missing_role(d.roles, 9) is None,
            layers_fault(tensors@, d, il as int) is None,
            layers@.len() == il,
            forall|i: int|
                0 <= i < layers@.len() ==> is_layer(#[trigger] layers@[i], tensors@, d, i),
        decreases config.block_count - il,
    {
        match load_layer(tensors, config, variant, roles, il, Ghost(d)) {
            Ok(w) => {
                layers.push(w);
            },
            Err(e) => {
                proof {
                    lemma_layers_stay(tensors@, d, il + 1, d.blocks);
                }
                return Err(e);
            },
        }
        il = il + 1;
    }
    Ok(layers)
}

/// Every family declares roles as its block shape needs them.
pub proof fn families_keep_their_contracts(name: Seq<char>, family: ArchitectureFamily)
    ensures
        contract_fault(name, family_roles(family), family_variant(family)) is None,
{
    reveal_with_fuel(repeated_role, 13);
    reveal_with_fuel(missing_role, 10);
    let roles = family_roles(family);
    let core = core_roles();
    assert(core[0] == LayerTensorRole::AttnNorm && core[1] == LayerTensorRole::AttnQ && core[2]
        == LayerTensorRole::AttnK && core[3] == LayerTensorRole::AttnV && core[4]
        == LayerTensorRole::AttnOutput && core[5] == LayerTensorRole::FfnNorm && core[6]
        == LayerTensorRole::FfnGate && core[7] == LayerTensorRole::FfnUp && core[8]
        == LayerTensorRole::FfnDown);
    assert forall|i: int| 0 < i <= roles.len() implies !(#[trigger] roles.take(i - 1)).contains(
        roles[i - 1],
    ) by {
        assert(roles.len() <= 12);
    }
    match family {
        ArchitectureFamily::BitNet => {
            assert(roles[0] == core[0] && roles[1] == LayerTensorRole::AttnSubNorm && roles[2]
                == core[1] && roles[3] == core[2] && roles[4] == core[3] && roles[5] == core[4]
                && roles[6] == core[5] && roles[7] == LayerTensorRole::FfnSubNorm && roles[8]
                == core[6] && roles[9] == core[7] && roles[10] == core[8]);
        },
        ArchitectureFamily::Llama => {
            assert(roles[0] == core[0] && roles[1] == core[1] && roles[2] == core[2] && roles[3]
                == core[3] && roles[4] == core[4] && roles[5] == core[5] && roles[6] == core[6]
                && roles[7] == core[7] && roles[8] == core[8]);
        },
        ArchitectureFamily::Qwen2 => {
            assert(roles[0] == core[0] && roles[1] == core[1] && roles[2]
                == LayerTensorRole::AttnQBias && roles[3] == core[2] && roles[4]
                == LayerTensorRole::AttnKBias && roles[5] == core[3] && roles[6]
                == LayerTensorRole::AttnVBias && roles[7] == core[4] && roles[8] == core[5]
                && roles[9] == core[6] && roles[10] == core[7] && roles[11] == core[8]);
        },
    }
}

impl<'a> ModelGraph<'a> {
    /// Finds the tensors of a model in a file, and checks them against the
    /// configuration in its metadata.
    pub fn from_gguf(gguf: &'a GgufFile<'a>) -> (r: Result<Self, WillametteError>)
        requires
            gguf.metadata.wf(),
        ensures
            match r {
                Ok(g) => graph_fault(gguf.metadata@, gguf.tensors@) is None && g.describes(
                    gguf.metadata@,
                    gguf.tensors@,
                ),
                Err(e) => graph_fault(gguf.metadata@, gguf.tensors@) == Some(e@),
            },
    {
        let config = match ModelConfig::from_gguf_metadata(&gguf.metadata) {
            Ok(c) => c,
            Err(e) => {
                return Err(e);
            },
        };
        let family = match resolve(config.architecture.as_str()) {
            Some(f) => f,
            None => {
                return Err(
                    WillametteError::UnsupportedArchitecture(config.architecture.clone()),
                );
            },
        };
        let variant = family.forward_variant();
        let roles = family.layer_tensor_roles();
        let ghost d = stated_dims(gguf.metadata@);
        proof {
            families_keep_their_contracts(config.architecture@, family);
            assert(d == dims(config, family));
        }
        match validate_role_contract(config.architecture.as_str(), roles.as_slice(), variant) {
            Ok(_) => {},
            Err(e) => {
                return Err(e);
            },
        }
        let tensors: &'a Vec<TensorView<'a>> = &gguf.tensors;
        if has_repeated_name(tensors.as_slice()) {
            return Err(
                WillametteError::GgufParse(
                    owned("duplicate tensor names in GGUF tensor directory"),
                ),
            );
        }
        match validate_q4_k_super_scales(tensors.as_slice()) {
            Ok(_) => {},
            Err(e) => {
                return Err(e);
            },
        }
        match validate_q6_k_scales(tensors.as_slice()) {
            Ok(_) => {},
            Err(e) => {
                return Err(e);
            },
        }
        match reject_unsupported_bias_tensors(
            config.architecture.as_str(),
            tensors.as_slice(),
            variant,
            config.block_count,
        ) {
            Ok(_) => {},
            Err(e) => {
                return Err(e);
            },
        }
        let token_embd_index: usize = match require_tensor(
            tensors.as_slice(),
            "token_embd.weight",
        ) {
            Ok(i) => i,
            Err(e) => {
                return Err(e);
            },
        };
        let token_embd = &tensors[token_embd_index];
        match check_table(token_embd, &config, variant, Ghost(d)) {
            Ok(_) => {},
            Err(e) => {
                return Err(e);
            },
        }
        let output_norm_index: usize = match require_tensor(
            tensors.as_slice(),
            "output_norm.weight",
        ) {
            Ok(i) => i,
            Err(e) => {
                return Err(e);
            },
        };
        let output_norm = &tensors[output_norm_index];
        match check_dtype(output_norm, GgmlType::F32) {
            Ok(_) => {},
            Err(e) => {
                return Err(e);
            },
        }
        match check_shape(output_norm, &one_dim(config.embedding_length as u64)) {
            Ok(_) => {},
            Err(e) => {
                return Err(e);
            },
        }
        let own: Option<usize> = find_tensor(tensors.as_slice(), "output.weight");
        let lm_head_index: usize = match own {
            Some(i) => {
                match check_table(&tensors[i], &config, variant, Ghost(d)) {
                    Ok(_) => {},
                    Err(e) => {
                        return Err(e);
                    },
                }
                match variant {
                    ForwardVariant::BitNetSubNorm => token_embd_index,
                    _ => i,
                }
            },
            None => token_embd_index,
        };
        let layers = match load_layers(tensors, &config, variant, &roles, Ghost(d)) {
            Ok(l) => l,
            Err(e) => {
                return Err(e);
            },
        };
        proof {
            lemma_product_of_one(config.embedding_length as u64);
        }
        let output_norm_f32 = match f32_tensor_to_vec(output_norm) {
            Ok(v) => v,
            Err(e) => {
                return Err(e);
            },
        };
        Ok(
            ModelGraph {
                config,
                forward_variant: variant,
                token_embd,
                token_embd_index,
                output_norm,
                output_norm_f32,
                lm_head: &tensors[lm_head_index],
                lm_head_index,
                has_output_weight_tensor: own.is_some(),
                layers,
            },
        )
    }

    /// Whether the last projection uses the embeddings.
    pub fn lm_head_is_tied(&self) -> (b: bool)
        ensures
            b == (self.lm_head_index == self.token_embd_index),
    {
        self.lm_head_index == self.token_embd_index
    }
}

/// The last projection of a model uses the embeddings exactly where the file
/// has no output weights or the model is of the BitNet family.
pub proof fn tied_models(g: ModelGraph<'_>, m: Table, ts: Seq<TensorView<'_>>)
    requires
        graph_fault(m, ts) is None,
        g.describes(m, ts),
    ensures
        (g.lm_head_index == g.token_embd_index) == (lookup(ts, "output.weight"@) is None
            || g.forward_variant == ForwardVariant::BitNetSubNorm),
{
    lemma_named(ts, "output.weight"@, ts.len() as int);
    lemma_named(ts, "token_embd.weight"@, ts.len() as int);
    reveal_strlit("output.weight");
    reveal_strlit("token_embd.weight");
    assert("output.weight"@.len() != "token_embd.weight"@.len());
}

} // verus!
