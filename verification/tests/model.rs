//! Architectures, configurations, graphs and number formats.

use willamette::error::WillametteError;
use willamette::gguf::metadata::Metadata;
use willamette::gguf::reader::GgufFile;
use willamette::gguf::tensor::TensorView;
use willamette::gguf::types::GgmlType;
use willamette::gguf::value::GgufValue;
use willamette::model::architecture::{
    resolve, BitNetArchitecture, ForwardVariant, LayerTensorRole, ModelArchitecture,
    Qwen2Architecture,
};
use willamette::model::graph::{
    check_linear_dtype, reject_unsupported_bias_tensors, validate_layer_tensor,
    validate_q4_k_super_scales, validate_q6_k_scales, validate_role_contract, ModelGraph,
};
use willamette::model::primitives::{
    causal_mask_value, embedding_gather_f16, f16_to_f32, gqa_group_size, kv_head_for_q_head,
    rope_pairs, AttentionShape, RopeType,
};
use willamette::model::ModelConfig;

const BITNET_ROLES: [LayerTensorRole; 11] = [
    LayerTensorRole::AttnNorm,
    LayerTensorRole::AttnSubNorm,
    LayerTensorRole::AttnQ,
    LayerTensorRole::AttnK,
    LayerTensorRole::AttnV,
    LayerTensorRole::AttnOutput,
    LayerTensorRole::FfnNorm,
    LayerTensorRole::FfnSubNorm,
    LayerTensorRole::FfnGate,
    LayerTensorRole::FfnUp,
    LayerTensorRole::FfnDown,
];

fn table(entries: Vec<(String, GgufValue)>) -> Metadata {
    let mut m = Metadata::new();
    for (key, value) in entries {
        m.insert(key, value);
    }
    m
}

fn f32_value(value: f32) -> GgufValue {
    GgufValue::Float32(value.to_bits())
}

#[test]
fn canonical_bitnet_b1_58_is_resolved() {
    let arch = resolve("bitnet-b1.58").expect("must resolve");
    assert!(arch.architecture_strings().contains(&"bitnet-b1.58"));
    assert_eq!(arch.metadata_prefix("bitnet-b1.58"), "bitnet-b1.58");
}

#[test]
fn bitnet_25_alias_is_resolved() {
    let arch = resolve("bitnet-25").expect("must resolve");
    assert!(arch.architecture_strings().contains(&"bitnet-25"));
    assert_eq!(arch.metadata_prefix("bitnet-25"), "bitnet-25");
}

#[test]
fn unknown_architecture_returns_none() {
    assert!(resolve("phi3").is_none());
    assert!(resolve("").is_none());
}

#[test]
fn resolve_returns_same_impl_for_all_aliases_in_a_family() {
    let a = resolve("bitnet-b1.58").unwrap();
    let b = resolve("bitnet-25").unwrap();
    let c = resolve("bitnet").unwrap();
    assert_eq!(a.architecture_strings(), b.architecture_strings());
    assert_eq!(a.architecture_strings(), c.architecture_strings());
}

#[test]
fn architecture_strings_contains_three_aliases() {
    let a = BitNetArchitecture;
    let s = a.architecture_strings();
    assert!(s.contains(&"bitnet-b1.58"));
    assert!(s.contains(&"bitnet-25"));
    assert!(s.contains(&"bitnet"));
    assert_eq!(s.len(), 3);
}

#[test]
fn prefix_equals_architecture_string_for_each_alias() {
    let a = BitNetArchitecture;
    for s in a.architecture_strings() {
        assert_eq!(a.metadata_prefix(s), s);
    }
}

#[test]
fn exposes_qwen2_metadata_and_bias_contract() {
    let architecture = Qwen2Architecture;
    assert_eq!(architecture.metadata_prefix("qwen2"), "qwen2");
    assert_eq!(architecture.forward_variant(), ForwardVariant::Qwen2);
    for role in [
        LayerTensorRole::AttnQBias,
        LayerTensorRole::AttnKBias,
        LayerTensorRole::AttnVBias,
    ] {
        assert!(architecture.layer_tensor_roles().contains(&role));
    }
}

fn llama_metadata(embedding_length: u32) -> Metadata {
    table(vec![
        ("llama.block_count".to_string(), GgufValue::Uint32(1)),
        (
            "llama.embedding_length".to_string(),
            GgufValue::Uint32(embedding_length),
        ),
        (
            "llama.feed_forward_length".to_string(),
            GgufValue::Uint32(16),
        ),
        ("llama.context_length".to_string(), GgufValue::Uint32(32)),
        (
            "llama.attention.head_count".to_string(),
            GgufValue::Uint32(2),
        ),
        (
            "llama.attention.head_count_kv".to_string(),
            GgufValue::Uint32(1),
        ),
        (
            "llama.attention.layer_norm_rms_epsilon".to_string(),
            f32_value(1e-5),
        ),
        (
            "tokenizer.ggml.tokens".to_string(),
            GgufValue::Array(vec![GgufValue::Str("token".to_string())]),
        ),
    ])
}

#[test]
fn llama_accepts_explicitly_unscaled_rope() {
    let mut metadata = llama_metadata(8);
    metadata.insert(
        "llama.rope.scaling.type".to_string(),
        GgufValue::Str("none".to_string()),
    );
    assert!(ModelConfig::from_llama_metadata_with_prefix("llama", "llama", &metadata).is_ok());
}

#[test]
fn llama_rejects_odd_rope_dimension_at_load_time() {
    let metadata = llama_metadata(6);
    assert!(matches!(
        ModelConfig::from_llama_metadata_with_prefix("llama", "llama", &metadata),
        Err(WillametteError::GgufParse(message)) if message.contains("must be even")
    ));
}

#[test]
fn qwen2_metadata_uses_prefix_and_implied_full_rope() {
    let metadata = table(vec![
        (
            "general.architecture".to_string(),
            GgufValue::Str("qwen2".to_string()),
        ),
        ("qwen2.block_count".to_string(), GgufValue::Uint32(2)),
        ("qwen2.embedding_length".to_string(), GgufValue::Uint32(8)),
        (
            "qwen2.feed_forward_length".to_string(),
            GgufValue::Uint32(16),
        ),
        ("qwen2.context_length".to_string(), GgufValue::Uint32(32)),
        (
            "qwen2.attention.head_count".to_string(),
            GgufValue::Uint32(2),
        ),
        (
            "qwen2.attention.head_count_kv".to_string(),
            GgufValue::Uint32(1),
        ),
        (
            "qwen2.attention.layer_norm_rms_epsilon".to_string(),
            f32_value(1e-6),
        ),
        ("qwen2.rope.freq_base".to_string(), f32_value(1_000_000.0)),
        (
            "tokenizer.ggml.tokens".to_string(),
            GgufValue::Array(vec![
                GgufValue::Str("a".to_string()),
                GgufValue::Str("b".to_string()),
            ]),
        ),
    ]);
    let config = ModelConfig::from_gguf_metadata(&metadata).expect("qwen2 config");
    assert_eq!(config.architecture, "qwen2");
    assert_eq!(config.head_dim, 4);
    assert_eq!(config.rope_dimension_count, 4);
    assert_eq!(config.vocab_size, 2);
}

fn bitnet_metadata() -> Metadata {
    let mut m = Metadata::new();
    m.insert(
        "general.architecture".to_string(),
        GgufValue::Str("bitnet-b1.58".to_string()),
    );
    for (key, value) in [
        ("block_count", 1),
        ("embedding_length", 256),
        ("feed_forward_length", 256),
        ("context_length", 16),
        ("attention.head_count", 1),
        ("attention.head_count_kv", 1),
        ("rope.dimension_count", 256),
        ("vocab_size", 1),
    ] {
        m.insert(format!("bitnet-b1.58.{key}"), GgufValue::Uint32(value));
    }
    m.insert(
        "bitnet-b1.58.attention.layer_norm_rms_epsilon".to_string(),
        f32_value(1e-5),
    );
    m.insert(
        "bitnet-b1.58.rope.freq_base".to_string(),
        f32_value(10_000.0),
    );
    m
}

fn malformed<'a>(data: &'a [u8], ggml_type: GgmlType) -> GgufFile<'a> {
    GgufFile {
        version: 3,
        tensor_count: 1,
        metadata: bitnet_metadata(),
        tensors: vec![TensorView {
            name: "malformed.weight".to_string(),
            shape: vec![256, 1],
            ggml_type,
            offset: 0,
            byte_len: data.len() as u64,
            data,
            scale_data: None,
        }],
        alignment: 32,
        data_section_start: 0,
        tensor_descriptors: Vec::new(),
    }
}

#[test]
fn graph_load_rejects_non_finite_q4_k_super_scale() {
    let mut data = vec![0u8; TensorView::Q4K_BYTES_PER_BLOCK as usize];
    data[..2].copy_from_slice(&0x7e00_u16.to_le_bytes());
    let gguf = malformed(&data, GgmlType::Q4K);
    let error = ModelGraph::from_gguf(&gguf).unwrap_err();
    assert!(error.message().contains("non-finite d or dmin scale"));
}

#[test]
fn graph_load_rejects_non_finite_q6_k_scale() {
    let mut data = vec![0_u8; TensorView::Q6K_BYTES_PER_BLOCK as usize];
    data[208..210].copy_from_slice(&0x7e00_u16.to_le_bytes());
    let gguf = malformed(&data, GgmlType::Q6K);
    let error = ModelGraph::from_gguf(&gguf).unwrap_err();
    assert!(error.message().contains("non-finite d scale"));
}

#[test]
fn quantized_scale_validation_rejects_shape_storage_mismatch() {
    let q4_data = vec![0_u8; TensorView::Q4K_BYTES_PER_BLOCK as usize];
    let q4 = TensorView {
        name: "short-q4.weight".to_string(),
        shape: vec![256, 2],
        ggml_type: GgmlType::Q4K,
        offset: 0,
        byte_len: (q4_data.len() * 2) as u64,
        data: &q4_data,
        scale_data: None,
    };
    assert!(validate_q4_k_super_scales(&[q4])
        .unwrap_err()
        .message()
        .contains("data length"));

    let q6_data = vec![0_u8; TensorView::Q6K_BYTES_PER_BLOCK as usize];
    let q6 = TensorView {
        name: "short-q6.weight".to_string(),
        shape: vec![256, 2],
        ggml_type: GgmlType::Q6K,
        offset: 0,
        byte_len: (q6_data.len() * 2) as u64,
        data: &q6_data,
        scale_data: None,
    };
    assert!(validate_q6_k_scales(&[q6])
        .unwrap_err()
        .message()
        .contains("data length"));
}

#[test]
fn role_contract_rejects_duplicates() {
    let mut roles = BITNET_ROLES.to_vec();
    roles.push(LayerTensorRole::AttnQ);
    assert!(matches!(
        validate_role_contract("test", &roles, ForwardVariant::BitNetSubNorm),
        Err(WillametteError::NotImplemented(_))
    ));
}

#[test]
fn role_contract_rejects_missing_core_role() {
    let roles = BITNET_ROLES
        .iter()
        .copied()
        .filter(|role| *role != LayerTensorRole::FfnDown)
        .collect::<Vec<_>>();
    assert!(matches!(
        validate_role_contract("test", &roles, ForwardVariant::BitNetSubNorm),
        Err(WillametteError::NotImplemented(_))
    ));
}

#[test]
fn bitnet_contract_requires_both_sub_norms() {
    let roles = BITNET_ROLES
        .iter()
        .copied()
        .filter(|role| *role != LayerTensorRole::FfnSubNorm)
        .collect::<Vec<_>>();
    assert!(matches!(
        validate_role_contract("test", &roles, ForwardVariant::BitNetSubNorm),
        Err(WillametteError::NotImplemented(_))
    ));
}

#[test]
fn qwen2_contract_requires_all_qkv_biases() {
    let roles = resolve("qwen2")
        .unwrap()
        .layer_tensor_roles()
        .iter()
        .copied()
        .filter(|role| *role != LayerTensorRole::AttnVBias)
        .collect::<Vec<_>>();
    assert!(matches!(
        validate_role_contract("qwen2", &roles, ForwardVariant::Qwen2),
        Err(WillametteError::NotImplemented(_))
    ));
}

fn plain_tensor(name: &str, shape: Vec<u64>, ggml_type: GgmlType) -> TensorView<'static> {
    TensorView {
        name: name.to_string(),
        shape,
        ggml_type,
        offset: 0,
        byte_len: 0,
        data: &[],
        scale_data: None,
    }
}

#[test]
fn llama_bias_tensors_are_rejected() {
    let tensor = plain_tensor("blk.0.attn_q.bias", vec![4], GgmlType::F32);
    assert!(matches!(
        reject_unsupported_bias_tensors("llama", &[tensor], ForwardVariant::VanillaLlama, 1),
        Err(WillametteError::NotImplemented(_))
    ));
}

#[test]
fn qwen2_rejects_non_qkv_biases() {
    let tensor = plain_tensor("blk.0.attn_output.bias", vec![4], GgmlType::F32);
    assert!(matches!(
        reject_unsupported_bias_tensors("qwen2", &[tensor], ForwardVariant::Qwen2, 1),
        Err(WillametteError::NotImplemented(_))
    ));
}

#[test]
fn qwen2_bias_requires_f32_and_projection_shape() {
    let config = ModelConfig {
        architecture: "qwen2".to_string(),
        block_count: 1,
        embedding_length: 4,
        feed_forward_length: 8,
        context_length: 16,
        head_count: 2,
        head_count_kv: 1,
        head_dim: 2,
        kv_dim: 2,
        layer_norm_rms_epsilon: 1e-6_f32.to_bits(),
        rope_dimension_count: 2,
        rope_freq_base: 10_000.0_f32.to_bits(),
        vocab_size: 4,
    };
    let wrong_dtype = plain_tensor("blk.0.attn_q.bias", vec![4], GgmlType::F16);
    let wrong_shape = plain_tensor("blk.0.attn_k.bias", vec![4], GgmlType::F32);
    assert!(validate_layer_tensor(
        &wrong_dtype,
        LayerTensorRole::AttnQBias,
        &config,
        ForwardVariant::Qwen2,
    )
    .is_err());
    assert!(validate_layer_tensor(
        &wrong_shape,
        LayerTensorRole::AttnKBias,
        &config,
        ForwardVariant::Qwen2,
    )
    .is_err());
    let right = plain_tensor("blk.0.attn_k.bias", vec![2], GgmlType::F32);
    assert!(validate_layer_tensor(
        &right,
        LayerTensorRole::AttnKBias,
        &config,
        ForwardVariant::Qwen2,
    )
    .is_ok());
}

#[test]
fn llama_accepts_quantized_linears_but_bitnet_does_not() {
    for ggml_type in [GgmlType::Q4_0, GgmlType::Q4K, GgmlType::Q6K] {
        let tensor = plain_tensor("blk.0.attn_q.weight", vec![256, 256], ggml_type);
        assert!(check_linear_dtype(&tensor, ForwardVariant::VanillaLlama).is_ok());
        assert!(check_linear_dtype(&tensor, ForwardVariant::BitNetSubNorm).is_err());
    }
}

fn widen(bits: u16) -> f32 {
    f32::from_bits(f16_to_f32(bits))
}

#[test]
fn f16_known_values() {
    assert_eq!(widen(0x0000), 0.0);
    assert_eq!(widen(0x8000), -0.0);
    assert_eq!(widen(0x3C00), 1.0);
    assert_eq!(widen(0xBC00), -1.0);
    assert_eq!(widen(0x4000), 2.0);
    assert_eq!(widen(0x3800), 0.5);
    assert!(widen(0x7C00).is_infinite() && widen(0x7C00) > 0.0);
    assert!(widen(0xFC00).is_infinite() && widen(0xFC00) < 0.0);
    assert!(widen(0x7E00).is_nan());
}

#[test]
fn f16_smallest_subnormal_is_finite_and_positive() {
    let v = widen(0x0001);
    assert!(v.is_sign_positive());
    assert!(v.is_finite());
    assert!(v > 0.0);
    assert!((v - (1.0 / (1u32 << 24) as f32)).abs() < 1e-12);
}

#[test]
fn every_half_widens_to_its_number() {
    for bits in 0..=u16::MAX {
        let exponent = i32::from(bits >> 10 & 0x1f);
        let fraction = f64::from(bits & 0x3ff);
        let sign = if bits >= 0x8000 { -1.0 } else { 1.0 };
        let expected = if exponent == 0 {
            sign * fraction * 2.0_f64.powi(-24)
        } else if exponent == 0x1f {
            if fraction == 0.0 {
                sign * f64::INFINITY
            } else {
                f64::NAN
            }
        } else {
            sign * (1.0 + fraction / 1024.0) * 2.0_f64.powi(exponent - 15)
        };
        let found = f64::from(widen(bits));
        assert!(
            found == expected || (found.is_nan() && expected.is_nan()),
            "{bits:x}: {found} {expected}"
        );
    }
}

fn rotate(x: &mut [f32], head_dim: usize, n_rot: usize, position: u32, base: f32, kind: RopeType) -> Result<(), String> {
    let pairs = rope_pairs(x.len(), head_dim, n_rot, kind).map_err(|e| e.message())?;
    for (j, (a, b)) in pairs.iter().enumerate() {
        let theta = position as f32 * base.powf(-2.0 * j as f32 / n_rot as f32);
        let (c, s) = (theta.cos(), theta.sin());
        let (p, q) = (x[*a], x[*b]);
        x[*a] = p * c - q * s;
        x[*b] = p * s + q * c;
    }
    Ok(())
}

#[test]
fn rope_zero_position_is_identity() {
    let mut x = vec![0.1, 0.2, 0.3, 0.4_f32];
    let orig = x.clone();
    rotate(&mut x, 4, 4, 0, 10000.0, RopeType::Neox).unwrap();
    for i in 0..4 {
        assert!((x[i] - orig[i]).abs() < 1e-6);
    }
}

#[test]
fn rope_preserves_per_pair_norm() {
    let mut x = vec![0.4_f32, 0.7, 0.1, -0.5, 0.2, 0.3, -0.6, 0.05];
    let orig = x.clone();
    rotate(&mut x, 8, 8, 3, 500_000.0, RopeType::Neox).unwrap();
    for j in 0..4 {
        let pre = orig[j].powi(2) + orig[j + 4].powi(2);
        let post = x[j].powi(2) + x[j + 4].powi(2);
        assert!((pre - post).abs() < 1e-5);
    }
}

#[test]
fn rope_norm_and_neox_produce_different_outputs() {
    let mut a = vec![1.0_f32, 0.0, 0.0, 0.0];
    let mut b = a.clone();
    rotate(&mut a, 4, 4, 1, 10000.0, RopeType::Norm).unwrap();
    rotate(&mut b, 4, 4, 1, 10000.0, RopeType::Neox).unwrap();
    let mut same = true;
    for i in 0..4 {
        if (a[i] - b[i]).abs() > 1e-6 {
            same = false;
            break;
        }
    }
    assert!(!same, "Norm and NEOX must differ for this input");
}

#[test]
fn rope_invalid_n_rot_errors() {
    let mut x = vec![0.0_f32; 4];
    assert!(rotate(&mut x, 4, 3, 0, 10000.0, RopeType::Neox).is_err());
    assert!(rotate(&mut x, 4, 8, 0, 10000.0, RopeType::Neox).is_err());
}

#[test]
fn gqa_group_size_known_value() {
    assert_eq!(gqa_group_size(20, 5).unwrap(), 4);
    assert_eq!(kv_head_for_q_head(0, 4), 0);
    assert_eq!(kv_head_for_q_head(3, 4), 0);
    assert_eq!(kv_head_for_q_head(4, 4), 1);
    assert_eq!(kv_head_for_q_head(19, 4), 4);
}

#[test]
fn gqa_group_size_non_divisible_errors() {
    assert!(gqa_group_size(20, 6).is_err());
    assert!(gqa_group_size(20, 0).is_err());
}

#[test]
fn causal_mask_basic() {
    assert_eq!(f32::from_bits(causal_mask_value(5, 0)), 0.0);
    assert_eq!(f32::from_bits(causal_mask_value(5, 5)), 0.0);
    assert_eq!(f32::from_bits(causal_mask_value(5, 6)), f32::NEG_INFINITY);
    assert_eq!(f32::from_bits(causal_mask_value(0, 1)), f32::NEG_INFINITY);
}

#[test]
fn attention_shape_dimensions_match() {
    let s = AttentionShape::from_config(20, 5, 128).unwrap();
    assert_eq!(s.n_heads, 20);
    assert_eq!(s.n_kv_heads, 5);
    assert_eq!(s.head_dim, 128);
    assert_eq!(s.group_size, 4);
    assert_eq!(s.q_per_token_dim, 2560);
    assert_eq!(s.kv_per_token_dim, 640);
}

#[test]
fn embedding_rows_are_widened() {
    let data: Vec<u8> = [0x3c00_u16, 0x4000, 0xbc00, 0x3800]
        .iter()
        .flat_map(|h| h.to_le_bytes())
        .collect();
    let t = TensorView {
        name: "token_embd.weight".to_string(),
        shape: vec![2, 2],
        ggml_type: GgmlType::F16,
        offset: 0,
        byte_len: 8,
        data: &data,
        scale_data: None,
    };
    let mut row = vec![0_u32; 2];
    embedding_gather_f16(&t, 1, &mut row).unwrap();
    assert_eq!(f32::from_bits(row[0]), -1.0);
    assert_eq!(f32::from_bits(row[1]), 0.5);
    let e = embedding_gather_f16(&t, 2, &mut row).unwrap_err().message();
    assert!(e.contains("token_id 2 out of range (vocab_size=2)"), "{e}");
}
