//! Attention, the feed-forward half, the output head, the kernel choice and the
//! order of steps.

use willamette::model::attention::{
    check_attention, check_attention_block, check_residual_add, head_starts, rope_head_pairs,
};
use willamette::model::architecture::ForwardVariant;
use willamette::model::cached_forward::{
    check_finite_hidden, check_finite_output, ensure_supported_variant,
};
use willamette::model::dispatch::{active_kernel, detected_features, Arch, CpuFeatures, Kernel};
use willamette::model::ffn::{check_elementwise_mul, check_ffn_block};
use willamette::model::forward::check_layer_output;
use willamette::model::lengths::{
    check_projection_bias, check_projection_bias_batched, check_rms_norm,
};
use willamette::model::lm_head::{argmax, check_logits, is_greater, top_k};
use willamette::model::multi_forward::{check_hidden, plan_multi_token_forward};
use willamette::model::primitives::{f16_to_f32, AttentionShape, RopeType};
use willamette::model::schedule::{plan_pass, PassStep, Step};
use willamette::model::ModelConfig;
use willamette::gguf::tensor::TensorView;
use willamette::gguf::types::GgmlType;

fn bits(values: &[f32]) -> Vec<u32> {
    values.iter().map(|v| v.to_bits()).collect()
}

fn config() -> ModelConfig {
    ModelConfig {
        architecture: "bitnet-b1.58".to_string(),
        block_count: 2,
        embedding_length: 8,
        feed_forward_length: 16,
        context_length: 32,
        head_count: 4,
        head_count_kv: 2,
        head_dim: 2,
        kv_dim: 4,
        layer_norm_rms_epsilon: 1e-5_f32.to_bits(),
        rope_dimension_count: 2,
        rope_freq_base: 10_000.0_f32.to_bits(),
        vocab_size: 5,
    }
}

#[test]
fn rope_multi_head_at_position_zero_is_identity() {
    let mut q = vec![0.5_f32; 20 * 128];
    let orig = q.clone();
    let pairs = rope_head_pairs(q.len(), 20, 128, 128, RopeType::Neox).unwrap();
    for head in q.chunks_exact_mut(128) {
        for (j, (a, b)) in pairs.iter().enumerate() {
            let angle = 0.0_f32 * 500_000.0_f32.powf(-2.0 * j as f32 / 128.0);
            let (x, y) = (head[*a], head[*b]);
            head[*a] = x * angle.cos() - y * angle.sin();
            head[*b] = x * angle.sin() + y * angle.cos();
        }
    }
    for i in 0..q.len() {
        assert!((q[i] - orig[i]).abs() < 1e-6);
    }
}

#[test]
fn rope_multi_head_each_head_independent() {
    let pairs = rope_head_pairs(2 * 128, 2, 128, 128, RopeType::Neox).unwrap();
    assert_eq!(pairs.len(), 64);
    assert!(pairs.iter().all(|(a, b)| *a < 128 && *b < 128));
    let e = rope_head_pairs(255, 2, 128, 128, RopeType::Neox).unwrap_err().message();
    assert!(
        e.contains("apply_rope_multi_head: x.len()=255 != n_heads*head_dim=2*128=256"),
        "{e}"
    );
    assert!(rope_head_pairs(0, 0, 128, 3, RopeType::Neox).unwrap().is_empty());
    assert!(rope_head_pairs(256, 2, 128, 3, RopeType::Neox).is_err());
}

#[test]
fn attention_position_zero_returns_v_per_kv_head() {
    let shape = AttentionShape::from_config(4, 2, 2).unwrap();
    assert_eq!(shape.group_size, 2);
    let v = vec![5.0_f32, 6.0, 70.0, 80.0];
    let mut out = vec![0.0_f32; 8];
    check_attention(8, 4, 4, 8, &shape).unwrap();
    for h in 0..4 {
        let (q_start, kv_start) = head_starts(h, &shape);
        for i in 0..2 {
            out[q_start + i] = v[kv_start + i];
        }
    }
    assert_eq!(out[0..2], [5.0, 6.0]);
    assert_eq!(out[2..4], [5.0, 6.0]);
    assert_eq!(out[4..6], [70.0, 80.0]);
    assert_eq!(out[6..8], [70.0, 80.0]);
}

#[test]
fn attention_rejects_length_mismatch() {
    let shape = AttentionShape::from_config(4, 2, 2).unwrap();
    let e = check_attention(7, 4, 4, 8, &shape).unwrap_err().message();
    assert!(e.contains("attention: q.len()=7 != n_heads*head_dim=8"), "{e}");
    let e = check_attention(8, 3, 4, 8, &shape).unwrap_err().message();
    assert!(e.contains("attention: k.len()=3 != n_kv_heads*head_dim=4"), "{e}");
    let e = check_attention(8, 4, 5, 8, &shape).unwrap_err().message();
    assert!(e.contains("attention: v.len()=5 != n_kv_heads*head_dim=4"), "{e}");
    let e = check_attention(8, 4, 4, 9, &shape).unwrap_err().message();
    assert!(e.contains("attention: output.len()=9 != q.len()=8"), "{e}");
}

#[test]
fn residual_add_length_mismatch_errors() {
    let e = check_residual_add(3, 4, 3).unwrap_err().message();
    assert!(e.contains("residual_add: length mismatch a=3 b=4 out=3"), "{e}");
    assert!(check_residual_add(3, 3, 3).is_ok());
}

#[test]
fn elementwise_mul_length_mismatch_errors() {
    let e = check_elementwise_mul(3, 4, 3).unwrap_err().message();
    assert!(e.contains("elementwise_mul: length mismatch a=3 b=4 out=3"), "{e}");
    assert!(check_elementwise_mul(3, 3, 3).is_ok());
}

#[test]
fn rms_norm_length_mismatch_errors() {
    let e = check_rms_norm(4, 3, 4).unwrap_err().message();
    assert!(e.contains("rms_norm_f32: length mismatch x=4 weight=3 out=4"), "{e}");
    assert!(check_rms_norm(4, 4, 4).is_ok());
}

#[test]
fn projection_bias_is_added_and_length_checked() {
    let mut projection = [1.0_f32, 2.0];
    let bias = [0.25_f32, -0.5];
    check_projection_bias(projection.len(), bias.len()).unwrap();
    for (value, b) in projection.iter_mut().zip(bias) {
        *value += b;
    }
    assert_eq!(projection, [1.25, 1.5]);
    let e = check_projection_bias(2, 1).unwrap_err().message();
    assert!(e.contains("projection length 2 does not match bias length 1"), "{e}");
    assert_eq!(check_projection_bias_batched(6, 2).unwrap(), 3);
    assert!(check_projection_bias_batched(5, 2).is_err());
    let e = check_projection_bias_batched(5, 0).unwrap_err().message();
    assert!(
        e.contains("batched projection length 5 is not a positive multiple of bias length 0"),
        "{e}"
    );
}

#[test]
fn halves_of_a_layer_check_their_lists() {
    let c = config();
    let shape = check_attention_block(8, 8, 8, 8, &c).unwrap();
    assert_eq!(shape.q_per_token_dim, 8);
    let e = check_attention_block(8, 8, 7, 8, &c).unwrap_err().message();
    assert!(
        e.contains("attention_block_forward: attn_sub_norm_weight.len()=7 != n_embd=8"),
        "{e}"
    );
    assert!(check_ffn_block(8, 8, 16, 8, &c).is_ok());
    let e = check_ffn_block(8, 8, 8, 8, &c).unwrap_err().message();
    assert!(
        e.contains("ffn_block_forward: ffn_sub_norm_weight.len()=8 != n_ff=16"),
        "{e}"
    );
}

#[test]
fn numbers_that_are_not_finite_are_found() {
    let e = check_layer_output(&bits(&[1.0, f32::NEG_INFINITY, f32::NAN]), 3)
        .unwrap_err()
        .message();
    assert!(
        e.contains("forward_single_token: non-finite value -inf at hidden dim 1 after layer 3"),
        "{e}"
    );
    assert!(check_layer_output(&bits(&[1.0, -2.0]), 3).is_ok());
    let e = check_hidden(&bits(&[f32::NAN]), "ffn", 2, 7).unwrap_err().message();
    assert!(
        e.contains("multi_token_forward: non-finite hidden after ffn (layer 2, token 7)"),
        "{e}"
    );
    assert!(check_finite_hidden(&bits(&[f32::INFINITY]), 0).is_err());
    assert!(check_finite_output(&bits(&[0.0])).is_ok());
}

#[test]
fn argmax_returns_index_of_largest() {
    assert_eq!(argmax(&bits(&[0.1, 0.5, 0.3])), Some(1));
    assert_eq!(argmax(&bits(&[])), None);
    assert_eq!(argmax(&bits(&[0.5])), Some(0));
    assert_eq!(argmax(&bits(&[1.0, 1.0])), Some(0));
}

#[test]
fn top_k_basic() {
    let logits = bits(&[0.1_f32, 0.5, 0.3, 0.9, 0.2]);
    let top = top_k(&logits, 3);
    assert_eq!(top.len(), 3);
    assert_eq!(top[0], (3, 0.9_f32.to_bits()));
    assert_eq!(top[1], (1, 0.5_f32.to_bits()));
    assert_eq!(top[2], (2, 0.3_f32.to_bits()));
}

#[test]
fn top_k_clamps_to_len() {
    let logits = bits(&[0.1_f32, 0.5]);
    let top = top_k(&logits, 10);
    assert_eq!(top.len(), 2);
}

#[test]
fn top_k_zero_returns_empty() {
    let logits = bits(&[0.1_f32, 0.5]);
    let top = top_k(&logits, 0);
    assert!(top.is_empty());
}

#[test]
fn bits_are_ordered_as_numbers() {
    let values = [
        f32::NEG_INFINITY,
        -3.5,
        -1e-40,
        -0.0,
        0.0,
        1e-40,
        2.0,
        f32::INFINITY,
        f32::NAN,
    ];
    for a in values {
        for b in values {
            assert_eq!(is_greater(a.to_bits(), b.to_bits()), a > b, "{a} > {b}");
        }
    }
    assert_eq!(argmax(&bits(&[f32::NAN, 1.0])), Some(0));
    assert_eq!(argmax(&bits(&[-1.0, f32::NAN, -0.5])), Some(2));
    let ranked = top_k(&bits(&[-0.0, 1.0, 0.0, 1.0]), 4);
    let places: Vec<u32> = ranked.iter().map(|p| p.0).collect();
    assert_eq!(places, [1, 3, 0, 2]);
}

#[test]
fn logits_check_the_table() {
    let data = vec![0_u8; 12];
    let table = |shape: Vec<u64>, ggml_type| TensorView {
        name: "token_embd.weight".to_string(),
        shape,
        ggml_type,
        offset: 0,
        byte_len: 12,
        data: &data,
        scale_data: None,
    };
    assert!(check_logits(2, &table(vec![2, 3], GgmlType::F16), 2, 3).is_ok());
    let e = check_logits(2, &table(vec![2, 3], GgmlType::F32), 2, 3).unwrap_err().message();
    assert!(e.contains("compute_logits: token_embd is F32 (raw 0), expected F16"), "{e}");
    let e = check_logits(2, &table(vec![3, 2], GgmlType::F16), 2, 3).unwrap_err().message();
    assert!(e.contains("compute_logits: token_embd shape [3, 2] != [2, 3]"), "{e}");
    let e = check_logits(4, &table(vec![2, 3], GgmlType::F16), 2, 3).unwrap_err().message();
    assert!(e.contains("final_hidden.len()=4 != embedding_length=2"), "{e}");
    let e = check_logits(2, &table(vec![2, 4], GgmlType::F16), 2, 4).unwrap_err().message();
    assert!(e.contains("token_embd.data.len()=12 != expected 16"), "{e}");
}

fn cpu(arch: Arch) -> CpuFeatures {
    CpuFeatures {
        arch,
        neon: arch == Arch::AArch64,
        dotprod: false,
        sse2: arch != Arch::AArch64,
        sse41: false,
        avx2: false,
    }
}

#[test]
fn active_kernel_is_stable_across_calls() {
    let host = cpu(Arch::X86_64);
    let first = active_kernel(&host);
    for _ in 0..16 {
        assert_eq!(active_kernel(&host), first);
    }
}

#[test]
fn label_is_non_empty() {
    for k in [Kernel::Scalar, Kernel::AArch64Neon, Kernel::X86Sse2] {
        for arch in [Arch::AArch64, Arch::X86, Arch::X86_64, Arch::Other] {
            assert!(!k.label(arch).is_empty(), "empty label for {:?}", k);
        }
    }
    assert_eq!(Kernel::Scalar.label(Arch::X86), "i686 scalar");
    assert_eq!(Kernel::X86Sse2.label(Arch::X86_64), "x86_64 SSE2");
}

#[test]
fn aarch64_selects_neon_when_available() {
    let host = cpu(Arch::AArch64);
    assert!(host.neon);
    assert_eq!(active_kernel(&host), Kernel::AArch64Neon);
    let without = CpuFeatures { neon: false, ..host };
    assert_eq!(active_kernel(&without), Kernel::Scalar);
}

#[test]
fn x86_features_include_sse2_slot() {
    let names: Vec<&str> = detected_features(&cpu(Arch::X86_64))
        .into_iter()
        .map(|(name, _)| name)
        .collect();
    assert!(names.contains(&"sse2"));
    assert!(detected_features(&cpu(Arch::Other)).is_empty());
}

#[test]
fn a_pass_stores_before_it_reads() {
    let steps = plan_pass(2, 3, 4, true, true);
    assert_eq!(steps[0], Step::Embed { token: 0 });
    assert_eq!(steps[steps.len() - 2], Step::OutputNorm);
    assert_eq!(steps[steps.len() - 1], Step::CheckOutput);
    for layer in 0..2 {
        let read = steps
            .iter()
            .position(|s| *s == Step::ReadCache { layer })
            .unwrap();
        for token in 0..3 {
            let write = steps
                .iter()
                .position(|s| *s == Step::Append { layer, token })
                .unwrap();
            assert!(write < read);
            assert!(steps.contains(&Step::Attend {
                layer,
                token,
                window: 4 + token + 1
            }));
            assert!(steps.contains(&Step::Rope {
                layer,
                token,
                position: 4 + token
            }));
            assert!(steps.contains(&Step::AttnSubNorm { layer, token }));
        }
    }
    let plain = plan_pass(1, 1, 0, false, false);
    assert_eq!(
        plain,
        vec![
            Step::Embed { token: 0 },
            Step::AttnNorm { layer: 0, token: 0 },
            Step::ProjectQkv { layer: 0 },
            Step::Rope { layer: 0, token: 0, position: 0 },
            Step::Append { layer: 0, token: 0 },
            Step::ReadCache { layer: 0 },
            Step::Attend { layer: 0, token: 0, window: 1 },
            Step::ProjectAttnOutput { layer: 0 },
            Step::AddAttn { layer: 0, token: 0 },
            Step::FfnNorm { layer: 0, token: 0 },
            Step::ProjectGateUp { layer: 0 },
            Step::Activate { layer: 0, token: 0 },
            Step::ProjectDown { layer: 0 },
            Step::AddFfn { layer: 0, token: 0 },
            Step::CheckHidden { layer: 0, token: 0 },
            Step::LayerDone { layer: 0 },
            Step::OutputNorm,
        ]
    );
}

#[test]
fn a_pass_without_a_cache_ends_with_the_last_token() {
    let (shape, steps) = plan_multi_token_forward(3, 2, &config()).unwrap();
    assert_eq!(shape.n_heads, 4);
    assert_eq!(steps.len(), 3 + 2 * 15 + 1);
    assert_eq!(steps[steps.len() - 1], PassStep::OutputNorm { token: 2 });
    assert!(steps.contains(&PassStep::Attend { layer: 1, token: 2, window: 3 }));
    let e = plan_multi_token_forward(0, 2, &config()).unwrap_err().message();
    assert!(e.contains("multi_token_forward: token_ids must not be empty"), "{e}");
}

#[test]
fn every_variant_is_supported() {
    assert!(ensure_supported_variant(ForwardVariant::BitNetSubNorm).is_ok());
    assert!(ensure_supported_variant(ForwardVariant::VanillaLlama).is_ok());
    assert!(ensure_supported_variant(ForwardVariant::Qwen2).is_ok());
}

#[test]
fn widening_agrees_with_half_on_finite_numbers() {
    for bits in 0..=u16::MAX {
        let expected = half::f16::from_bits(bits);
        if expected.is_finite() {
            assert_eq!(f16_to_f32(bits), expected.to_f32().to_bits());
        }
    }
}
