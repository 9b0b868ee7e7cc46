//! Passes over tokens whose keys and values go into a cache.

use willamette::gguf::tensor::TensorView;
use willamette::gguf::types::GgmlType;
use willamette::model::architecture::ForwardVariant;
use willamette::model::graph::{LayerWeights, ModelGraph};
use willamette::model::kv_cache::{KVCache, QuantizedVector};
use willamette::model::pass::{begin_forward, begin_prefill, CachedPass};
use willamette::model::schedule::Step;
use willamette::model::ModelConfig;

const WIDTH: u32 = 4;

fn tensor() -> TensorView<'static> {
    TensorView {
        name: "t".into(),
        shape: vec![4, 4],
        ggml_type: GgmlType::F16,
        offset: 0,
        byte_len: 32,
        data: &[0; 32],
        scale_data: None,
    }
}

fn layer<'a>(t: &'a TensorView<'a>, index: u32) -> LayerWeights<'a> {
    LayerWeights {
        index,
        attn_norm: t,
        attn_norm_f32: vec![0; WIDTH as usize],
        attn_q: t,
        attn_q_bias: None,
        attn_q_bias_f32: None,
        attn_k: t,
        attn_k_bias: None,
        attn_k_bias_f32: None,
        attn_v: t,
        attn_v_bias: None,
        attn_v_bias_f32: None,
        attn_output: t,
        attn_sub_norm: None,
        attn_sub_norm_f32: None,
        ffn_norm: t,
        ffn_norm_f32: vec![0; WIDTH as usize],
        ffn_gate: t,
        ffn_up: t,
        ffn_down: t,
        ffn_sub_norm: None,
        ffn_sub_norm_f32: None,
    }
}

fn graph<'a>(t: &'a TensorView<'a>) -> ModelGraph<'a> {
    ModelGraph {
        config: ModelConfig {
            architecture: "llama".to_string(),
            block_count: 2,
            embedding_length: WIDTH,
            feed_forward_length: WIDTH,
            context_length: 16,
            head_count: 2,
            head_count_kv: 1,
            head_dim: 2,
            kv_dim: 2,
            layer_norm_rms_epsilon: 1e-5_f32.to_bits(),
            rope_dimension_count: 2,
            rope_freq_base: 10_000.0_f32.to_bits(),
            vocab_size: 10,
        },
        forward_variant: ForwardVariant::VanillaLlama,
        token_embd: t,
        token_embd_index: 0,
        output_norm: t,
        output_norm_f32: vec![0; WIDTH as usize],
        lm_head: t,
        lm_head_index: 0,
        has_output_weight_tensor: false,
        layers: vec![layer(t, 0), layer(t, 1)],
    }
}

fn vector(n: i8) -> QuantizedVector {
    QuantizedVector {
        quants: vec![n, -n],
        scale: 1.0_f32.to_bits(),
    }
}

/// Does what the first `n` steps of a pass do to the cache.
fn store(pass: &CachedPass, cache: &mut KVCache, n: usize) {
    for step in &pass.steps[..n] {
        if let Step::Append { layer, token } = step {
            cache.append(*layer, &vector(*token as i8), &vector(1)).unwrap();
        }
    }
}

fn contents(cache: &KVCache) -> Vec<(Vec<(i8, u32)>, Vec<(i8, u32)>)> {
    (0..cache.n_layers())
        .map(|layer| {
            let (mut k, mut v) = (Vec::new(), Vec::new());
            cache.read_into(layer, &mut k, &mut v).unwrap();
            (k, v)
        })
        .collect()
}

#[test]
fn a_pass_that_fails_leaves_no_trace() {
    let t = tensor();
    let g = graph(&t);
    let mut cache = KVCache::new(2, 2, 8);
    let mut output = vec![1.0_f32];
    let first = begin_prefill(&g, &cache, &[1, 2], 0, &mut output).unwrap();
    store(&first, &mut cache, first.steps.len());
    let done: Result<(), String> = first.finish(&mut cache, &mut output, Ok(()));
    assert!(done.is_ok());
    assert_eq!(cache.position(), 2);
    let before = contents(&cache);

    let count = begin_prefill(&g, &cache, &[3, 4, 5], 2, &mut output)
        .unwrap()
        .steps
        .len();
    for n in 0..=count {
        output = vec![1.0, 2.0];
        let pass = begin_prefill(&g, &cache, &[3, 4, 5], 2, &mut output).unwrap();
        assert!(output.is_empty());
        store(&pass, &mut cache, n);
        output.push(3.0);
        let outcome = pass.finish(&mut cache, &mut output, Err("no".to_string()));
        assert_eq!(outcome, Err("no".to_string()));
        assert!(output.is_empty());
        assert_eq!(contents(&cache), before);
    }
}

#[test]
fn a_pass_that_goes_through_fills_every_layer() {
    let t = tensor();
    let g = graph(&t);
    let mut cache = KVCache::new(2, 2, 8);
    let mut output: Vec<f32> = Vec::new();
    let pass = begin_forward(&g, &cache, 7, 0, &mut output).unwrap();
    assert!(!pass.steps.contains(&Step::CheckOutput));
    store(&pass, &mut cache, pass.steps.len());
    output.push(0.5);
    let done: Result<(), String> = pass.finish(&mut cache, &mut output, Ok(()));
    assert!(done.is_ok());
    assert_eq!(output, [0.5]);
    assert_eq!(cache.checkpoint(), [1, 1]);
}

#[test]
fn a_refused_pass_has_no_output() {
    let t = tensor();
    let g = graph(&t);
    let cache = KVCache::new(2, 2, 8);
    let mut output = vec![1.0_f32];
    let e = begin_forward(&g, &cache, 1, 1, &mut output).unwrap_err().message();
    assert!(e.contains("cache.position()=0 != position=1"), "{e}");
    assert!(output.is_empty());
    output.push(1.0);
    let e = begin_forward(&g, &cache, 10, 0, &mut output).unwrap_err().message();
    assert!(e.contains("token_id 10 out of vocab range 10"), "{e}");
    assert!(output.is_empty());
    for (ids, start) in [(&[][..], 0), (&[1, 10][..], 0), (&[1][..], 3)] {
        output.push(1.0);
        assert!(begin_prefill(&g, &cache, ids, start, &mut output).is_err());
        assert!(output.is_empty());
    }
}
