//! Products with matrices of every type.

use willamette::gguf::tensor::TensorView;
use willamette::gguf::types::GgmlType;
use willamette::model::bitlinear::MatvecKernel;
use willamette::model::dispatch::{Arch, CpuFeatures};
use willamette::model::linear::{
    batched_dimensions, plan_batch, plan_halves, plan_linear, plan_prequantized, plan_quantized,
    token_major, BatchPlan, BlockLayout, GraphLinearBackend, LinearPlan, Q4KBackend, Q6KBackend,
};
use willamette::model::primitives::f16_to_f32;
use willamette::model::q4_0;
use willamette::model::q4_k;

fn half(value: f32) -> u16 {
    if value == 0.0 {
        return 0;
    }
    let bits = value.to_bits();
    let sign = (bits >> 16) & 0x8000;
    let exponent = ((bits >> 23) & 0xff) + 15 - 127;
    (sign | (exponent << 10) | ((bits >> 13) & 0x3ff)) as u16
}

fn halves(values: &[f32]) -> Vec<u8> {
    values.iter().flat_map(|v| half(*v).to_le_bytes()).collect()
}

fn view<'a>(data: &'a [u8], shape: Vec<u64>, ggml_type: GgmlType) -> TensorView<'a> {
    TensorView {
        name: "test.weight".to_string(),
        shape,
        ggml_type,
        offset: 0,
        byte_len: data.len() as u64,
        data,
        scale_data: None,
    }
}

/// Computes a product as its plan says.
fn matvec(weight: &TensorView<'_>, input: &[f32], output: &mut [f32]) -> Result<(), String> {
    let plan = plan_linear(MatvecKernel::Scalar, weight, input.len(), output.len())
        .map_err(|e| e.message())?;
    match plan {
        LinearPlan::Halves(p) => {
            for (j, out) in output.iter_mut().enumerate() {
                let row = &weight.data[j * p.row_bytes..(j + 1) * p.row_bytes];
                let mut sum = 0.0_f32;
                for (i, x) in input.iter().enumerate() {
                    let bits = u16::from_le_bytes([row[2 * i], row[2 * i + 1]]);
                    sum += f32::from_bits(f16_to_f32(bits)) * x;
                }
                *out = sum;
            }
        }
        LinearPlan::Blocks(BlockLayout::Q4_0, p) => {
            for (j, out) in output.iter_mut().enumerate() {
                let row = &weight.data[j * p.row_bytes..(j + 1) * p.row_bytes];
                let mut sum = 0.0_f32;
                let blocks = q4_0::decode_row(row, p.in_dim).map_err(|e| e.message())?;
                for (b, block) in blocks.iter().enumerate() {
                    for (i, q) in block.quants.iter().enumerate() {
                        sum += f32::from_bits(block.scale) * f32::from(*q) * input[32 * b + i];
                    }
                }
                *out = sum;
            }
        }
        LinearPlan::Blocks(BlockLayout::Q4K, p) => {
            for (j, out) in output.iter_mut().enumerate() {
                let row = &weight.data[j * p.row_bytes..(j + 1) * p.row_bytes];
                let mut sum = 0.0_f32;
                let blocks = q4_k::decode_row(row, p.in_dim).map_err(|e| e.message())?;
                for (b, block) in blocks.iter().enumerate() {
                    for (i, q) in block.quants.iter().enumerate() {
                        let w = f32::from_bits(block.d)
                            * f32::from(block.scales[i / 32])
                            * f32::from(*q)
                            - f32::from_bits(block.dmin) * f32::from(block.mins[i / 32]);
                        sum += w * input[256 * b + i];
                    }
                }
                *out = sum;
            }
        }
        _ => return Err("no arithmetic for this type here".to_string()),
    }
    Ok(())
}

#[test]
fn f16_rectangular_matvec_matches_hand_result() {
    let bytes = halves(&[1.0, 2.0, 3.0, -1.0, 0.5, 4.0]);
    let weight = view(&bytes, vec![3, 2], GgmlType::F16);
    let mut output = [0.0; 2];
    matvec(&weight, &[2.0, -1.0, 0.5], &mut output).unwrap();
    assert_eq!(output, [1.5, -0.5]);
}

#[test]
fn f16_matvec_rejects_length_mismatch() {
    let bytes = halves(&[1.0, 2.0]);
    let weight = view(&bytes, vec![2, 1], GgmlType::F16);
    let e = matvec(&weight, &[1.0], &mut [0.0]).unwrap_err();
    assert!(
        e.contains("F16 linear \"test.weight\": input/output lengths 1/1 != 2/1"),
        "{e}"
    );
}

#[test]
fn f16_batched_fallback_is_token_major() {
    let bytes = halves(&[1.0, 2.0, 3.0, -1.0, 0.5, 4.0]);
    let weight = view(&bytes, vec![3, 2], GgmlType::F16);
    let input = [2.0, -1.0, 0.5, -3.0, 2.0, 1.0, 0.25, 4.0, -2.0];
    let mut output = [0.0; 6];
    match plan_batch(&weight, input.len(), output.len()).unwrap() {
        BatchPlan::ByToken {
            in_dim,
            out_dim,
            tokens,
        } => {
            assert_eq!((in_dim, out_dim, tokens), (3, 2, 3));
            for t in 0..tokens {
                matvec(
                    &weight,
                    &input[t * in_dim..(t + 1) * in_dim],
                    &mut output[t * out_dim..(t + 1) * out_dim],
                )
                .unwrap();
            }
        }
        BatchPlan::ByRow { .. } => panic!("half precision goes token by token"),
    }
    assert_eq!(output, [1.5, -0.5, 4.0, 8.0, 2.25, -6.25]);
}

#[test]
fn q4_0_rectangular_matvec_matches_hand_result() {
    let mut bytes = Vec::new();
    for (scale, nibble) in [(0.5, 10u8), (0.25, 4u8)] {
        bytes.extend_from_slice(&half(scale).to_le_bytes());
        bytes.extend(vec![nibble | (nibble << 4); 16]);
    }
    let tensor = view(&bytes, vec![32, 2], GgmlType::Q4_0);
    let mut output = [0.0; 2];
    matvec(&tensor, &[1.0; 32], &mut output).unwrap();
    assert_eq!(output, [32.0, -32.0]);
}

fn q4_k_constant_block(quant: u8) -> Vec<u8> {
    let mut block = vec![0u8; 144];
    block[..2].copy_from_slice(&half(1.0).to_le_bytes());
    block[4..8].fill(1);
    block[12..16].fill(1);
    block[16..].fill(quant | (quant << 4));
    block
}

#[test]
fn q4_k_rectangular_matvec_matches_hand_result() {
    let mut bytes = q4_k_constant_block(2);
    bytes.extend(q4_k_constant_block(4));
    let tensor = view(&bytes, vec![256, 2], GgmlType::Q4K);
    let mut output = [0.0; 2];
    matvec(&tensor, &[1.0; 256], &mut output).unwrap();
    assert_eq!(output, [512.0, 1_024.0]);
}

#[test]
fn q4_k_batched_matches_repeated_matvec_exactly() {
    let mut bytes = q4_k_constant_block(2);
    bytes.extend(q4_k_constant_block(4));
    bytes.extend(q4_k_constant_block(7));
    let tensor = view(&bytes, vec![256, 3], GgmlType::Q4K);

    for tokens in [1, 2, 5, 8, 9, 32] {
        let input = (0..tokens * 256)
            .map(|index| {
                let token = index / 256;
                let column = index % 256;
                (column as f32 * 0.03125).sin() + token as f32 * 0.125 - 0.5
            })
            .collect::<Vec<_>>();
        let mut expected = vec![0.0; tokens * 3];
        for (input_token, output_token) in input.chunks_exact(256).zip(expected.chunks_exact_mut(3))
        {
            matvec(&tensor, input_token, output_token).unwrap();
        }
        let plan = plan_batch(&tensor, input.len(), tokens * 3).unwrap();
        let mut rows: Vec<u32> = Vec::new();
        match plan {
            BatchPlan::ByRow { rows: p, tokens: n } => {
                assert_eq!(n, tokens);
                for j in 0..p.out_dim {
                    let row = view(
                        &bytes[j * p.row_bytes..(j + 1) * p.row_bytes],
                        vec![256, 1],
                        GgmlType::Q4K,
                    );
                    for t in 0..n {
                        let mut out = [0.0];
                        matvec(&row, &input[t * 256..(t + 1) * 256], &mut out).unwrap();
                        rows.push(out[0].to_bits());
                    }
                }
            }
            BatchPlan::ByToken { .. } => panic!("Q4_K goes row by row"),
        }
        let actual: Vec<f32> = token_major(&rows, tokens, 3)
            .into_iter()
            .map(f32::from_bits)
            .collect();
        assert_eq!(actual, expected, "token count {tokens}");
    }
}

fn cpu(arch: Arch, sse2: bool, avx2: bool) -> CpuFeatures {
    CpuFeatures {
        arch,
        neon: false,
        dotprod: false,
        sse2,
        sse41: false,
        avx2,
    }
}

#[test]
fn backends_follow_type_and_processor() {
    let q4 = view(&[], vec![256, 1], GgmlType::Q4K);
    let q6 = view(&[], vec![256, 1], GgmlType::Q6K);
    let f = view(&[], vec![2, 2], GgmlType::F16);
    let new = cpu(Arch::X86_64, true, true);
    let mid = cpu(Arch::X86, true, false);
    let arm = cpu(Arch::AArch64, false, false);
    let resolve = GraphLinearBackend::resolve;
    assert_eq!(resolve(&q4, &new), GraphLinearBackend::Q4K(Q4KBackend::Avx2));
    assert_eq!(resolve(&q4, &mid), GraphLinearBackend::Q4K(Q4KBackend::Sse2));
    assert_eq!(resolve(&q4, &arm), GraphLinearBackend::Q4K(Q4KBackend::Scalar));
    assert_eq!(resolve(&q6, &new), GraphLinearBackend::Q6K(Q6KBackend::Avx2));
    assert_eq!(resolve(&q6, &mid), GraphLinearBackend::Checked);
    assert_eq!(resolve(&f, &new), GraphLinearBackend::Checked);
    assert!(resolve(&q4, &new).uses_q8_k());
    assert!(!resolve(&q4, &mid).uses_q8_k());
    assert!(!resolve(&f, &new).uses_q8_k());
}

#[test]
fn q4_k_graph_prequantized_dispatch_rejects_bad_dimensions_without_writing() {
    let bytes = q4_k_constant_block(2);
    let tensor = view(&bytes, vec![256, 1], GgmlType::Q4K);
    let e = plan_prequantized(BlockLayout::Q4K, &tensor, 256, 512, 1)
        .unwrap_err()
        .message();
    assert!(
        e.contains("graph Q4_K linear dimensions input=256 activation=512 output=1 != [256, 1]"),
        "{e}"
    );
    let p = plan_prequantized(BlockLayout::Q4K, &tensor, 256, 256, 1).unwrap();
    assert_eq!(p.row_bytes, 144);
    let flat = view(&bytes, vec![256], GgmlType::Q4K);
    let e = plan_prequantized(BlockLayout::Q6K, &flat, 256, 256, 1)
        .unwrap_err()
        .message();
    assert!(e.contains("graph Q6_K linear has no output dimension"), "{e}");
    let none = view(&bytes, vec![], GgmlType::Q4K);
    let e = plan_prequantized(BlockLayout::Q4K, &none, 256, 256, 1)
        .unwrap_err()
        .message();
    assert!(e.contains("graph Q4_K linear has no input dimension"), "{e}");
}

#[test]
fn batched_linear_rejects_malformed_inputs_without_writing_output() {
    let bytes = q4_k_constant_block(2);
    let valid = view(&bytes, vec![256, 1], GgmlType::Q4K);
    for (input_len, output_len) in [(0, 0), (255, 1), (256, 2)] {
        assert!(plan_batch(&valid, input_len, output_len).is_err());
    }
    let bad_shape = view(&bytes, vec![256], GgmlType::Q4K);
    let e = plan_batch(&bad_shape, 256, 1).unwrap_err().message();
    assert!(
        e.contains("batched linear \"test.weight\": expected 2 dimensions, got [256]"),
        "{e}"
    );
    let bad_data = view(&bytes[..143], vec![256, 1], GgmlType::Q4K);
    let e = plan_batch(&bad_data, 256, 1).unwrap_err().message();
    assert!(
        e.contains("Q4_K linear \"test.weight\": data length 143 != expected 144"),
        "{e}"
    );
}

#[test]
fn sizes_and_types_are_checked() {
    let bytes = vec![0_u8; 420];
    let q6 = view(&bytes, vec![256, 2], GgmlType::Q6K);
    let p = plan_quantized(BlockLayout::Q6K, &q6, 256, 2).unwrap();
    assert_eq!((p.in_dim, p.out_dim, p.row_bytes), (256, 2, 210));
    assert!(plan_quantized(BlockLayout::Q4K, &q6, 256, 2).is_err());
    let q8 = view(&bytes[..68], vec![32, 2], GgmlType::Q8_0);
    assert_eq!(
        plan_quantized(BlockLayout::Q8_0, &q8, 32, 2).unwrap().row_bytes,
        34
    );
    let ragged = view(&bytes[..34], vec![16, 1], GgmlType::Q8_0);
    let e = plan_quantized(BlockLayout::Q8_0, &ragged, 16, 1).unwrap_err().message();
    assert!(e.contains("Q8_0 row length 16 is not a multiple of 32"), "{e}");
    let odd = view(&bytes[..3], vec![2, 1], GgmlType::F16);
    let e = plan_halves(&odd, 2, 1).unwrap_err().message();
    assert!(e.contains("data length 3 != expected 4"), "{e}");
    let other = view(&bytes, vec![2, 1], GgmlType::F32);
    assert!(plan_linear(MatvecKernel::Scalar, &other, 2, 1).is_err());
    assert!(plan_batch(&other, 2, 1).is_err());
    let empty = view(&bytes, vec![0, 1], GgmlType::F16);
    let e = batched_dimensions(&empty, 1, 1).unwrap_err().message();
    assert!(e.contains("dimensions must be nonzero"), "{e}");
}
