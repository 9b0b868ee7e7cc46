//! Rows of Q4_0 and Q4_K, and activations of Q8_K.

use willamette::model::dispatch::{Arch, CpuFeatures};
use willamette::model::q4_0;
use willamette::model::q4_k;
use willamette::model::q4_k::{dot_row_q8_k, BlockDot, Q8KActivation};

/// The half-precision pattern of a number that has one.
fn half(value: f32) -> u16 {
    if value == 0.0 {
        return 0;
    }
    let bits = value.to_bits();
    let sign = (bits >> 16) & 0x8000;
    let exponent = ((bits >> 23) & 0xff) + 15 - 127;
    (sign | (exponent << 10) | ((bits >> 13) & 0x3ff)) as u16
}

fn block(scale: f32, values: [u8; 32]) -> Vec<u8> {
    let mut bytes = half(scale).to_le_bytes().to_vec();
    bytes.extend((0..16).map(|index| values[index] | (values[index + 16] << 4)));
    bytes
}

fn dequantize_q4_0(data: &[u8], output: &mut [f32]) {
    let blocks = q4_0::decode_row(data, output.len()).unwrap();
    for (b, block) in blocks.iter().enumerate() {
        for (i, q) in block.quants.iter().enumerate() {
            output[32 * b + i] = f32::from_bits(block.scale) * f32::from(*q);
        }
    }
}

#[test]
fn dequantizes_nibbles_in_ggml_half_block_order() {
    let mut values = [8; 32];
    for index in 0..16 {
        values[index] = index as u8;
        values[index + 16] = 15 - index as u8;
    }
    let data = block(0.5, values);
    let mut output = [0.0; 32];
    dequantize_q4_0(&data, &mut output);
    assert_eq!(output[0], -4.0);
    assert_eq!(output[15], 3.5);
    assert_eq!(output[16], 3.5);
    assert_eq!(output[31], -4.0);
}

#[test]
fn q4_0_direct_dot_matches_dequantized_dot_across_blocks() {
    let mut data = block(0.25, std::array::from_fn(|index| (index % 16) as u8));
    data.extend(block(
        -0.5,
        std::array::from_fn(|index| 15 - (index % 16) as u8),
    ));
    let input = (0..64).map(|value| value as f32 / 11.0).collect::<Vec<_>>();
    let mut dequantized = [0.0; 64];
    dequantize_q4_0(&data, &mut dequantized);
    let expected = dequantized
        .iter()
        .zip(&input)
        .map(|(weight, value)| weight * value)
        .sum::<f32>();
    let mut direct = 0.0_f32;
    for (b, block) in q4_0::decode_row(&data, 64).unwrap().iter().enumerate() {
        let scale = f32::from_bits(block.scale);
        for i in 0..16 {
            direct += scale * f32::from(block.quants[i]) * input[32 * b + i];
            direct += scale * f32::from(block.quants[i + 16]) * input[32 * b + i + 16];
        }
    }
    assert!((direct - expected).abs() < 1e-4);
}

#[test]
fn rejects_bad_lengths_and_non_finite_scale() {
    let e = q4_0::decode_row(&[0; 18], 16).unwrap_err().message();
    assert!(e.contains("Q4_0 row length 16 is not a multiple of 32"), "{e}");
    let e = q4_0::decode_row(&[0; 17], 32).unwrap_err().message();
    assert!(e.contains("Q4_0 row data length 17 != expected 18"), "{e}");

    let mut data = vec![0; 18];
    data[..2].copy_from_slice(&0x7e00_u16.to_le_bytes());
    let e = q4_0::decode_row(&data, 32).unwrap_err().message();
    assert!(e.contains("Q4_0 block has a non-finite scale"), "{e}");
}

const SCALES: [u8; 8] = [1, 2, 3, 4, 17, 34, 51, 63];
const MINS: [u8; 8] = [5, 6, 7, 8, 9, 10, 11, 12];
const PACKED_SCALES_MINS: [u8; 12] = [
    0x41, 0x82, 0xc3, 0xc4, 0x05, 0x06, 0x07, 0x08, 0x91, 0xa2, 0xb3, 0xcf,
];

fn pinned_block(d: f32, dmin: f32) -> Vec<u8> {
    let mut block = vec![0u8; 144];
    block[..2].copy_from_slice(&half(d).to_le_bytes());
    block[2..4].copy_from_slice(&half(dmin).to_le_bytes());
    block[4..16].copy_from_slice(&PACKED_SCALES_MINS);
    for band in 0..4 {
        let low_q = (2 * band + 1) as u8;
        let high_q = (2 * band + 2) as u8;
        block[16 + band * 32..16 + (band + 1) * 32].fill(low_q | (high_q << 4));
    }
    block
}

fn dequantize_q4_k(row: &[u8], output: &mut [f32]) -> Result<(), String> {
    let blocks = q4_k::decode_row(row, output.len()).map_err(|e| e.message())?;
    for (b, block) in blocks.iter().enumerate() {
        let d = f32::from_bits(block.d);
        let dmin = f32::from_bits(block.dmin);
        for i in 0..256 {
            output[256 * b + i] = d
                * f32::from(block.scales[i / 32])
                * f32::from(block.quants[i])
                - dmin * f32::from(block.mins[i / 32]);
        }
    }
    Ok(())
}

fn dot_q4_k(row: &[u8], input: &[f32]) -> Result<f32, String> {
    let mut weights = vec![0.0; input.len()];
    dequantize_q4_k(row, &mut weights)?;
    Ok(weights.iter().zip(input).map(|(w, x)| w * x).sum())
}

#[test]
fn decodes_upstream_scale_min_mapping_for_all_groups() {
    let block = pinned_block(0.5, 0.25);
    let mut output = [0.0; 256];
    dequantize_q4_k(&block, &mut output).unwrap();
    for group in 0..8 {
        let q = (group + 1) as f32;
        let expected = 0.5 * f32::from(SCALES[group]) * q - 0.25 * f32::from(MINS[group]);
        assert!(output[group * 32..(group + 1) * 32]
            .iter()
            .all(|&value| value == expected));
        assert_eq!(
            q4_k::scale_min(&block, 4, group),
            (SCALES[group], MINS[group])
        );
    }
}

#[test]
fn decodes_each_band_low_nibble_then_high_nibble() {
    let mut block = pinned_block(1.0, 0.0);
    block[16..].fill(0);
    for band in 0..4 {
        block[16 + band * 32 + band] = 0x0f;
        block[16 + band * 32 + band + 4] = 0xf0;
    }
    let mut output = [0.0; 256];
    dequantize_q4_k(&block, &mut output).unwrap();
    for band in 0..4 {
        assert_eq!(
            output[2 * band * 32 + band],
            f32::from(SCALES[2 * band]) * 15.0
        );
        assert_eq!(
            output[(2 * band + 1) * 32 + band + 4],
            f32::from(SCALES[2 * band + 1]) * 15.0
        );
    }
}

#[test]
fn q4_k_direct_dot_matches_dequantized_dot_across_blocks() {
    let mut row = pinned_block(0.5, 0.25);
    row.extend(pinned_block(-0.125, 0.375));
    let input: Vec<f32> = (0..512)
        .map(|index| (index as f32 * 0.071).sin() + (index % 13) as f32 * 0.03)
        .collect();
    let mut output = vec![0.0; 512];
    dequantize_q4_k(&row, &mut output).unwrap();
    let expected: f32 = output.iter().zip(&input).map(|(a, b)| a * b).sum();
    let sum_abs: f32 = output.iter().zip(&input).map(|(a, b)| (a * b).abs()).sum();
    let actual = dot_q4_k(&row, &input).unwrap();
    assert!((actual - expected).abs() <= 1e-6 * sum_abs.max(1.0));
}

#[test]
fn rejects_malformed_rows_and_non_finite_super_scales() {
    assert!(dot_q4_k(&[0; 144], &[0.0; 128]).is_err());
    assert!(dot_q4_k(&[0; 143], &[0.0; 256]).is_err());
    assert!(dequantize_q4_k(&[0; 144], &mut [0.0; 128]).is_err());

    for offset in [0, 2] {
        for scale in [0x7e00_u16, 0x7c00, 0xfc00] {
            let mut block = pinned_block(1.0, 1.0);
            block[offset..offset + 2].copy_from_slice(&scale.to_le_bytes());
            assert!(dot_q4_k(&block, &[0.0; 256]).is_err());
            let e = dequantize_q4_k(&block, &mut [0.0; 256]).unwrap_err();
            assert!(e.contains("Q4_K block has a non-finite d or dmin scale"), "{e}");
        }
    }
}

#[test]
fn batched_dot_rejects_inconsistent_token_storage() {
    let row = pinned_block(1.0, 0.5);
    let e = q4_k::check_dot_rows(&row, 256, 256, 2).unwrap_err().message();
    assert!(e.contains("Q4_K batched input length 256 != expected 512"), "{e}");
    let e = q4_k::check_dot_rows(&row[..143], 512, 256, 2).unwrap_err().message();
    assert!(e.contains("Q4_K row has 143 bytes, expected 144"), "{e}");
    let e = q4_k::check_dot_rows(&[], 0, 0, 2).unwrap_err().message();
    assert!(e.contains("Q4_K value count 0 is not a positive multiple of 256"), "{e}");
    let e = q4_k::check_dot_rows(&row, 0, 256, 0).unwrap_err().message();
    assert!(e.contains("Q4_K batched token count must be positive"), "{e}");
    let e = q4_k::check_dot_rows(&row, 0, 256, usize::MAX).unwrap_err().message();
    assert!(e.contains("Q4_K batched input size overflow"), "{e}");
    assert!(q4_k::check_dot_rows(&row, 512, 256, 2).is_ok());
}

fn bits(values: &[f32]) -> Vec<u32> {
    values.iter().map(|v| v.to_bits()).collect()
}

/// Scales each block by its extreme.
fn scaled(input: &[f32]) -> Vec<(u32, Vec<i8>)> {
    let raw = bits(input);
    (0..input.len() / 256)
        .map(|b| {
            let max = f32::from_bits(q4_k::block_extreme(&raw, b));
            let iscale = -127.0 / max;
            let d = 1.0 / iscale;
            let qs = input[256 * b..256 * b + 256]
                .iter()
                .map(|v| (v * iscale).round_ties_even().clamp(-127.0, 127.0) as i8)
                .collect();
            (d.to_bits(), qs)
        })
        .collect()
}

fn quantized(input: &[f32]) -> Q8KActivation {
    Q8KActivation::from_f32(&bits(input), &scaled(input)).unwrap()
}

#[test]
fn q8_k_quantization_has_pinned_layout_sums_and_ties_to_even() {
    let mut input = vec![1.0; 256];
    input[0] = -127.0;
    input[1] = 0.5;
    input[2] = 1.5;
    input[3] = 2.5;

    let activation = quantized(&input);
    let block = &activation.blocks[0];
    assert_eq!(f32::from_bits(block.d), 1.0);
    assert_eq!(&block.qs[..4], &[-127, 0, 2, 2]);
    assert_eq!(block.bsums[0], -111);
    assert!(block.bsums[1..].iter().all(|&sum| sum == 16));
    assert_eq!(activation.len(), 256);
    assert!(!activation.is_empty());
}

#[test]
fn q8_k_quantization_uses_first_signed_extremum_and_handles_zero() {
    let mut tied = vec![0.0; 256];
    tied[0] = 4.0;
    tied[1] = -4.0;
    let activation = quantized(&tied);
    assert!(f32::from_bits(activation.blocks[0].d).is_sign_negative());
    assert_eq!(activation.blocks[0].qs[0], -127);
    assert_eq!(activation.blocks[0].qs[1], 127);

    let zero = quantized(&[0.0; 256]);
    assert_eq!(zero.blocks[0].d, 0.0_f32.to_bits());
    assert_eq!(zero.blocks[0].qs, [0; 256]);
    assert_eq!(zero.blocks[0].bsums, [0; 16]);
}

#[test]
fn q8_k_quantization_reuses_storage_and_rejects_bad_input_without_mutation() {
    let mut activation = Q8KActivation::new();
    assert!(activation.is_empty());
    let ones = [1.0_f32; 512];
    activation.quantize(&bits(&ones), &scaled(&ones)).unwrap();
    let twos = [-2.0_f32; 256];
    activation.quantize(&bits(&twos), &scaled(&twos)).unwrap();
    let retained_d = activation.blocks[0].d;

    let e = activation.quantize(&[], &[]).unwrap_err().message();
    assert!(e.contains("Q8_K activation length 0 is not a positive multiple of 256"), "{e}");
    assert!(activation.quantize(&[0; 255], &[]).is_err());
    let mut nonfinite = [0.0; 256];
    nonfinite[17] = f32::NAN;
    let e = activation.quantize(&bits(&nonfinite), &[]).unwrap_err().message();
    assert!(e.contains("Q8_K activation contains a non-finite value"), "{e}");
    nonfinite[17] = f32::INFINITY;
    assert!(activation.quantize(&bits(&nonfinite), &[]).is_err());
    assert_eq!(activation.len(), 256);
    assert_eq!(activation.blocks[0].d, retained_d);
}

/// Adds up the parts of a product.
fn total(parts: &[BlockDot]) -> f32 {
    let mut sum = 0.0_f32;
    for p in parts {
        let a = f32::from_bits(p.activation_d);
        sum += f32::from_bits(p.d) * a * p.scaled as f32
            - f32::from_bits(p.dmin) * a * p.minimum as f32;
    }
    sum
}

fn parity_fixture(block_count: usize) -> (Vec<u8>, Vec<f32>) {
    let mut state = 0x6d2b_79f5_u32;
    let mut row = Vec::with_capacity(block_count * 144);
    for block_index in 0..block_count {
        let mut block = vec![0u8; 144];
        let d = if block_index % 2 == 0 {
            0.03125 * (block_index + 1) as f32
        } else {
            -0.0234375 * (block_index + 1) as f32
        };
        let dmin = 0.015625 * (block_index + 2) as f32;
        block[..2].copy_from_slice(&half(d).to_le_bytes());
        block[2..4].copy_from_slice(&half(dmin).to_le_bytes());
        for byte in &mut block[4..] {
            state = state.wrapping_mul(1_664_525).wrapping_add(1_013_904_223);
            *byte = (state >> 24) as u8;
        }
        row.extend(block);
    }
    let input = (0..block_count * 256)
        .map(|index| {
            let magnitude = 0.25 + ((index * 37 + 11) % 97) as f32 / 19.0;
            let oscillation = (index as f32 * 0.137).sin() * 0.125;
            if index % 2 == 0 {
                magnitude + oscillation
            } else {
                -magnitude + oscillation
            }
        })
        .collect::<Vec<_>>();
    (row, input)
}

#[test]
fn q4_k_q8_k_scalar_matches_reconstructed_reference_across_blocks() {
    let (row, input) = parity_fixture(5);
    let activation = quantized(&input);
    let scalar = total(&dot_row_q8_k(&row, &activation).unwrap());
    let mut weights = vec![0.0; activation.len()];
    dequantize_q4_k(&row, &mut weights).unwrap();
    let mut reference = 0.0_f32;
    let mut sum_abs = 0.0_f32;
    for (block_index, block) in activation.blocks.iter().enumerate() {
        for index in 0..256 {
            let product = weights[block_index * 256 + index]
                * f32::from_bits(block.d)
                * f32::from(block.qs[index]);
            reference += product;
            sum_abs += product.abs();
        }
    }
    let tolerance = 2e-6 * sum_abs.max(1.0);
    assert!(
        (scalar - reference).abs() <= tolerance,
        "scalar={scalar}, reference={reference}, tolerance={tolerance}"
    );
}

#[test]
fn q4_k_q8_k_rejects_malformed_rows_and_dimension_mismatches() {
    let row = pinned_block(1.0, 0.5);
    let one = quantized(&[0.0; 256]);
    let two = quantized(&[0.0; 512]);
    assert!(dot_row_q8_k(&row[..143], &one).is_err());
    assert!(dot_row_q8_k(&row, &two).is_err());
    assert!(dot_row_q8_k(&row, &Q8KActivation::new()).is_err());

    let malformed = Q8KActivation {
        blocks: Vec::new(),
        values: 256,
    };
    let e = dot_row_q8_k(&row, &malformed).unwrap_err().message();
    assert!(e.contains("Q8_K activation has invalid dimensions"), "{e}");
}

#[test]
fn block_products_are_exact_whole_numbers() {
    let (row, input) = parity_fixture(3);
    let activation = quantized(&input);
    let blocks = q4_k::decode_row(&row, input.len()).unwrap();
    let parts = dot_row_q8_k(&row, &activation).unwrap();
    for (b, part) in parts.iter().enumerate() {
        let mut with_d = 0_i64;
        let mut with_dmin = 0_i64;
        for i in 0..256 {
            let a = i64::from(activation.blocks[b].qs[i]);
            with_d += i64::from(blocks[b].scales[i / 32]) * i64::from(blocks[b].quants[i]) * a;
            with_dmin += i64::from(blocks[b].mins[i / 32]) * a;
        }
        assert_eq!(i64::from(part.scaled), with_d);
        assert_eq!(i64::from(part.minimum), with_dmin);
    }
}

#[test]
fn the_kernel_label_follows_the_processor() {
    let cpu = |arch, sse2, avx2| CpuFeatures {
        arch,
        neon: false,
        dotprod: false,
        sse2,
        sse41: false,
        avx2,
    };
    assert_eq!(q4_k::active_kernel_label(&cpu(Arch::X86_64, true, true)), "Q4_K AVX2");
    assert_eq!(q4_k::active_kernel_label(&cpu(Arch::X86, true, false)), "Q4_K SSE2");
    assert_eq!(q4_k::active_kernel_label(&cpu(Arch::X86, false, false)), "Q4_K scalar");
    assert_eq!(q4_k::active_kernel_label(&cpu(Arch::AArch64, true, true)), "Q4_K scalar");
}
