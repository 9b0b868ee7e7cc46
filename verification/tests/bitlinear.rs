//! Products with ternary weights.

use willamette::gguf::tensor::TensorView;
use willamette::gguf::types::GgmlType;
use willamette::model::bitlinear::{
    check_matvec, i2s_unpack_row_to_i8, ternary_from_code, unpack_row, MatvecKernel,
};
use willamette::model::bitlinear_lut::{check_lut_matvec, table_weights};
use willamette::model::bitlinear_neon::{check_neon_matvec, ternary_lut, unpack_packed_row};
use willamette::model::bitlinear_sparse::{sparse_matvec_i8, SparseWeight};
use willamette::model::bitlinear_sse2::{
    code_to_ternary, dot_i8_ternary, matvec_i8, row_dot, unpack_block, validate_inputs,
};

struct SyntheticI2S {
    packed: Vec<u8>,
    scale_block: [u8; 32],
}

impl SyntheticI2S {
    fn new(packed: Vec<u8>, scale: f32) -> Self {
        let mut scale_block = [0u8; 32];
        scale_block[..4].copy_from_slice(&scale.to_le_bytes());
        Self {
            packed,
            scale_block,
        }
    }
    fn view<'a>(&'a self, name: &str, in_dim: u64, out_dim: u64) -> TensorView<'a> {
        TensorView {
            name: name.to_string(),
            shape: vec![in_dim, out_dim],
            ggml_type: GgmlType::BitNetI2S,
            offset: 0,
            byte_len: self.packed.len() as u64,
            data: &self.packed,
            scale_data: Some(&self.scale_block),
        }
    }
}

/// Sums up a row: the activations of weight +1 minus those of weight -1.
fn row_sum(row: &[i8], input: &[f32]) -> f32 {
    let mut pos = 0.0_f32;
    let mut neg = 0.0_f32;
    for (w, x) in row.iter().zip(input) {
        if *w == 1 {
            pos += x;
        } else if *w == -1 {
            neg += x;
        }
    }
    pos - neg
}

fn matvec(w: &TensorView<'_>, input: &[f32], out: &mut [f32]) -> Result<(), String> {
    let m = check_matvec(MatvecKernel::Scalar, w, input.len(), out.len())
        .map_err(|e| e.message())?;
    for (j, slot) in out.iter_mut().enumerate() {
        let row = unpack_row(w.data, j * m.bytes_per_row, m.in_dim);
        *slot = f32::from_bits(m.scale) * row_sum(&row, input);
    }
    Ok(())
}

fn matvec_neon(w: &TensorView<'_>, input: &[f32], out: &mut [f32]) {
    let m = check_neon_matvec(w, input.len(), out.len()).unwrap();
    for (j, slot) in out.iter_mut().enumerate() {
        let packed = &w.data[j * m.bytes_per_row..(j + 1) * m.bytes_per_row];
        let row = unpack_packed_row(packed, m.in_dim);
        *slot = f32::from_bits(m.scale) * row_sum(&row, input);
    }
}

#[test]
fn ternary_code_table() {
    assert_eq!(ternary_from_code(0b00), -1);
    assert_eq!(ternary_from_code(0b01), 0);
    assert_eq!(ternary_from_code(0b10), 1);
    assert_eq!(ternary_from_code(0b11), 0);
}

#[test]
fn matvec_all_plus_one_weights() {
    let fx = SyntheticI2S::new(vec![0xAA_u8; 32], 1.0);
    let w = fx.view("all_plus", 128, 1);
    let input: Vec<f32> = (0..128).map(|i| (i as f32) * 0.1).collect();
    let mut out = vec![0.0_f32; 1];
    matvec(&w, &input, &mut out).unwrap();
    let expected: f32 = input.iter().sum();
    assert!((out[0] - expected).abs() < 1e-4);
}

#[test]
fn matvec_all_minus_one_weights() {
    let fx = SyntheticI2S::new(vec![0x00_u8; 32], 1.0);
    let w = fx.view("all_minus", 128, 1);
    let input: Vec<f32> = (0..128).map(|i| (i as f32) * 0.1).collect();
    let mut out = vec![0.0_f32; 1];
    matvec(&w, &input, &mut out).unwrap();
    let expected: f32 = -input.iter().sum::<f32>();
    assert!((out[0] - expected).abs() < 1e-4);
}

#[test]
fn matvec_all_zero_weights() {
    let fx = SyntheticI2S::new(vec![0x55_u8; 32], 1.0);
    let w = fx.view("all_zero", 128, 1);
    let input: Vec<f32> = (0..128).map(|i| 1.0 + (i as f32) * 0.01).collect();
    let mut out = vec![123.0_f32; 1];
    matvec(&w, &input, &mut out).unwrap();
    assert_eq!(out[0], 0.0);
}

#[test]
fn matvec_scale_applied_at_end() {
    let fx = SyntheticI2S::new(vec![0xAA_u8; 32], 3.5);
    let w = fx.view("scaled", 128, 1);
    let input = vec![2.0_f32; 128];
    let mut out = vec![0.0_f32; 1];
    matvec(&w, &input, &mut out).unwrap();
    assert!((out[0] - 896.0).abs() < 1e-3, "got {}", out[0]);
}

#[test]
fn matvec_two_rows_different_patterns() {
    let mut packed = vec![0xAA_u8; 32];
    packed.extend_from_slice(&[0x00_u8; 32]);
    let fx = SyntheticI2S::new(packed, 1.0);
    let w = fx.view("two_rows", 128, 2);
    let input = vec![1.0_f32; 128];
    let mut out = vec![0.0_f32; 2];
    matvec(&w, &input, &mut out).unwrap();
    assert!((out[0] - 128.0).abs() < 1e-4);
    assert!((out[1] + 128.0).abs() < 1e-4);
}

#[test]
fn matvec_column_stride_32_mapping() {
    let mut packed = vec![0x55_u8; 32];
    packed[0] = 0x86;
    let fx = SyntheticI2S::new(packed, 1.0);
    let w = fx.view("one_byte", 128, 1);
    let mut input = vec![0.0_f32; 128];
    input[0] = 1.0;
    input[32] = 10.0;
    input[64] = 100.0;
    input[96] = 1000.0;
    let mut out = vec![0.0_f32; 1];
    matvec(&w, &input, &mut out).unwrap();
    assert!((out[0] - 991.0).abs() < 1e-4);
}

#[test]
fn matvec_rejects_non_i2s_type() {
    let v = TensorView {
        name: "wrong".into(),
        shape: vec![128, 1],
        ggml_type: GgmlType::F32,
        offset: 0,
        byte_len: 4 * 128,
        data: &[],
        scale_data: None,
    };
    let input = vec![0.0_f32; 128];
    let mut out = vec![0.0_f32; 1];
    assert!(matvec(&v, &input, &mut out).is_err());
}

#[test]
fn matvec_rejects_wrong_input_length() {
    let fx = SyntheticI2S::new(vec![0xAA_u8; 32], 1.0);
    let w = fx.view("x", 128, 1);
    let mut out = vec![0.0_f32; 1];
    let e = matvec(&w, &[0.0_f32; 64], &mut out).unwrap_err();
    assert!(
        e.contains("bitlinear_i2s_matvec_f32: input.len()=64 != in_dim=128 (weight \"x\")"),
        "{e}"
    );
}

#[test]
fn matvec_rejects_wrong_output_length() {
    let fx = SyntheticI2S::new(vec![0xAA_u8; 32], 1.0);
    let w = fx.view("x", 128, 1);
    let mut out = vec![0.0_f32; 2];
    let e = matvec(&w, &[0.0_f32; 128], &mut out).unwrap_err();
    assert!(e.contains("output.len()=2 != out_dim=1"), "{e}");
}

#[test]
fn matvec_rejects_in_dim_not_multiple_of_128() {
    let fx = SyntheticI2S::new(vec![0xAA_u8; 32], 1.0);
    let w = fx.view("x", 64, 1);
    let mut out = vec![0.0_f32; 1];
    let e = matvec(&w, &[0.0_f32; 64], &mut out).unwrap_err();
    assert!(
        e.contains("in_dim 64 is not a positive multiple of 128 (QK_I2_S)"),
        "{e}"
    );
}

#[test]
fn matvec_is_deterministic_for_same_inputs() {
    let fx = SyntheticI2S::new(vec![0xAA_u8; 32], 1.0);
    let w = fx.view("det", 128, 1);
    let input: Vec<f32> = (0..128).map(|i| (i as f32).sin()).collect();
    let mut a = vec![0.0_f32; 1];
    let mut b = vec![0.0_f32; 1];
    matvec(&w, &input, &mut a).unwrap();
    matvec(&w, &input, &mut b).unwrap();
    assert_eq!(a, b);
}

#[test]
fn unpack_row_matches_packing() {
    let mut packed = vec![0x55_u8; 32];
    packed[0] = 0x86;
    let fx = SyntheticI2S::new(packed, 1.0);
    let w = fx.view("u", 128, 1);
    let row = i2s_unpack_row_to_i8(&w, 0).unwrap();
    assert_eq!(row.len(), 128);
    assert_eq!(row[0], 1);
    assert_eq!(row[32], -1);
    assert_eq!(row[64], 0);
    assert_eq!(row[96], 1);
    for &i in &[1usize, 31, 33, 63, 65, 95, 97, 127] {
        assert_eq!(row[i], 0, "position {} should be 0", i);
    }
}

#[test]
fn unpacking_refuses_what_is_not_there() {
    let fx = SyntheticI2S::new(vec![0x55_u8; 32], 1.0);
    let w = fx.view("u", 128, 1);
    let e = i2s_unpack_row_to_i8(&w, 1).unwrap_err().message();
    assert!(e.contains("row_idx 1 out of range (out_dim=1)"), "{e}");
    let short = fx.view("u", 128, 2);
    let e = i2s_unpack_row_to_i8(&short, 1).unwrap_err().message();
    assert!(e.contains("row bytes out of range for weight \"u\""), "{e}");
    let narrow = fx.view("u", 64, 1);
    let e = i2s_unpack_row_to_i8(&narrow, 0).unwrap_err().message();
    assert!(e.contains("in_dim 64 is not a positive multiple of 128"), "{e}");
}

#[test]
fn neon_all_plus_one_matches_sum() {
    let fx = SyntheticI2S::new(vec![0xAA_u8; 32], 1.0);
    let w = fx.view("test", 128, 1);
    let input: Vec<f32> = (0..128).map(|i| (i as f32) * 0.1).collect();
    let mut out = vec![0.0_f32; 1];
    matvec_neon(&w, &input, &mut out);
    let expected: f32 = input.iter().sum();
    assert!((out[0] - expected).abs() < 1e-3);
}

#[test]
fn neon_all_minus_one_matches_negative_sum() {
    let fx = SyntheticI2S::new(vec![0x00_u8; 32], 1.0);
    let w = fx.view("test", 128, 1);
    let input: Vec<f32> = (0..128).map(|i| (i as f32) * 0.1).collect();
    let mut out = vec![0.0_f32; 1];
    matvec_neon(&w, &input, &mut out);
    let expected: f32 = -input.iter().sum::<f32>();
    assert!((out[0] - expected).abs() < 1e-3);
}

#[test]
fn neon_all_zero_weights_yield_zero() {
    let fx = SyntheticI2S::new(vec![0x55_u8; 32], 1.0);
    let w = fx.view("test", 128, 1);
    let mut out = vec![999.0_f32; 1];
    matvec_neon(&w, &[1.25_f32; 128], &mut out);
    assert_eq!(out[0], 0.0);
}

#[test]
fn neon_scale_applied() {
    let fx = SyntheticI2S::new(vec![0xAA_u8; 32], 2.5);
    let w = fx.view("test", 128, 1);
    let mut out = vec![0.0_f32; 1];
    matvec_neon(&w, &[1.0_f32; 128], &mut out);
    assert!((out[0] - 320.0).abs() < 1e-3, "got {}", out[0]);
}

#[test]
fn code_to_ternary_matches_scalar_helper() {
    assert_eq!(code_to_ternary(0b00), -1);
    assert_eq!(code_to_ternary(0b01), 0);
    assert_eq!(code_to_ternary(0b10), 1);
    assert_eq!(code_to_ternary(0b11), 0);
    for code in 0..4_u8 {
        assert_eq!(ternary_lut(code), ternary_from_code(code));
    }
}

#[test]
fn each_kernel_words_its_own_complaint() {
    let fx = SyntheticI2S::new(vec![0xAA_u8; 31], 1.0);
    let w = fx.view("w", 128, 1);
    let scalar = check_matvec(MatvecKernel::Scalar, &w, 128, 1).unwrap_err().message();
    assert!(
        scalar.contains("weight \"w\" data.len()=31 != expected packed 32 (= in_dim/4 × out_dim)"),
        "{scalar}"
    );
    let lut = check_lut_matvec(&w, 128, 1).unwrap_err().message();
    assert!(
        lut.contains("bitlinear_lut_scalar: weight data.len()=31 != expected 32 (in_dim/4 × out_dim)"),
        "{lut}"
    );
    let neon = check_neon_matvec(&w, 128, 1).unwrap_err().message();
    assert!(neon.contains("neon matvec: weight \"w\" data.len()=31 != expected 32"), "{neon}");
    let sse2 = validate_inputs(&w, 128, 1).unwrap_err().message();
    assert!(
        sse2.contains("bitlinear_i2s_matvec_f32_sse2: weight data.len()=31 < 32 (in_dim/4 × out_dim)"),
        "{sse2}"
    );
    let long = SyntheticI2S::new(vec![0xAA_u8; 33], 1.0);
    let sse2 = validate_inputs(&long.view("w", 128, 1), 128, 1).unwrap_err().message();
    assert!(sse2.contains("weight data.len()=33 > 32 (in_dim/4 × out_dim)"), "{sse2}");
    assert!(check_neon_matvec(&long.view("w", 128, 1), 128, 1).is_err());
}

#[test]
fn a_byte_of_the_table_holds_four_weights() {
    assert_eq!(table_weights(0x86), (1, -1, 0, 1));
    assert_eq!(table_weights(0xAA), (1, 1, 1, 1));
    assert_eq!(table_weights(0xFF), (0, 0, 0, 0));
}

/// A deterministic stream of bytes.
fn noise(n: usize, mut state: u32) -> Vec<u8> {
    let mut out = Vec::new();
    for _ in 0..n {
        state = state.wrapping_mul(1_664_525).wrapping_add(1_013_904_223);
        out.push((state >> 24) as u8);
    }
    out
}

#[test]
fn whole_number_products_agree_with_unpacked_rows() {
    let fx = SyntheticI2S::new(noise(3 * 64, 7), 0.5);
    let w = fx.view("n", 256, 3);
    let act: Vec<i8> = noise(256, 99).iter().map(|b| *b as i8).collect();
    let (m, dots) = matvec_i8(&w, &act, 3).unwrap();
    assert_eq!(m.bytes_per_row, 64);
    assert_eq!(f32::from_bits(m.scale), 0.5);
    for (j, dot) in dots.iter().enumerate() {
        let row = i2s_unpack_row_to_i8(&w, j).unwrap();
        let expected: i32 = row
            .iter()
            .zip(&act)
            .map(|(w, a)| i32::from(*w) * i32::from(*a))
            .sum();
        assert_eq!(*dot, expected);
        assert_eq!(row_dot(w.data, j * 64, &act), expected);
    }
    let block = unpack_block(w.data, 32);
    let expected: i32 = block
        .iter()
        .zip(&act[128..])
        .map(|(w, a)| i32::from(*w) * i32::from(*a))
        .sum();
    assert_eq!(dot_i8_ternary(&block, &act, 128), expected);
}

#[test]
fn sparse_matvec_known_values() {
    let sw = SparseWeight {
        out_dim: 2,
        in_dim: 4,
        scale: 1.0_f32.to_bits(),
        row_starts: vec![0, 2, 3],
        cols: vec![0, 2, 1],
        signs: vec![1, -1, 1],
    };
    let act = vec![10_i8, 5, 3, 0];
    let sums = sparse_matvec_i8(&sw, &act, 2).unwrap();
    let combined = f32::from_bits(sw.scale) * 1.0;
    assert!((combined * sums[0] as f32 - 7.0).abs() < 1e-6);
    assert!((combined * sums[1] as f32 - 5.0).abs() < 1e-6);
}

#[test]
fn sparse_matvec_applies_combined_scale() {
    let sw = SparseWeight {
        out_dim: 1,
        in_dim: 2,
        scale: 2.0_f32.to_bits(),
        row_starts: vec![0, 1],
        cols: vec![0],
        signs: vec![1],
    };
    let act = vec![4_i8, 0];
    let sums = sparse_matvec_i8(&sw, &act, 1).unwrap();
    assert!((f32::from_bits(sw.scale) * 0.5 * sums[0] as f32 - 4.0).abs() < 1e-6);
}

#[test]
fn sparse_matvec_length_mismatch_errors() {
    let sw = SparseWeight {
        out_dim: 1,
        in_dim: 4,
        scale: 1.0_f32.to_bits(),
        row_starts: vec![0, 0],
        cols: vec![],
        signs: vec![],
    };
    assert!(sparse_matvec_i8(&sw, &[0_i8; 3], 1).is_err());
    assert!(sparse_matvec_i8(&sw, &[0_i8; 4], 2).is_err());
}

#[test]
fn from_i2s_on_synthetic_tiny() {
    let fx = SyntheticI2S::new(noise(128 * 32, 3), 1.0);
    let w = fx.view("attn_q", 128, 128);
    let sparse = SparseWeight::from_i2s(&w).unwrap();
    let total = w.shape[0] as usize * w.shape[1] as usize;
    assert!(sparse.nnz() <= total);
    assert_eq!(sparse.row_starts.len(), sparse.out_dim + 1);
    assert_eq!(sparse.cols.len(), sparse.nnz());
    assert_eq!(sparse.signs.len(), sparse.nnz());
    let act = vec![1_i8; sparse.in_dim];
    let sums = sparse_matvec_i8(&sparse, &act, sparse.out_dim).unwrap();
    assert!(sums.iter().all(|v| (*v as f32).is_finite()));
}

#[test]
fn from_i2s_rejects_non_i2s() {
    let embd = TensorView {
        name: "token_embd.weight".into(),
        shape: vec![128, 2],
        ggml_type: GgmlType::F16,
        offset: 0,
        byte_len: 512,
        data: &[],
        scale_data: None,
    };
    assert!(SparseWeight::from_i2s(&embd).is_err());
}

#[test]
fn leaving_out_zeros_changes_no_sum() {
    let fx = SyntheticI2S::new(noise(5 * 64, 21), 1.0);
    let w = fx.view("s", 256, 5);
    let act: Vec<i8> = noise(256, 4).iter().map(|b| *b as i8).collect();
    let sparse = SparseWeight::from_i2s(&w).unwrap();
    let sums = sparse_matvec_i8(&sparse, &act, 5).unwrap();
    let (_, dots) = matvec_i8(&w, &act, 5).unwrap();
    assert_eq!(sums, dots);
    assert!(sparse.signs.iter().all(|s| *s == 1 || *s == -1));
}

#[test]
fn sparse_refuses_wide_and_ragged_rows() {
    let fx = SyntheticI2S::new(Vec::new(), 1.0);
    let e = SparseWeight::from_i2s(&fx.view("w", 65536, 0)).unwrap_err().message();
    assert!(e.contains("in_dim 65536 exceeds u16 column index"), "{e}");
    let e = SparseWeight::from_i2s(&fx.view("w", 100, 0)).unwrap_err().message();
    assert!(e.contains("in_dim 100 not a positive multiple of 128"), "{e}");
}
