//! Tensors and their sizes.

use willamette::gguf::tensor::TensorView;
use willamette::gguf::types::GgmlType;

#[test]
fn i2s_block_constants() {
    assert_eq!(TensorView::I2S_ELEMENTS_PER_BLOCK, 128);
    assert_eq!(TensorView::I2S_PACKED_BYTES_PER_BLOCK, 32);
    assert_eq!(TensorView::I2S_TRAILING_SCALE_BLOCK_BYTES, 32);
    assert_eq!(
        TensorView::I2S_ELEMENTS_PER_BLOCK * 2 / 8,
        TensorView::I2S_PACKED_BYTES_PER_BLOCK
    );
}

#[test]
fn i2s_expected_byte_len_matches_real_shapes() {
    let cases = &[
        (vec![6912u64, 2560], 4_423_680u64),
        (vec![2560, 6912], 4_423_680),
        (vec![2560, 2560], 1_638_400),
        (vec![2560, 640], 409_600),
    ];
    for (shape, expected) in cases {
        let got = TensorView::i2s_expected_byte_len(shape).unwrap();
        assert_eq!(got, *expected, "shape {:?}", shape);
    }
}

#[test]
fn i2s_total_disk_bytes_adds_32() {
    let shape = vec![2560u64, 640];
    let packed = TensorView::i2s_expected_byte_len(&shape).unwrap();
    let total = TensorView::i2s_total_disk_bytes(&shape).unwrap();
    assert_eq!(total, packed + 32);
}

#[test]
fn i2s_block_misaligned_shape_errors() {
    let shape = vec![127u64];
    let result = TensorView::i2s_expected_byte_len(&shape);
    assert!(result.is_err());
}

#[test]
fn i2s_scale_offset_is_none_for_other_types() {
    let v = TensorView {
        name: "x".into(),
        shape: vec![10],
        ggml_type: GgmlType::F32,
        offset: 100,
        byte_len: 40,
        data: &[],
        scale_data: None,
    };
    assert_eq!(v.i2s_scale_file_offset(), None);
}

#[test]
fn i2s_scale_offset_is_offset_plus_byte_len() {
    let v = TensorView {
        name: "x".into(),
        shape: vec![128],
        ggml_type: GgmlType::BitNetI2S,
        offset: 1000,
        byte_len: 32,
        data: &[],
        scale_data: None,
    };
    assert_eq!(v.i2s_scale_file_offset(), Some(1032));
}

#[test]
fn verify_byte_len_passes_for_consistent_view() {
    let v = TensorView {
        name: "test".into(),
        shape: vec![128],
        ggml_type: GgmlType::BitNetI2S,
        offset: 0,
        byte_len: 32,
        data: &[],
        scale_data: None,
    };
    assert!(v.verify_byte_len().is_ok());
}

#[test]
fn verify_byte_len_fails_for_wrong_size() {
    let v = TensorView {
        name: "broken".into(),
        shape: vec![128],
        ggml_type: GgmlType::BitNetI2S,
        offset: 0,
        byte_len: 64,
        data: &[],
        scale_data: None,
    };
    assert!(v.verify_byte_len().is_err());
}

#[test]
fn i2s_scale_reads_first_4_bytes_as_f32() {
    let block: [u8; 32] = {
        let mut b = [0u8; 32];
        b[..4].copy_from_slice(&1.5_f32.to_le_bytes());
        b
    };
    let v = TensorView {
        name: "i2s".into(),
        shape: vec![128],
        ggml_type: GgmlType::BitNetI2S,
        offset: 0,
        byte_len: 32,
        data: &[],
        scale_data: Some(&block),
    };
    assert_eq!(f32::from_bits(v.i2s_scale().unwrap()), 1.5);
}

#[test]
fn i2s_scale_errors_for_non_i2s_type() {
    let v = TensorView {
        name: "not-i2s".into(),
        shape: vec![10],
        ggml_type: GgmlType::F32,
        offset: 0,
        byte_len: 40,
        data: &[],
        scale_data: None,
    };
    assert!(v.i2s_scale().is_err());
}

#[test]
fn i2s_scale_errors_for_missing_scale_data() {
    let v = TensorView {
        name: "i2s-no-scale".into(),
        shape: vec![128],
        ggml_type: GgmlType::BitNetI2S,
        offset: 0,
        byte_len: 32,
        data: &[],
        scale_data: None,
    };
    assert!(v.i2s_scale().is_err());
}

#[test]
fn i2s_scale_errors_for_nan_or_inf() {
    let mut block_nan = [0u8; 32];
    block_nan[..4].copy_from_slice(&f32::NAN.to_le_bytes());
    let v_nan = TensorView {
        name: "nan".into(),
        shape: vec![128],
        ggml_type: GgmlType::BitNetI2S,
        offset: 0,
        byte_len: 32,
        data: &[],
        scale_data: Some(&block_nan),
    };
    assert!(v_nan.i2s_scale().is_err());

    let mut block_inf = [0u8; 32];
    block_inf[..4].copy_from_slice(&f32::INFINITY.to_le_bytes());
    let v_inf = TensorView {
        name: "inf".into(),
        shape: vec![128],
        ggml_type: GgmlType::BitNetI2S,
        offset: 0,
        byte_len: 32,
        data: &[],
        scale_data: Some(&block_inf),
    };
    assert!(v_inf.i2s_scale().is_err());
}

#[test]
fn summaries_fill_their_columns() {
    let t = TensorView {
        name: "token_embd.weight".into(),
        shape: vec![128, 2],
        ggml_type: GgmlType::F16,
        offset: 0xBEEF,
        byte_len: 512,
        data: &[],
        scale_data: None,
    };
    let expected = format!(
        "{:<50} dtype={:<16} shape=[128, 2]  offset=0xBEEF  bytes=512",
        "token_embd.weight", "F16"
    );
    assert_eq!(t.summary(), expected);
}
