//! What the reader refuses.

use willamette::gguf::layout::{
    GGUF_DEFAULT_ALIGNMENT, GGUF_MAGIC, MAX_METADATA_KV_COUNT, MAX_TENSOR_COUNT, MAX_TENSOR_DIMS,
};
use willamette::gguf::reader::GgufFile;
use willamette::gguf::value::MAX_METADATA_ARRAY_ELEMENTS;

fn push_u32(buf: &mut Vec<u8>, value: u32) {
    buf.extend_from_slice(&value.to_le_bytes());
}

fn push_u64(buf: &mut Vec<u8>, value: u64) {
    buf.extend_from_slice(&value.to_le_bytes());
}

fn push_string(buf: &mut Vec<u8>, value: &str) {
    push_u64(buf, value.len() as u64);
    buf.extend_from_slice(value.as_bytes());
}

fn header(tensor_count: u64, metadata_count: u64) -> Vec<u8> {
    let mut buf = Vec::new();
    push_u32(&mut buf, GGUF_MAGIC);
    push_u32(&mut buf, 3);
    push_u64(&mut buf, tensor_count);
    push_u64(&mut buf, metadata_count);
    buf
}

fn build_gguf(infos: &[(&str, &[u64], u32, u64)], tensor_data: &[u8]) -> Vec<u8> {
    let mut buf = header(infos.len() as u64, 0);
    for (name, shape, ggml_type, offset) in infos {
        push_string(&mut buf, name);
        push_u32(&mut buf, shape.len() as u32);
        for dim in *shape {
            push_u64(&mut buf, *dim);
        }
        push_u32(&mut buf, *ggml_type);
        push_u64(&mut buf, *offset);
    }
    while !buf.len().is_multiple_of(GGUF_DEFAULT_ALIGNMENT as usize) {
        buf.push(0);
    }
    buf.extend_from_slice(tensor_data);
    buf
}

fn parse_error(data: &[u8]) -> String {
    GgufFile::parse(data).err().unwrap().message()
}

#[test]
fn rejects_tensor_with_unknown_byte_layout() {
    let data = build_gguf(&[("unknown", &[7], 999, 0)], &[1, 2, 3, 4, 5, 6, 7]);

    let error = parse_error(&data);
    assert!(error.contains("unsupported type"), "{error}");
    assert!(error.contains("byte length is unknown"), "{error}");
}

#[test]
fn rejects_overlapping_known_tensors() {
    let data = build_gguf(&[("first", &[2], 0, 0), ("second", &[1], 0, 4)], &[0; 8]);

    let error = parse_error(&data);
    assert!(error.contains("overlaps next tensor"), "{error}");
}

#[test]
fn rejects_i2s_scale_block_overlapping_next_tensor() {
    let data = build_gguf(&[("i2s", &[128], 36, 0), ("next", &[1], 0, 48)], &[0; 64]);

    let error = parse_error(&data);
    assert!(error.contains("scale block ends"), "{error}");
    assert!(error.contains("overlapping next tensor"), "{error}");
}

#[test]
fn rejects_shape_product_overflow() {
    let data = build_gguf(&[("bad", &[u64::MAX, 2], 24, 0)], &[]);

    let error = parse_error(&data);
    assert!(error.contains("shape product overflow"), "{error}");
}

#[test]
fn rejects_tensor_byte_length_overflow() {
    let data = build_gguf(&[("bad", &[u64::MAX], 28, 0)], &[]);

    let error = parse_error(&data);
    assert!(error.contains("byte length overflow"), "{error}");
}

#[test]
fn rejects_incomplete_quantized_block() {
    let data = build_gguf(&[("bad", &[31], 2, 0)], &[]);

    let error = parse_error(&data);
    assert!(error.contains("Q4_0 row length 31"), "{error}");
}

#[test]
fn rejects_q8_0_row_with_only_total_block_alignment() {
    let data = build_gguf(&[("bad", &[16, 2], 8, 0)], &[0; 34]);
    let error = parse_error(&data);
    assert!(error.contains("Q8_0 row length 16"), "{error}");
}

#[test]
fn rejects_q4_0_row_with_only_total_block_alignment() {
    let data = build_gguf(&[("bad", &[16, 2], 2, 0)], &[0; 18]);
    let error = parse_error(&data);
    assert!(error.contains("Q4_0 row length 16"), "{error}");
}

#[test]
fn rejects_q4k_row_with_only_total_block_alignment() {
    let data = build_gguf(&[("bad", &[128, 2], 12, 0)], &[0; 144]);
    let error = parse_error(&data);
    assert!(error.contains("Q4_K row length 128"), "{error}");
}

#[test]
fn rejects_excessive_header_counts() {
    let tensor_error = parse_error(&header(MAX_TENSOR_COUNT + 1, 0));
    assert!(tensor_error.contains("tensor_count"), "{tensor_error}");
    assert!(tensor_error.contains("safety limit"), "{tensor_error}");

    let metadata_error = parse_error(&header(0, MAX_METADATA_KV_COUNT + 1));
    assert!(
        metadata_error.contains("metadata_kv_count"),
        "{metadata_error}"
    );
    assert!(metadata_error.contains("safety limit"), "{metadata_error}");
}

#[test]
fn rejects_excessive_tensor_dimensions() {
    let mut data = header(1, 0);
    push_string(&mut data, "bad");
    push_u32(&mut data, MAX_TENSOR_DIMS + 1);
    data.resize(data.len() + 24, 0);

    let error = parse_error(&data);
    assert!(error.contains("n_dims 5 exceeds 4"), "{error}");
}

#[test]
fn rejects_excessive_metadata_array_count_before_allocation() {
    let mut data = header(0, 1);
    push_string(&mut data, "array");
    push_u32(&mut data, 9);
    push_u32(&mut data, 0);
    push_u64(&mut data, MAX_METADATA_ARRAY_ELEMENTS + 1);

    let error = parse_error(&data);
    assert!(error.contains("array count"), "{error}");
    assert!(error.contains("safety limit"), "{error}");
}
