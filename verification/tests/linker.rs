//! Relinking a file with a quantised embedding table.

use willamette::gguf::artifact::{artifact_segments, patch_u32, patch_u64, ArtifactSegment};
use willamette::gguf::linker::{plan_artifact, validate_q6k_embedding, ArtifactProfile};
use willamette::gguf::plan_report::format_plan;
use willamette::gguf::reader::{align_offset, GgufFile};
use willamette::gguf::relink::TensorAction;
use willamette::gguf::repack::{embedding_row, embedding_rows, repack_embedding_q6k, source_slice};
use willamette::gguf::tensor::TensorView;
use willamette::gguf::types::GgmlType;
use willamette::gguf::value::GgufValue;
use willamette::model::graph::ModelGraph;

const EMBEDDING: u64 = 256;
const HIDDEN: u64 = 256;

fn push_u32(buf: &mut Vec<u8>, value: u32) {
    buf.extend_from_slice(&value.to_le_bytes());
}

fn push_u64(buf: &mut Vec<u8>, value: u64) {
    buf.extend_from_slice(&value.to_le_bytes());
}

fn push_string(buf: &mut Vec<u8>, value: &str) {
    push_u64(buf, value.len() as u64);
    buf.extend_from_slice(value.as_bytes());
}

fn pad(buf: &mut Vec<u8>) {
    while !buf.len().is_multiple_of(32) {
        buf.push(0);
    }
}

fn build(vocab: u64, output_weight: bool) -> Vec<u8> {
    build_with(vocab, output_weight, &[])
}

/// A ternary model of one layer, with its tensors one behind the other. Each of the
/// further entries is a key, the number of a type and the bytes of a value.
fn build_with(vocab: u64, output_weight: bool, further: &[(&str, u32, Vec<u8>)]) -> Vec<u8> {
    let mut tensors: Vec<(String, Vec<u64>, u32)> = vec![
        ("token_embd.weight".to_string(), vec![EMBEDDING, vocab], 1),
        ("output_norm.weight".to_string(), vec![EMBEDDING], 0),
    ];
    if output_weight {
        tensors.push(("output.weight".to_string(), vec![EMBEDDING, vocab], 1));
    }
    for (name, shape, raw) in [
        ("attn_norm", vec![EMBEDDING], 0),
        ("attn_sub_norm", vec![EMBEDDING], 0),
        ("attn_q", vec![EMBEDDING, EMBEDDING], 36),
        ("attn_k", vec![EMBEDDING, 128], 36),
        ("attn_v", vec![EMBEDDING, 128], 36),
        ("attn_output", vec![EMBEDDING, EMBEDDING], 36),
        ("ffn_norm", vec![EMBEDDING], 0),
        ("ffn_sub_norm", vec![HIDDEN], 0),
        ("ffn_gate", vec![EMBEDDING, HIDDEN], 36),
        ("ffn_up", vec![EMBEDDING, HIDDEN], 36),
        ("ffn_down", vec![HIDDEN, EMBEDDING], 36),
    ] {
        tensors.push((format!("blk.0.{name}.weight"), shape, raw));
    }

    let numbers = [
        ("block_count", 1_u32),
        ("embedding_length", EMBEDDING as u32),
        ("feed_forward_length", HIDDEN as u32),
        ("context_length", 64),
        ("attention.head_count", 2),
        ("attention.head_count_kv", 1),
        ("rope.dimension_count", 128),
        ("vocab_size", vocab as u32),
    ];
    let mut buf = Vec::new();
    buf.extend_from_slice(b"GGUF");
    push_u32(&mut buf, 3);
    push_u64(&mut buf, tensors.len() as u64);
    push_u64(&mut buf, (numbers.len() + 3 + further.len()) as u64);
    push_string(&mut buf, "general.architecture");
    push_u32(&mut buf, 8);
    push_string(&mut buf, "bitnet-b1.58");
    for (key, value) in numbers {
        push_string(&mut buf, &format!("bitnet-b1.58.{key}"));
        push_u32(&mut buf, 4);
        push_u32(&mut buf, value);
    }
    for (key, value) in [
        ("attention.layer_norm_rms_epsilon", 1e-5_f32),
        ("rope.freq_base", 10_000.0),
    ] {
        push_string(&mut buf, &format!("bitnet-b1.58.{key}"));
        push_u32(&mut buf, 6);
        push_u32(&mut buf, value.to_bits());
    }
    for (key, kind, bytes) in further {
        push_string(&mut buf, key);
        push_u32(&mut buf, *kind);
        buf.extend_from_slice(bytes);
    }

    let mut data: Vec<u8> = Vec::new();
    for (index, (name, shape, raw)) in tensors.iter().enumerate() {
        pad(&mut data);
        push_string(&mut buf, name);
        push_u32(&mut buf, shape.len() as u32);
        for dim in shape {
            push_u64(&mut buf, *dim);
        }
        push_u32(&mut buf, *raw);
        push_u64(&mut buf, data.len() as u64);
        let count: u64 = shape.iter().product();
        match raw {
            0 => {
                for _ in 0..count {
                    data.extend_from_slice(&1.0_f32.to_le_bytes());
                }
            }
            1 => {
                for i in 0..count {
                    data.extend_from_slice(&(0x3c00 + (i % 7) as u16).to_le_bytes());
                }
            }
            _ => {
                for i in 0..count / 4 {
                    data.push((i * 31 + index as u64) as u8);
                }
                data.extend_from_slice(&0.5_f32.to_le_bytes());
                data.extend_from_slice(&[0; 28]);
            }
        }
    }
    pad(&mut buf);
    buf.extend_from_slice(&data);
    buf
}

fn compact_source() -> Vec<u8> {
    build(5, false)
}

fn move_embedding_to_second_physical_slot(source: &[u8]) -> Vec<u8> {
    let gguf = GgufFile::parse(source).unwrap();
    let mut physical: Vec<usize> = (0..gguf.tensors.len()).collect();
    physical.sort_unstable_by_key(|&index| gguf.tensors[index].offset);
    assert_eq!(gguf.tensors[physical[0]].name, "token_embd.weight");
    assert_eq!(gguf.tensors[physical[1]].name, "output_norm.weight");
    physical.swap(0, 1);

    let data_start = gguf.data_section_start as usize;
    let mut reordered = source[..data_start].to_vec();
    let original_physical = {
        let mut indices: Vec<usize> = (0..gguf.tensors.len()).collect();
        indices.sort_unstable_by_key(|&index| gguf.tensors[index].offset);
        indices
    };
    let mut relative_offset = 0u64;
    for source_index in physical {
        relative_offset = align_offset(relative_offset, gguf.alignment).unwrap();
        let descriptor = &gguf.tensor_descriptors[source_index];
        patch_u64(
            &mut reordered,
            descriptor.relative_offset_offset,
            relative_offset,
        )
        .unwrap();
        let physical_position = original_physical
            .iter()
            .position(|&index| index == source_index)
            .unwrap();
        let slot_end = original_physical
            .get(physical_position + 1)
            .map(|&next_index| gguf.tensors[next_index].offset)
            .unwrap_or(source.len() as u64);
        let absolute_offset = gguf.data_section_start + relative_offset;
        reordered.resize(absolute_offset as usize, 0);
        let slot = source_slice(source, gguf.tensors[source_index].offset, slot_end).unwrap();
        reordered.extend_from_slice(slot);
        relative_offset += slot.len() as u64;
    }
    reordered
}

/// The bytes of an artifact whose quantised table is `quantized`.
fn write(segments: &[ArtifactSegment], source: &[u8], quantized: &[u8]) -> Vec<u8> {
    let mut out = Vec::new();
    for segment in segments {
        match segment {
            ArtifactSegment::Bytes(bytes) => out.extend_from_slice(bytes),
            ArtifactSegment::Zeros(count) => out.resize(out.len() + *count as usize, 0),
            ArtifactSegment::Source { start, end } => {
                out.extend_from_slice(source_slice(source, *start, *end).unwrap())
            }
            ArtifactSegment::Quantized => out.extend_from_slice(quantized),
        }
    }
    out
}

#[test]
fn profile_name_round_trips() {
    let profile = ArtifactProfile::from_name("embedding-q6-k").unwrap();
    assert_eq!(profile, ArtifactProfile::EmbeddingQ6K);
    assert_eq!(profile.as_str(), "embedding-q6-k");
    assert!(ArtifactProfile::from_name("unknown").is_err());
}

#[test]
fn plans_non_alignment_sized_embedding_reduction() {
    let source = compact_source();
    let plan = plan_artifact(&source, ArtifactProfile::EmbeddingQ6K).unwrap();
    assert_eq!(plan.architecture, "bitnet-b1.58");
    assert_eq!(
        plan.tensor_count as usize,
        GgufFile::parse(&source).unwrap().tensors.len()
    );
    assert_eq!(plan.changes.len(), 1);
    assert_eq!(plan.tensors.len(), plan.tensor_count as usize);
    assert_eq!(
        plan.tensors
            .iter()
            .filter(|tensor| tensor.action == TensorAction::QuantizeF16ToQ6K)
            .count(),
        1
    );
    assert_eq!(plan.changes[0].source_bytes, 2_560);
    assert_eq!(plan.changes[0].output_bytes, 1_050);
    let embedding_plan = plan
        .tensors
        .iter()
        .find(|tensor| tensor.name == "token_embd.weight")
        .unwrap();
    assert_eq!(embedding_plan.output_primary_bytes, 1_050);
    assert_eq!(embedding_plan.output_slot_bytes, 1_056);
    assert!(
        !(plan.changes[0].source_bytes - plan.changes[0].output_bytes)
            .is_multiple_of(plan.alignment)
    );
}

#[test]
fn tied_profile_rejects_separate_output_weight() {
    let source = build(5, true);
    let error = plan_artifact(&source, ArtifactProfile::EmbeddingQ6K).unwrap_err();
    assert!(error.message().contains("separate output.weight"));
}

#[test]
fn q6k_profile_rejects_zero_width_before_writing() {
    let embedding = TensorView {
        name: "token_embd.weight".to_string(),
        shape: vec![0, 1],
        ggml_type: GgmlType::F16,
        offset: 0,
        byte_len: 0,
        data: &[],
        scale_data: None,
    };
    let error = validate_q6k_embedding(&embedding).unwrap_err();
    assert!(error.message().contains("greater than zero"));
}

#[test]
fn links_embedding_from_middle_and_preserves_other_tensors() {
    let mut source = move_embedding_to_second_physical_slot(&compact_source());
    let padding_offset = {
        let gguf = GgufFile::parse(&source).unwrap();
        let i2s = gguf
            .tensors
            .iter()
            .find(|tensor| tensor.ggml_type == GgmlType::BitNetI2S)
            .unwrap();
        (i2s.offset + i2s.byte_len + 7) as usize
    };
    source[padding_offset] = 0xa5;
    let source_gguf = GgufFile::parse(&source).unwrap();
    let embedding = source_gguf
        .tensors
        .iter()
        .find(|tensor| tensor.name == "token_embd.weight")
        .unwrap();
    assert!(source_gguf
        .tensors
        .iter()
        .any(|tensor| tensor.offset < embedding.offset));

    let (plan, segments) = artifact_segments(&source, ArtifactProfile::EmbeddingQ6K).unwrap();
    let quantized = vec![0_u8; plan.changes[0].output_bytes as usize];
    let output = write(&segments, &source, &quantized);
    assert_eq!(output.len() as u64, plan.output_bytes);

    let output_gguf = GgufFile::parse(&output).unwrap();
    let output_embedding = output_gguf
        .tensors
        .iter()
        .find(|tensor| tensor.name == "token_embd.weight")
        .unwrap();
    assert_eq!(output_embedding.ggml_type, GgmlType::Q6K);
    for source_tensor in source_gguf
        .tensors
        .iter()
        .filter(|tensor| tensor.name != "token_embd.weight")
    {
        let output_tensor = output_gguf
            .tensors
            .iter()
            .find(|tensor| tensor.name == source_tensor.name)
            .unwrap();
        assert_eq!(
            output_tensor.data, source_tensor.data,
            "{}",
            source_tensor.name
        );
        assert_eq!(
            output_tensor.scale_data, source_tensor.scale_data,
            "{} scale block",
            source_tensor.name
        );
        assert_eq!(
            (output_tensor.offset - output_gguf.data_section_start) % output_gguf.alignment,
            0,
            "{} alignment",
            source_tensor.name
        );
    }
    ModelGraph::from_gguf(&output_gguf).unwrap();
}

#[test]
fn repacks_synthetic_embedding_and_preserves_graph() {
    let source = build(64, false);
    let source_gguf = GgufFile::parse(&source).unwrap();
    let (expected_size, segments) = repack_embedding_q6k(&source).unwrap();
    let quantized = vec![0_u8; 64 * 210];
    let repacked = write(&segments, &source, &quantized);
    assert_eq!(repacked.len() as u64, expected_size);

    let gguf = GgufFile::parse(&repacked).unwrap();
    let embedding = gguf
        .tensors
        .iter()
        .find(|tensor| tensor.name == "token_embd.weight")
        .unwrap();
    assert_eq!(embedding.ggml_type, GgmlType::Q6K);
    embedding.verify_byte_len().unwrap();
    for source_tensor in source_gguf
        .tensors
        .iter()
        .filter(|tensor| tensor.name != "token_embd.weight")
    {
        let repacked_tensor = gguf
            .tensors
            .iter()
            .find(|tensor| tensor.name == source_tensor.name)
            .unwrap();
        assert_eq!(
            repacked_tensor.data, source_tensor.data,
            "{}",
            source_tensor.name
        );
        assert_eq!(
            repacked_tensor.scale_data, source_tensor.scale_data,
            "{} scale block",
            source_tensor.name
        );
    }
    ModelGraph::from_gguf(&gguf).unwrap();
}

#[test]
fn rows_of_the_table_are_widened_one_by_one() {
    let source = compact_source();
    let gguf = GgufFile::parse(&source).unwrap();
    let table = &gguf.tensors[0];
    let e = embedding_rows(table).unwrap();
    assert_eq!((e.elements, e.half_bytes, e.quantized_bytes, e.rows), (256, 512, 210, 5));
    let row = embedding_row(table.data, &e, 1);
    assert_eq!(row.len(), 256);
    for (i, bits) in row.iter().enumerate() {
        let step = ((256 + i) % 7) as f32;
        assert_eq!(f32::from_bits(*bits), 1.0 + step / 1024.0);
    }
}

#[test]
fn a_plan_is_told_in_lines() {
    let source = compact_source();
    let plan = plan_artifact(&source, ArtifactProfile::EmbeddingQ6K).unwrap();
    let short = format_plan(&plan, false);
    let long = format_plan(&plan, true);
    assert!(long.len() > short.len());
    assert!(long.iter().any(|line| line.contains("token_embd.weight")));
}

#[test]
fn patches_stay_within_the_file() {
    let mut data = vec![0_u8; 12];
    patch_u32(&mut data, 8, 0x0102_0304).unwrap();
    assert_eq!(data[8..], [4, 3, 2, 1]);
    patch_u64(&mut data, 0, 0x1122).unwrap();
    assert_eq!(data[..8], [0x22, 0x11, 0, 0, 0, 0, 0, 0]);
    assert!(patch_u32(&mut data, 9, 7).is_err());
    assert!(patch_u64(&mut data, u64::MAX, 7).is_err());
    assert_eq!(data[8..], [4, 3, 2, 1]);
}

#[test]
fn stretches_lie_within_the_source() {
    let bytes = [1_u8, 2, 3];
    assert_eq!(source_slice(&bytes, 1, 3).unwrap(), &[2, 3]);
    assert!(source_slice(&bytes, 1, 4).is_err());
    assert!(source_slice(&bytes, 2, 1).is_err());
}

#[test]
fn a_table_of_the_wrong_type_is_refused() {
    let mut source = compact_source();
    let at = GgufFile::parse(&source).unwrap().tensor_descriptors[0].dtype_offset;
    patch_u32(&mut source, at, 14).unwrap();
    assert!(plan_artifact(&source, ArtifactProfile::EmbeddingQ6K).is_err());
    assert!(artifact_segments(&source, ArtifactProfile::EmbeddingQ6K).is_err());
    assert!(repack_embedding_q6k(&[0; 4]).is_err());
}

#[test]
fn plans_of_one_source_are_alike() {
    let source = move_embedding_to_second_physical_slot(&compact_source());
    let shown = plan_artifact(&source, ArtifactProfile::EmbeddingQ6K).unwrap();
    let (written, _) = artifact_segments(&source, ArtifactProfile::EmbeddingQ6K).unwrap();
    assert_eq!(format!("{shown:?}"), format!("{written:?}"));
}

#[test]
fn every_metadata_value_reads_back() {
    let mut texts = Vec::new();
    push_u32(&mut texts, 8);
    push_u64(&mut texts, 2);
    push_string(&mut texts, "left");
    push_string(&mut texts, "rechts ▌");
    let mut nested = Vec::new();
    push_u32(&mut nested, 9);
    push_u64(&mut nested, 2);
    push_u32(&mut nested, 5);
    push_u64(&mut nested, 2);
    push_u32(&mut nested, (-7_i32) as u32);
    push_u32(&mut nested, 8);
    push_u32(&mut nested, 12);
    push_u64(&mut nested, 1);
    push_u64(&mut nested, 0.1_f64.to_bits());
    let source = build_with(
        5,
        false,
        &[
            ("a.flag", 7, vec![1]),
            ("a.debt", 11, (-5_i64).to_le_bytes().to_vec()),
            ("a.tenth", 12, 0.1_f64.to_le_bytes().to_vec()),
            ("a.texts", 9, texts),
            ("a.nested", 9, nested),
        ],
    );
    let (plan, segments) = artifact_segments(&source, ArtifactProfile::EmbeddingQ6K).unwrap();
    let quantized = vec![3_u8; plan.changes[0].output_bytes as usize];
    let output = write(&segments, &source, &quantized);
    let before = GgufFile::parse(&source).unwrap();
    let after = GgufFile::parse(&output).unwrap();

    assert_eq!(after.metadata.len(), before.metadata.len());
    for i in 0..before.metadata.len() {
        let (key, value) = before.metadata.entry(i);
        let again = after.metadata.get(key).unwrap();
        assert_eq!(format!("{again:?}"), format!("{value:?}"), "{key}");
    }
    assert!(matches!(after.metadata.get("a.flag"), Some(GgufValue::Bool(true))));
    assert!(matches!(after.metadata.get("a.debt"), Some(GgufValue::Int64(-5))));
    let tenth = 0.1_f64.to_bits();
    assert!(matches!(after.metadata.get("a.tenth"), Some(GgufValue::Float64(b)) if *b == tenth));
    assert_eq!(
        after.metadata.get("a.texts").unwrap().as_string_array(),
        Some(vec!["left", "rechts ▌"])
    );
    let Some(GgufValue::Array(outer)) = after.metadata.get("a.nested") else {
        panic!("not an array");
    };
    let [GgufValue::Array(whole), GgufValue::Array(parts)] = &outer[..] else {
        panic!("not two arrays");
    };
    assert!(matches!(whole[..], [GgufValue::Int32(-7), GgufValue::Int32(8)]));
    assert!(matches!(parts[..], [GgufValue::Float64(b)] if b == tenth));
}
