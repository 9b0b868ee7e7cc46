//! What the commands say, and how values are shown.

use willamette::commands::{
    bench_heading, bench_token, build_sampling_limits, check_new_tokens, logits_heading,
    roundtrip_text, run_cache_len, run_heading, run_summary, tokenize_report, RunRequest,
    TextStream, TokenizeReport, ONE_BITS,
};
use willamette::error::WillametteError;
use willamette::gguf::metadata::Metadata;
use willamette::gguf::tensor::TensorView;
use willamette::gguf::types::GgmlType;
use willamette::gguf::value::GgufValue;
use willamette::quotient::quotient_text;
use willamette::report::{
    format_tensor_row, format_value, metadata_section, safe_truncate, truncate, KeyGroup,
};
use willamette::text::{is_whitespace, trim, trim_end};

#[test]
fn runs_need_tokens() {
    assert_eq!(check_new_tokens(0).unwrap_err(), "--max-new-tokens must be >= 1");
    assert!(check_new_tokens(1).is_ok());
    assert_eq!(run_cache_len(3, 5).unwrap(), 64);
    assert_eq!(run_cache_len(40, 9).unwrap(), 65);
    assert_eq!(
        run_cache_len(0, 5).unwrap_err(),
        "prompt encoded to zero tokens — cannot run forward"
    );
}

#[test]
fn a_run_is_announced_and_summed_up() {
    let lines = run_heading(&RunRequest {
        path: "m.gguf".to_string(),
        architecture: "bitnet-b1.58".to_string(),
        block_count: 30,
        vocab_size: 128256,
        prompt: "a \"b\"\n".to_string(),
        prompt_ids: vec![128000, 15],
        greedy: true,
        max_new_tokens: 8,
        eos: Some(128001),
        pad: None,
        stop_ids: vec![7],
    });
    assert_eq!(lines[1], "Run: m.gguf");
    assert_eq!(lines[7], "Prompt:           \"a \\\"b\\\"\\n\"");
    assert_eq!(lines[8], "Prompt tokens:    2 ([128000, 15])");
    assert_eq!(lines[10], "Decode mode:      greedy (argmax)");
    assert_eq!(
        lines[11],
        "Max new tokens:   8  EOS id: Some(128001)  PAD id: None  extra stop: [7]"
    );
    let end = run_summary(&[1, 2], "é!", "p");
    assert_eq!(
        end,
        [
            "",
            "",
            "Generated 2 token(s): [1, 2]",
            "Generated text:   \"é!\"",
            "Full text:        \"pé!\""
        ]
    );
}

#[test]
fn a_stream_prints_whole_characters() {
    let mut s = TextStream::new();
    let bytes = "aé€x".as_bytes();
    let mut printed = String::new();
    for b in bytes {
        printed.push_str(&s.feed(&[*b]));
    }
    assert_eq!(printed, "aé€x");
    assert!(!s.broken_off());
    assert_eq!(s.feed(&[0xe2, 0x82]), "");
    assert!(s.broken_off());
    assert_eq!(s.feed(&[0xac, b'!']), "€!");
}

#[test]
fn a_text_must_come_back() {
    let bos = Some("<s>".to_string());
    let eos = Some("</s>".to_string());
    assert_eq!(roundtrip_text("x", &bos, &eos), "<s>x</s>");
    assert_eq!(roundtrip_text("x", &None, &eos), "x</s>");
    assert_eq!(roundtrip_text("x", &None, &None), "x");
    let mut report = TokenizeReport {
        path: "m".to_string(),
        model: "gpt2".to_string(),
        vocab_size: 4,
        bos: Some(1),
        eos: None,
        pad: None,
        add_bos: true,
        add_eos: false,
        default_add_bos: false,
        text: "x".to_string(),
        ids: vec![1, 3],
        token_texts: vec!["<s>".to_string(), "x".to_string()],
        decoded: "<s>x".to_string(),
        expected: "<s>x".to_string(),
    };
    let (lines, ok) = tokenize_report(&report);
    assert!(ok.is_ok());
    assert_eq!(lines[5], "Special IDs:     BOS=Some(1), EOS=None, PAD=None");
    assert_eq!(lines[11], "Token strings:   [\"<s>\", \"x\"]");
    assert_eq!(lines[13], "Roundtrip:       OK (expected \"<s>x\")");
    report.decoded = "y".to_string();
    let (lines, failed) = tokenize_report(&report);
    assert_eq!(
        failed.unwrap_err(),
        "roundtrip mismatch: encode/decode did not reproduce the input"
    );
    assert_eq!(lines[13], "Roundtrip:       FAIL (expected \"<s>x\")");
}

#[test]
fn measurements_and_logits_have_headings() {
    assert_eq!(bench_token(15339), 0);
    assert_eq!(bench_token(15340), 15339);
    let lines = bench_heading("x86_64", "x86_64 SSE2", "m", 2, 9);
    assert_eq!(lines[4], "Matvec backend:   x86_64 SSE2");
    assert_eq!(lines[7], "Vocab size:       9");
    let lines = logits_heading("m", "p", true, &[3], &vec!["t".to_string()], 5, "b");
    assert_eq!(lines[3], "add_bos:    true");
    assert_eq!(lines[8], "argmax_id:  5");
    assert_eq!(lines[9], "argmax_str: \"b\"");
}

#[test]
fn options_that_limit_nothing_are_left_out() {
    assert_eq!(ONE_BITS, 1.0_f32.to_bits());
    let limits = |k: usize, p: f32, r: f32| build_sampling_limits(k, p.to_bits(), r.to_bits());
    let none = limits(0, 1.0, 1.0);
    assert_eq!((none.top_k, none.top_p, none.repetition_penalty), (None, None, None));
    let all = limits(40, 0.9, 1.1);
    assert_eq!(all.top_k, Some(40));
    assert_eq!(all.top_p, Some(0.9_f32.to_bits()));
    assert_eq!(all.repetition_penalty, Some(1.1_f32.to_bits()));
    assert_eq!(limits(1, 0.0, 0.5).top_p, None);
    assert_eq!(limits(1, -0.0, 0.5).top_p, None);
    assert_eq!(limits(1, -3.0, 0.5).repetition_penalty, None);
}

#[test]
fn every_error_says_what_is_wrong() {
    let cases = [
        (WillametteError::Io("gone".to_string()), "IO error: gone"),
        (
            WillametteError::InvalidMagic(0x1234),
            "Invalid GGUF magic (expected 0x46554747, got 0x00001234)",
        ),
        (
            WillametteError::UnsupportedVersion(9),
            "Unsupported GGUF version: 9 (supported: 2, 3)",
        ),
        (
            WillametteError::GgufParse("bad".to_string()),
            "GGUF parse error: bad",
        ),
        (
            WillametteError::UnsupportedArchitecture("phi3".to_string()),
            "Unsupported architecture: \"phi3\"",
        ),
        (
            WillametteError::MissingMetadata(vec!["a.b".to_string(), "c".to_string()]),
            "Missing required metadata key(s): a.b, c",
        ),
        (
            WillametteError::UnsupportedTensorType(77),
            "Unsupported GGML tensor type: 77",
        ),
        (
            WillametteError::UnsupportedTokenizer("bert".to_string()),
            "Unsupported tokenizer: bert",
        ),
        (
            WillametteError::NotImplemented("x".to_string()),
            "Not implemented: x",
        ),
        (
            WillametteError::InvalidPath("/p".to_string()),
            "Invalid model file: /p",
        ),
        (
            WillametteError::TensorOutOfBounds {
                name: "t".to_string(),
                offset: 1,
                end: 2,
                file_len: 3,
            },
            "Tensor data out of bounds: tensor \"t\" requires bytes [1..2), file size = 3",
        ),
        (
            WillametteError::StringOverflow(12),
            "String length overflow: 12",
        ),
        (
            WillametteError::MetadataTypeMismatch {
                key: "k".to_string(),
                expected: "u32".to_string(),
                actual: "str".to_string(),
            },
            "Metadata value type error for key \"k\": expected u32, got str",
        ),
    ];
    for (error, text) in cases {
        assert_eq!(error.message(), text);
    }
}

#[test]
fn values_are_shown_as_numbers_and_texts() {
    let shown = |v: GgufValue| format_value(&v);
    assert_eq!(shown(GgufValue::Float32(0.1_f32.to_bits())), "f32  0.1");
    assert_eq!(shown(GgufValue::Float32(1e-5_f32.to_bits())), "f32  0.00001");
    assert_eq!(shown(GgufValue::Float64((-2.5_f64).to_bits())), "f64  -2.5");
    assert_eq!(shown(GgufValue::Float64(f64::NAN.to_bits())), "f64  NaN");
    assert_eq!(shown(GgufValue::Int8(-3)), "i8   -3");
    assert_eq!(shown(GgufValue::Uint64(u64::MAX)), "u64  18446744073709551615");
    assert_eq!(shown(GgufValue::Bool(true)), "bool true");
    assert_eq!(shown(GgufValue::Str("x".to_string())), "str  \"x\"");
    let long = "a".repeat(241);
    assert_eq!(
        shown(GgufValue::Str(long.clone())),
        format!("str  \"{}…\" (241 bytes total)", &long[..240])
    );
    let items = (0..6).map(GgufValue::Uint8).collect();
    assert_eq!(
        shown(GgufValue::Array(items)),
        "array(len=6) [0, 1, 2, 3, 4, …]"
    );
}

#[test]
fn metadata_is_listed_by_group_and_key() {
    let mut m = Metadata::new();
    m.insert("general.name".to_string(), GgufValue::Str("n".to_string()));
    m.insert("general.alignment".to_string(), GgufValue::Uint32(32));
    m.insert("tokenizer.ggml.model".to_string(), GgufValue::Str("gpt2".to_string()));
    m.insert("llama.block_count".to_string(), GgufValue::Uint32(1));
    let general = metadata_section("General", &m, KeyGroup::General);
    let at = |lines: &[String], part: &str| lines.iter().position(|l| l.contains(part));
    assert!(at(&general, "general.alignment").unwrap() < at(&general, "general.name").unwrap());
    assert!(at(&general, "llama.block_count").is_none());
    let other = metadata_section("Other", &m, KeyGroup::Other);
    assert!(at(&other, "llama.block_count").is_some());
    assert!(at(&other, "tokenizer").is_none());
    let tokens = metadata_section("Tokenizer", &m, KeyGroup::Tokenizer);
    assert!(at(&tokens, "tokenizer.ggml.model").is_some());
}

#[test]
fn long_texts_are_cut_between_characters() {
    assert_eq!(safe_truncate("aé", 2), "a");
    assert_eq!(safe_truncate("aé", 3), "aé");
    assert_eq!(safe_truncate("abc", 9), "abc");
    assert_eq!(truncate("short", 10), "short");
    assert!(truncate("a rather long text", 8).len() < "a rather long text".len());
}

#[test]
fn a_tensor_takes_one_row() {
    let t = TensorView {
        name: "blk.0.attn_q.weight".to_string(),
        shape: vec![2560, 640],
        ggml_type: GgmlType::BitNetI2S,
        offset: 4096,
        byte_len: 409_600,
        data: &[],
        scale_data: None,
    };
    let row = format_tensor_row(3, &t);
    assert!(row.contains("blk.0.attn_q.weight"), "{row}");
    assert!(row.contains("[2560, 640]"), "{row}");
    assert!(row.contains("4096"), "{row}");
}

#[test]
fn white_space_is_that_of_unicode() {
    for n in 0..=0x10ffff_u32 {
        if let Some(c) = char::from_u32(n) {
            assert_eq!(is_whitespace(c), c.is_whitespace(), "{n:x}");
        }
    }
    assert_eq!(trim(" \u{2003}a b\t\n"), "a b");
    assert_eq!(trim_end(" a \r\n"), " a");
}

#[test]
fn quotients_are_rounded_as_double_precision_is() {
    let mut state = 12_345_u64;
    for _ in 0..2000 {
        state = state
            .wrapping_mul(6_364_136_223_846_793_005)
            .wrapping_add(1_442_695_040_888_963_407);
        let n = state >> (state % 50);
        let d = (state.rotate_left(17) >> (20 + state % 40)) + 1;
        if u128::from(n) >= u128::from(d) << 48 {
            continue;
        }
        let q = n as f64 / d as f64;
        assert_eq!(quotient_text(n, d, 0), format!("{q:.0}"), "{n}/{d}");
        assert_eq!(quotient_text(n, d, 1), format!("{q:.1}"), "{n}/{d}");
        assert_eq!(quotient_text(n, d, 2), format!("{q:.2}"), "{n}/{d}");
    }
}
