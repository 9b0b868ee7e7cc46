//! The panel beside the conversation.

use willamette::chat::dashboard::{
    format_compact_thousands, human_bytes, truncate, DashboardState,
};
use willamette::chat::span::{StyledLine, Tint};
use willamette::chat::sysmon::{Gauge, SysSnapshot};

/// A bar for a share of a hundred.
fn gauge(value: f64, cells: usize) -> Gauge {
    let share = (value / 100.0).clamp(0.0, 1.0);
    Gauge {
        filled: (share * cells as f64).round() as usize,
        color: if share < 0.6 {
            Tint::Green
        } else if share < 0.85 {
            Tint::Yellow
        } else {
            Tint::Red
        },
        text: format!("{:>3.0}%", value),
    }
}

fn sample_state() -> DashboardState {
    DashboardState {
        architecture: "bitnet-b1.58".into(),
        n_layers: 30,
        n_embd: 2560,
        vocab_size: 128256,
        model_file_bytes: 1_100_000_000,
        quant_label: "I2_S (1.58b)".into(),
        active_kernel: "aarch64 NEON".into(),
        kernel_features: vec![("dotprod".into(), true), ("SVE".into(), false)],
        temperature: format!("{:.2}", 0.7),
        top_k: 40,
        top_p: format!("{:.2}", 0.9),
        repetition_penalty: format!("{:.2}", 1.1),
        seed: 0xabad_1dea,
        system_prompt: None,
        context: gauge(245.0 / 2048.0 * 100.0, 10),
        current_layer: Some(17),
        turn_tokens_emitted: 23,
        turn_tokens_cap: 256,
        turn_elapsed: format!("{:.1}", 2.9),
        turn_tok_per_sec: format!("{:.2}", 7.81),
        rate_known: true,
        turn_eta: format!("{:.0}", (256.0 - 23.0) / 7.81),
        generating: true,
        kv_cache_bytes: 23 * 1024 * 1024,
    }
}

fn loads(values: &[f64]) -> SysSnapshot {
    SysSnapshot {
        cpu_brand: "Apple M4".into(),
        arch: "aarch64".into(),
        logical_cores: values.len(),
        physical_cores: 10,
        per_core: values.iter().take(12).map(|v| gauge(*v, 8)).collect(),
        core_count: values.len(),
        busiest_rest: format!(
            "{:.0}",
            values.iter().skip(12).fold(0.0_f64, |a, b| a.max(*b))
        ),
        overall: gauge(41.0, 10),
        process: gauge(18.0, 10),
        process_rss_bytes: 1_180_000_000,
        total_mem_bytes: 16_000_000_000,
        used_mem_bytes: 3_400_000_000,
    }
}

fn sample_snap() -> SysSnapshot {
    loads(&[78.0, 72.0, 66.0, 54.0, 12.0, 8.0, 5.0, 3.0, 2.0, 1.0])
}

fn joined(lines: &[StyledLine]) -> String {
    lines
        .iter()
        .flat_map(|l| l.spans.iter().map(|s| s.content.as_str()))
        .collect::<Vec<_>>()
        .join("")
}

#[test]
fn render_includes_all_sections() {
    let lines = sample_state().render_lines(&sample_snap(), 40);
    let joined = joined(&lines);
    for header in &[
        "HARDWARE",
        "CPU",
        "MEMORY",
        "INFERENCE",
        "SAMPLING",
        "MODEL",
    ] {
        assert!(
            joined.contains(header),
            "expected section '{}' in rendered output; got:\n{}",
            header,
            joined
        );
    }
}

#[test]
fn idle_state_says_idle() {
    let mut st = sample_state();
    st.generating = false;
    st.current_layer = None;
    let lines = st.render_lines(&sample_snap(), 40);
    let joined = joined(&lines);
    assert!(joined.contains("(idle)"));
    assert!(
        !joined.contains("  layer  "),
        "live 'layer' row should be hidden when idle"
    );
    assert!(
        !joined.contains("  tok/s  "),
        "live 'tok/s' row should be hidden when idle"
    );
    assert!(
        !joined.contains("  elapsed"),
        "live 'elapsed' row should be hidden when idle"
    );
}

#[test]
fn generating_state_shows_eta_when_tok_per_sec_known() {
    let lines = sample_state().render_lines(&sample_snap(), 40);
    let joined = joined(&lines);
    assert!(joined.contains("eta"));
    assert!(joined.contains("~30 s") || joined.contains("~29 s"));
}

#[test]
fn human_bytes_buckets() {
    assert_eq!(human_bytes(0), "0 B");
    assert_eq!(human_bytes(500), "500 B");
    assert_eq!(human_bytes(2048), "2.0 KB");
    assert_eq!(human_bytes(5 * 1024 * 1024), "5.0 MB");
    assert_eq!(human_bytes(1_100_000_000), "1.02 GB");
}

#[test]
fn truncate_appends_ellipsis() {
    assert_eq!(truncate("hello", 10), "hello");
    assert_eq!(truncate("hello world", 5), "hell…");
}

#[test]
fn collapses_per_core_beyond_twelve() {
    let values: Vec<f64> = (0..32).map(|i| (100 - i) as f64).collect();
    let snap = loads(&values);
    let lines = sample_state().render_lines(&snap, 40);
    let joined = joined(&lines);
    assert!(
        joined.contains("c12-"),
        "expected per-core collapse line for cores ≥ 13; got:\n{}",
        joined
    );
    assert!(joined.contains("  c12-31  max 88%"), "{joined}");
}

#[test]
fn placeholder_has_safe_defaults() {
    let p = SysSnapshot::placeholder("x86_64");
    assert_eq!(p.logical_cores, 0);
    assert!(p.per_core.is_empty());
    assert!(!p.arch.is_empty());
}

#[test]
fn numbers_are_rounded_as_floating_point_rounds_them() {
    for n in [1000_u64, 1049, 1050, 1250, 1450, 128_256, 999_949, 999_950] {
        assert_eq!(
            format_compact_thousands(n),
            format!("{:.1}k", n as f64 / 1_000.0)
        );
    }
    for n in [1_000_000_u64, 1_050_000, 2_349_999, u64::MAX] {
        assert_eq!(
            format_compact_thousands(n),
            format!("{:.1}M", n as f64 / 1_000_000.0)
        );
    }
    assert_eq!(format_compact_thousands(999), "999");
    let mut n = 0x4000_0000_u64;
    while n < u64::MAX / 3 {
        assert_eq!(
            human_bytes(n),
            format!("{:.2} GB", n as f64 / 1_073_741_824.0)
        );
        n = n * 3 + 1;
    }
}

#[test]
fn no_room_shows_nothing() {
    assert_eq!(truncate("hello", 0), "");
    assert_eq!(truncate("é", 1), "é");
    assert_eq!(truncate("éa", 1), "…");
}

#[test]
fn rows_are_laid_out_exactly() {
    let lines = sample_state().render_lines(&sample_snap(), 40);
    let text = |i: usize| -> String {
        lines[i].spans.iter().map(|s| s.content.as_str()).collect()
    };
    assert_eq!(text(0), "── HARDWARE ──");
    assert_eq!(text(1), "  cpu    Apple M4");
    assert_eq!(text(2), "  arch   aarch64 · 10 cores (10 phys)");
    assert_eq!(text(3), "  kernel aarch64 NEON");
    assert_eq!(text(4), "  ● dotprod");
    assert_eq!(text(5), "  ○ SVE");
    assert_eq!(text(6), "");
    assert_eq!(text(8), "  overall▓▓▓▓░░░░░░  41%");
    assert_eq!(text(10), "  c0     ▓▓▓▓▓▓░░  78%");
}
