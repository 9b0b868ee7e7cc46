//! The cache of keys and values.

use willamette::model::kv_cache::{KVCache, QuantizedVector};

/// Scales a vector to bytes by its largest magnitude.
fn quantize(values: &[f32]) -> QuantizedVector {
    let absmax = values.iter().fold(0.0_f32, |m, v| m.max(v.abs()));
    if absmax == 0.0 || !absmax.is_finite() {
        return QuantizedVector {
            quants: vec![0; values.len()],
            scale: 0.0_f32.to_bits(),
        };
    }
    let inv = 127.0 / absmax;
    QuantizedVector {
        quants: values
            .iter()
            .map(|v| (v * inv).round().clamp(-127.0, 127.0) as i8)
            .collect(),
        scale: (absmax / 127.0).to_bits(),
    }
}

fn dequantize(elements: &[(i8, u32)]) -> Vec<f32> {
    elements
        .iter()
        .map(|(q, s)| f32::from(*q) * f32::from_bits(*s))
        .collect()
}

fn append(c: &mut KVCache, layer: usize, k: &[f32], v: &[f32]) -> Result<(), String> {
    c.append(layer, &quantize(k), &quantize(v)).map_err(|e| e.message())
}

fn approx_eq_slice(a: &[f32], b: &[f32], tol: f32) {
    assert_eq!(a.len(), b.len());
    for (i, (x, y)) in a.iter().zip(b.iter()).enumerate() {
        let d = (x - y).abs();
        assert!(d <= tol, "idx {}: {} vs {} (|d|={})", i, x, y, d);
    }
}

#[test]
fn new_cache_has_zero_position() {
    let c = KVCache::new(2, 4, 8);
    assert_eq!(c.position(), 0);
    let mut out_k = Vec::new();
    let mut out_v = Vec::new();
    c.read_into(0, &mut out_k, &mut out_v).unwrap();
    assert!(out_k.is_empty());
    assert!(out_v.is_empty());
}

#[test]
fn append_then_dequantise_round_trips_within_absmax_tol() {
    let mut c = KVCache::new(1, 4, 8);
    let k_in = [0.1_f32, -0.2, 0.3, -0.4];
    let v_in = [10.0_f32, -20.0, 30.0, -40.0];
    append(&mut c, 0, &k_in, &v_in).unwrap();
    assert_eq!(c.position(), 1);
    let mut k_out = Vec::new();
    let mut v_out = Vec::new();
    c.read_into(0, &mut k_out, &mut v_out).unwrap();
    approx_eq_slice(&dequantize(&k_out), &k_in, 0.4 / 200.0);
    approx_eq_slice(&dequantize(&v_out), &v_in, 40.0 / 200.0);
}

#[test]
fn zero_vector_round_trips_exactly() {
    let mut c = KVCache::new(1, 4, 8);
    let zero = [0.0_f32; 4];
    append(&mut c, 0, &zero, &zero).unwrap();
    let mut k_out = Vec::new();
    let mut v_out = Vec::new();
    c.read_into(0, &mut k_out, &mut v_out).unwrap();
    assert_eq!(dequantize(&k_out), zero);
    assert_eq!(dequantize(&v_out), zero);
}

#[test]
fn append_to_capacity_then_errors() {
    let mut c = KVCache::new(1, 2, 2);
    append(&mut c, 0, &[1.0, 2.0], &[3.0, 4.0]).unwrap();
    append(&mut c, 0, &[5.0, 6.0], &[7.0, 8.0]).unwrap();
    assert!(append(&mut c, 0, &[9.0, 10.0], &[11.0, 12.0]).is_err());
}

#[test]
fn append_rejects_wrong_length() {
    let mut c = KVCache::new(1, 4, 8);
    assert!(append(&mut c, 0, &[1.0, 2.0], &[3.0, 4.0, 5.0, 6.0]).is_err());
}

#[test]
fn append_rejects_invalid_layer_idx() {
    let mut c = KVCache::new(2, 4, 8);
    assert!(append(&mut c, 5, &[1.0; 4], &[1.0; 4]).is_err());
}

#[test]
fn reset_clears_position_but_keeps_capacity() {
    let mut c = KVCache::new(1, 4, 8);
    append(&mut c, 0, &[1.0; 4], &[1.0; 4]).unwrap();
    append(&mut c, 0, &[1.0; 4], &[1.0; 4]).unwrap();
    assert_eq!(c.position(), 2);
    c.reset();
    assert_eq!(c.position(), 0);
    let mut k_out = Vec::new();
    let mut v_out = Vec::new();
    c.read_into(0, &mut k_out, &mut v_out).unwrap();
    assert!(k_out.is_empty());
}

#[test]
fn resident_bytes_matches_layout() {
    let mut c = KVCache::new(2, 4, 8);
    for _ in 0..3 {
        append(&mut c, 0, &[1.0; 4], &[2.0; 4]).unwrap();
        append(&mut c, 1, &[1.0; 4], &[2.0; 4]).unwrap();
    }
    let expected = 2 * 3 * 4 * 2 + 2 * 3 * 4 * 2;
    assert_eq!(c.resident_bytes(), expected);
}

#[test]
fn cutting_back_restores_the_cache() {
    let mut c = KVCache::new(2, 2, 4);
    append(&mut c, 0, &[1.0, 2.0], &[3.0, 4.0]).unwrap();
    append(&mut c, 1, &[5.0, 6.0], &[7.0, 8.0]).unwrap();
    let mut before = Vec::new();
    let mut before_v = Vec::new();
    c.read_into(0, &mut before, &mut before_v).unwrap();
    let mark = c.checkpoint();
    append(&mut c, 0, &[9.0, 9.0], &[9.0, 9.0]).unwrap();
    c.rollback(&mark);
    assert_eq!(c.position(), 1);
    let mut after = Vec::new();
    let mut after_v = Vec::new();
    c.read_into(0, &mut after, &mut after_v).unwrap();
    assert_eq!(before, after);
    assert_eq!(before_v, after_v);
}
