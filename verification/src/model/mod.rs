//! Models: their configuration, their tensors, and the integer side of the
//! kernels that run them.

pub mod acceptance;
pub mod architecture;
pub mod attention;
pub mod bitlinear;
pub mod bitlinear_lut;
pub mod bitlinear_neon;
pub mod bitlinear_sparse;
pub mod bitlinear_sse2;
pub mod block;
pub mod cached_forward;
pub mod config;
pub mod config_laws;
pub mod dispatch;
pub mod ffn;
pub mod forward;
pub mod generate;
pub mod graph;
pub mod graph_laws;
pub mod kv_cache;
pub mod lengths;
pub mod linear;
pub mod lm_head;
pub mod multi_forward;
pub mod packing;
pub mod pass;
pub mod primitives;
pub mod q4_0;
pub mod q4_k;
pub mod schedule;
pub mod schedule_laws;
pub mod width_laws;

pub use config::{BitNetConfig, ModelConfig};
