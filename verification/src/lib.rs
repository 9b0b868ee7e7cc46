//! GGUF model files, quantised tensor layouts, and the state machines of a
//! CPU chat runtime, as a library with machine-checked contracts.

pub mod chat;
pub mod commands;
pub mod cut;
pub mod error;
pub mod gguf;
pub mod listing_laws;
pub mod model;
pub mod number;
pub mod quotient;
pub mod quotient_laws;
pub mod report;
pub mod report_laws;
pub mod text;
pub mod text_laws;
