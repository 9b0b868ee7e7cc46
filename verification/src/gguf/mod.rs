//! The GGUF file format: type tags, tensor layouts, reading and relinking.

pub mod acceptance;
pub mod agree;
pub mod artifact;
pub mod bytes;
pub mod format_laws;
pub mod laws;
pub mod layout;
pub mod linker;
pub mod locality;
pub mod metadata;
pub mod plan_report;
pub mod reader;
pub mod relink;
pub mod repack;
pub mod reread;
pub mod tensor;
pub mod types;
pub mod value;
pub mod value_laws;
