//! The classic Llama family.

use super::{
    family_roles, family_strings, texts, ArchitectureFamily, ForwardVariant, LayerTensorRole,
    ModelArchitecture,
};
use crate::error::WillametteError;
use crate::gguf::metadata::Metadata;
use crate::model::config::ModelConfig;
use vstd::prelude::*;

verus! {

/// Stands for the family.
pub struct LlamaArchitecture;

impl ModelArchitecture for LlamaArchitecture {
    open spec fn family(&self) -> ArchitectureFamily {
        ArchitectureFamily::Llama
    }

    fn architecture_strings(&self) -> (r: Vec<&'static str>) {
        let mut names: Vec<&'static str> = Vec::new();
        names.push("llama");
        proof {
            assert(texts(names@) =~= family_strings(ArchitectureFamily::Llama));
        }
        names
    }

    fn metadata_prefix<'a>(&self, _arch_string: &'a str) -> (r: &'a str) {
        "llama"
    }

    fn config_from_meta(&self, arch_string: &str, meta: &Metadata) -> (r: Result<
        ModelConfig,
        WillametteError,
    >) {
        ModelConfig::from_llama_metadata_with_prefix(arch_string, self.metadata_prefix(arch_string), meta)
    }

    fn layer_tensor_roles(&self) -> (r: Vec<LayerTensorRole>) {
        let mut roles: Vec<LayerTensorRole> = Vec::new();
        roles.push(LayerTensorRole::AttnNorm);
        roles.push(LayerTensorRole::AttnQ);
        roles.push(LayerTensorRole::AttnK);
        roles.push(LayerTensorRole::AttnV);
        roles.push(LayerTensorRole::AttnOutput);
        roles.push(LayerTensorRole::FfnNorm);
        roles.push(LayerTensorRole::FfnGate);
        roles.push(LayerTensorRole::FfnUp);
        roles.push(LayerTensorRole::FfnDown);
        proof {
            assert(roles@ =~= family_roles(ArchitectureFamily::Llama));
        }
        roles
    }

    fn forward_variant(&self) -> (v: ForwardVariant) {
        ForwardVariant::VanillaLlama
    }
}

} // verus!
