//! The Qwen2 family: Llama blocks with biases on queries, keys and values.

use super::{
    family_roles, family_strings, texts, ArchitectureFamily, ForwardVariant, LayerTensorRole,
    ModelArchitecture,
};
use crate::error::WillametteError;
use crate::gguf::metadata::Metadata;
use crate::model::config::ModelConfig;
use vstd::prelude::*;

verus! {

/// Stands for the family.
pub struct Qwen2Architecture;

impl ModelArchitecture for Qwen2Architecture {
    open spec fn family(&self) -> ArchitectureFamily {
        ArchitectureFamily::Qwen2
    }

    fn architecture_strings(&self) -> (r: Vec<&'static str>) {
        let mut names: Vec<&'static str> = Vec::new();
        names.push("qwen2");
        proof {
            assert(texts(names@) =~= family_strings(ArchitectureFamily::Qwen2));
        }
        names
    }

    fn metadata_prefix<'a>(&self, _arch_string: &'a str) -> (r: &'a str) {
        "qwen2"
    }

    fn config_from_meta(&self, arch_string: &str, meta: &Metadata) -> (r: Result<
        ModelConfig,
        WillametteError,
    >) {
        ModelConfig::from_llama_metadata_with_prefix(arch_string, self.metadata_prefix(arch_string), meta)
    }

    fn layer_tensor_roles(&self) -> (r: Vec<LayerTensorRole>) {
        let mut roles: Vec<LayerTensorRole> = Vec::new();
        roles.push(LayerTensorRole::AttnNorm);
        roles.push(LayerTensorRole::AttnQ);
        roles.push(LayerTensorRole::AttnQBias);
        roles.push(LayerTensorRole::AttnK);
        roles.push(LayerTensorRole::AttnKBias);
        roles.push(LayerTensorRole::AttnV);
        roles.push(LayerTensorRole::AttnVBias);
        roles.push(LayerTensorRole::AttnOutput);
        roles.push(LayerTensorRole::FfnNorm);
        roles.push(LayerTensorRole::FfnGate);
        roles.push(LayerTensorRole::FfnUp);
        roles.push(LayerTensorRole::FfnDown);
        proof {
            assert(roles@ =~= family_roles(ArchitectureFamily::Qwen2));
        }
        roles
    }

    fn forward_variant(&self) -> (v: ForwardVariant) {
        ForwardVariant::Qwen2
    }
}

} // verus!
