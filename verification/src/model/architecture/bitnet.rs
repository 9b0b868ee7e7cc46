//! The BitNet family. Its members differ only in the architecture name, which
//! is also what their metadata keys start with.

use super::{
    family_roles, family_strings, texts, ArchitectureFamily, ForwardVariant, LayerTensorRole,
    ModelArchitecture,
};
use crate::error::WillametteError;
use crate::gguf::metadata::Metadata;
use crate::model::config::ModelConfig;
use vstd::prelude::*;

verus! {

/// Stands for the family.
pub struct BitNetArchitecture;

impl ModelArchitecture for BitNetArchitecture {
    open spec fn family(&self) -> ArchitectureFamily {
        ArchitectureFamily::BitNet
    }

    fn architecture_strings(&self) -> (r: Vec<&'static str>) {
        let mut names: Vec<&'static str> = Vec::new();
        names.push("bitnet-b1.58");
        names.push("bitnet-25");
        names.push("bitnet");
        proof {
            assert(texts(names@) =~= family_strings(ArchitectureFamily::BitNet));
        }
        names
    }

    fn metadata_prefix<'a>(&self, arch_string: &'a str) -> (r: &'a str) {
        arch_string
    }

    fn config_from_meta(&self, arch_string: &str, meta: &Metadata) -> (r: Result<
        ModelConfig,
        WillametteError,
    >) {
        ModelConfig::from_gguf_metadata_with_prefix(arch_string, self.metadata_prefix(arch_string), meta)
    }

    fn layer_tensor_roles(&self) -> (r: Vec<LayerTensorRole>) {
        let mut roles: Vec<LayerTensorRole> = Vec::new();
        roles.push(LayerTensorRole::AttnNorm);
        roles.push(LayerTensorRole::AttnSubNorm);
        roles.push(LayerTensorRole::AttnQ);
        roles.push(LayerTensorRole::AttnK);
        roles.push(LayerTensorRole::AttnV);
        roles.push(LayerTensorRole::AttnOutput);
        roles.push(LayerTensorRole::FfnNorm);
        roles.push(LayerTensorRole::FfnSubNorm);
        roles.push(LayerTensorRole::FfnGate);
        roles.push(LayerTensorRole::FfnUp);
        roles.push(LayerTensorRole::FfnDown);
        proof {
            assert(roles@ =~= family_roles(ArchitectureFamily::BitNet));
        }
        roles
    }

    fn forward_variant(&self) -> (v: ForwardVariant) {
        ForwardVariant::BitNetSubNorm
    }
}

} // verus!
