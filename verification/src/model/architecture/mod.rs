//! Families of models that share one forward graph, and how a file names them.

use crate::error::WillametteError;
use crate::gguf::metadata::Metadata;
use crate::model::config::{bitnet_fault, is_bitnet_config, is_llama_config, llama_fault, ModelConfig};
use vstd::prelude::*;

pub use bitnet::BitNetArchitecture;
pub use llama::LlamaArchitecture;
pub use qwen2::Qwen2Architecture;
pub use registry::resolve;

pub mod bitnet;
pub mod llama;
pub mod qwen2;
pub mod registry;

verus! {

/// The tensors of one layer.
#[derive(Clone, Copy, Debug, Eq, Hash, PartialEq, Structural)]
pub enum LayerTensorRole {
    AttnNorm,
    AttnSubNorm,
    AttnQ,
    AttnQBias,
    AttnK,
    AttnKBias,
    AttnV,
    AttnVBias,
    AttnOutput,
    FfnNorm,
    FfnSubNorm,
    FfnGate,
    FfnUp,
    FfnDown,
}

/// The part of a tensor's name between the layer and the kind.
pub open spec fn role_suffix(role: LayerTensorRole) -> Seq<char> {
    match role {
        LayerTensorRole::AttnNorm => "attn_norm"@,
        LayerTensorRole::AttnSubNorm => "attn_sub_norm"@,
        LayerTensorRole::AttnQ => "attn_q"@,
        LayerTensorRole::AttnQBias => "attn_q"@,
        LayerTensorRole::AttnK => "attn_k"@,
        LayerTensorRole::AttnKBias => "attn_k"@,
        LayerTensorRole::AttnV => "attn_v"@,
        LayerTensorRole::AttnVBias => "attn_v"@,
        LayerTensorRole::AttnOutput => "attn_output"@,
        LayerTensorRole::FfnNorm => "ffn_norm"@,
        LayerTensorRole::FfnSubNorm => "ffn_sub_norm"@,
        LayerTensorRole::FfnGate => "ffn_gate"@,
        LayerTensorRole::FfnUp => "ffn_up"@,
        LayerTensorRole::FfnDown => "ffn_down"@,
    }
}

/// A role is that of a bias.
pub open spec fn is_bias(role: LayerTensorRole) -> bool {
    role == LayerTensorRole::AttnQBias || role == LayerTensorRole::AttnKBias || role
        == LayerTensorRole::AttnVBias
}

/// The last part of a tensor's name.
pub open spec fn role_kind(role: LayerTensorRole) -> Seq<char> {
    if is_bias(role) {
        "bias"@
    } else {
        "weight"@
    }
}

/// The name of a role in messages.
pub open spec fn role_text(role: LayerTensorRole) -> Seq<char> {
    match role {
        LayerTensorRole::AttnNorm => "AttnNorm"@,
        LayerTensorRole::AttnSubNorm => "AttnSubNorm"@,
        LayerTensorRole::AttnQ => "AttnQ"@,
        LayerTensorRole::AttnQBias => "AttnQBias"@,
        LayerTensorRole::AttnK => "AttnK"@,
        LayerTensorRole::AttnKBias => "AttnKBias"@,
        LayerTensorRole::AttnV => "AttnV"@,
        LayerTensorRole::AttnVBias => "AttnVBias"@,
        LayerTensorRole::AttnOutput => "AttnOutput"@,
        LayerTensorRole::FfnNorm => "FfnNorm"@,
        LayerTensorRole::FfnSubNorm => "FfnSubNorm"@,
        LayerTensorRole::FfnGate => "FfnGate"@,
        LayerTensorRole::FfnUp => "FfnUp"@,
        LayerTensorRole::FfnDown => "FfnDown"@,
    }
}

impl LayerTensorRole {
    /// The part of a tensor's name between the layer and the kind.
    pub fn suffix(self) -> (s: &'static str)
        ensures
            s@ == role_suffix(self),
    {
        match self {
            LayerTensorRole::AttnNorm => "attn_norm",
            LayerTensorRole::AttnSubNorm => "attn_sub_norm",
            LayerTensorRole::AttnQ => "attn_q",
            LayerTensorRole::AttnQBias => "attn_q",
            LayerTensorRole::AttnK => "attn_k",
            LayerTensorRole::AttnKBias => "attn_k",
            LayerTensorRole::AttnV => "attn_v",
            LayerTensorRole::AttnVBias => "attn_v",
            LayerTensorRole::AttnOutput => "attn_output",
            LayerTensorRole::FfnNorm => "ffn_norm",
            LayerTensorRole::FfnSubNorm => "ffn_sub_norm",
            LayerTensorRole::FfnGate => "ffn_gate",
            LayerTensorRole::FfnUp => "ffn_up",
            LayerTensorRole::FfnDown => "ffn_down",
        }
    }

    /// The last part of a tensor's name.
    pub fn tensor_kind(self) -> (s: &'static str)
        ensures
            s@ == role_kind(self),
    {
        match self {
            LayerTensorRole::AttnQBias => "bias",
            LayerTensorRole::AttnKBias => "bias",
            LayerTensorRole::AttnVBias => "bias",
            _ => "weight",
        }
    }

    /// The name of a role in messages.
    pub fn text(self) -> (s: &'static str)
        ensures
            s@ == role_text(self),
    {
        match self {
            LayerTensorRole::AttnNorm => "AttnNorm",
            LayerTensorRole::AttnSubNorm => "AttnSubNorm",
            LayerTensorRole::AttnQ => "AttnQ",
            LayerTensorRole::AttnQBias => "AttnQBias",
            LayerTensorRole::AttnK => "AttnK",
            LayerTensorRole::AttnKBias => "AttnKBias",
            LayerTensorRole::AttnV => "AttnV",
            LayerTensorRole::AttnVBias => "AttnVBias",
            LayerTensorRole::AttnOutput => "AttnOutput",
            LayerTensorRole::FfnNorm => "FfnNorm",
            LayerTensorRole::FfnSubNorm => "FfnSubNorm",
            LayerTensorRole::FfnGate => "FfnGate",
            LayerTensorRole::FfnUp => "FfnUp",
            LayerTensorRole::FfnDown => "FfnDown",
        }
    }
}

/// The shape of a transformer block.
#[derive(Clone, Copy, Debug, Eq, PartialEq, Structural)]
pub enum ForwardVariant {
    /// Norms inside attention and feed-forward, squared ReLU.
    BitNetSubNorm,
    /// Norms in front of attention and feed-forward alone.
    VanillaLlama,
    /// As the last, with biases on queries, keys and values.
    Qwen2,
}

/// A family of models.
#[derive(Clone, Copy, Debug, Eq, PartialEq, Structural)]
pub enum ArchitectureFamily {
    BitNet,
    Llama,
    Qwen2,
}

/// The architecture names that a family claims.
pub open spec fn family_strings(family: ArchitectureFamily) -> Seq<Seq<char>> {
    match family {
        ArchitectureFamily::BitNet => seq!["bitnet-b1.58"@, "bitnet-25"@, "bitnet"@],
        ArchitectureFamily::Llama => seq!["llama"@],
        ArchitectureFamily::Qwen2 => seq!["qwen2"@],
    }
}

/// The family that claims an architecture name.
pub open spec fn family_of(name: Seq<char>) -> Option<ArchitectureFamily> {
    if name == "bitnet-b1.58"@ || name == "bitnet-25"@ || name == "bitnet"@ {
        Some(ArchitectureFamily::BitNet)
    } else if name == "llama"@ {
        Some(ArchitectureFamily::Llama)
    } else if name == "qwen2"@ {
        Some(ArchitectureFamily::Qwen2)
    } else {
        None
    }
}

/// What the metadata keys of a model start with.
pub open spec fn family_prefix(family: ArchitectureFamily, name: Seq<char>) -> Seq<char> {
    match family {
        ArchitectureFamily::BitNet => name,
        ArchitectureFamily::Llama => "llama"@,
        ArchitectureFamily::Qwen2 => "qwen2"@,
    }
}

/// The tensors that every layer of a family has.
pub open spec fn family_roles(family: ArchitectureFamily) -> Seq<LayerTensorRole> {
    match family {
        ArchitectureFamily::BitNet => seq![
            LayerTensorRole::AttnNorm,
            LayerTensorRole::AttnSubNorm,
            LayerTensorRole::AttnQ,
            LayerTensorRole::AttnK,
            LayerTensorRole::AttnV,
            LayerTensorRole::AttnOutput,
            LayerTensorRole::FfnNorm,
            LayerTensorRole::FfnSubNorm,
            LayerTensorRole::FfnGate,
            LayerTensorRole::FfnUp,
            LayerTensorRole::FfnDown,
        ],
        ArchitectureFamily::Llama => seq![
            LayerTensorRole::AttnNorm,
            LayerTensorRole::AttnQ,
            LayerTensorRole::AttnK,
            LayerTensorRole::AttnV,
            LayerTensorRole::AttnOutput,
            LayerTensorRole::FfnNorm,
            LayerTensorRole::FfnGate,
            LayerTensorRole::FfnUp,
            LayerTensorRole::FfnDown,
        ],
        ArchitectureFamily::Qwen2 => seq![
            LayerTensorRole::AttnNorm,
            LayerTensorRole::AttnQ,
            LayerTensorRole::AttnQBias,
            LayerTensorRole::AttnK,
            LayerTensorRole::AttnKBias,
            LayerTensorRole::AttnV,
            LayerTensorRole::AttnVBias,
            LayerTensorRole::AttnOutput,
            LayerTensorRole::FfnNorm,
            LayerTensorRole::FfnGate,
            LayerTensorRole::FfnUp,
            LayerTensorRole::FfnDown,
        ],
    }
}

/// The block shape of a family.
pub open spec fn family_variant(family: ArchitectureFamily) -> ForwardVariant {
    match family {
        ArchitectureFamily::BitNet => ForwardVariant::BitNetSubNorm,
        ArchitectureFamily::Llama => ForwardVariant::VanillaLlama,
        ArchitectureFamily::Qwen2 => ForwardVariant::Qwen2,
    }
}

/// The texts of a list of names.
pub open spec fn texts(names: Seq<&'static str>) -> Seq<Seq<char>> {
    names.map_values(|s: &'static str| s@)
}

/// What a family of models provides.
pub trait ModelArchitecture {
    /// The family this is.
    spec fn family(&self) -> ArchitectureFamily;

    /// Every architecture name that the family claims.
    fn architecture_strings(&self) -> (r: Vec<&'static str>)
        ensures
            texts(r@) == family_strings(self.family()),
    ;

    /// What the metadata keys start with in a file with this architecture name.
    fn metadata_prefix<'a>(&self, arch_string: &'a str) -> (r: &'a str)
        ensures
            r@ == family_prefix(self.family(), arch_string@),
    ;

    /// Reads the configuration of a model.
    fn config_from_meta(&self, arch_string: &str, meta: &Metadata) -> (r: Result<
        ModelConfig,
        WillametteError,
    >)
        requires
            meta.wf(),
        ensures
            match self.family() {
                ArchitectureFamily::BitNet => match r {
                    Ok(c) => bitnet_fault(meta@, arch_string@) is None && is_bitnet_config(
                        c,
                        meta@,
                        arch_string@,
                        arch_string@,
                    ),
                    Err(e) => bitnet_fault(meta@, arch_string@) == Some(e@),
                },
                family => match r {
                    Ok(c) => llama_fault(meta@, family_prefix(family, arch_string@)) is None
                        && is_llama_config(
                        c,
                        meta@,
                        arch_string@,
                        family_prefix(family, arch_string@),
                    ),
                    Err(e) => llama_fault(meta@, family_prefix(family, arch_string@)) == Some(
                        e@,
                    ),
                },
            },
    ;

    /// The tensors that every layer has.
    fn layer_tensor_roles(&self) -> (r: Vec<LayerTensorRole>)
        ensures
            r@ == family_roles(self.family()),
    ;

    /// The shape of the transformer block.
    fn forward_variant(&self) -> (v: ForwardVariant)
        ensures
            v == family_variant(self.family()),
    ;
}

impl ModelArchitecture for ArchitectureFamily {
    open spec fn family(&self) -> ArchitectureFamily {
        *self
    }

    fn architecture_strings(&self) -> (r: Vec<&'static str>) {
        match self {
            ArchitectureFamily::BitNet => BitNetArchitecture.architecture_strings(),
            ArchitectureFamily::Llama => LlamaArchitecture.architecture_strings(),
            ArchitectureFamily::Qwen2 => Qwen2Architecture.architecture_strings(),
        }
    }

    fn metadata_prefix<'a>(&self, arch_string: &'a str) -> (r: &'a str) {
        match self {
            ArchitectureFamily::BitNet => BitNetArchitecture.metadata_prefix(arch_string),
            ArchitectureFamily::Llama => LlamaArchitecture.metadata_prefix(arch_string),
            ArchitectureFamily::Qwen2 => Qwen2Architecture.metadata_prefix(arch_string),
        }
    }

    fn config_from_meta(&self, arch_string: &str, meta: &Metadata) -> (r: Result<
        ModelConfig,
        WillametteError,
    >) {
        match self {
            ArchitectureFamily::BitNet => BitNetArchitecture.config_from_meta(arch_string, meta),
            ArchitectureFamily::Llama => LlamaArchitecture.config_from_meta(arch_string, meta),
            ArchitectureFamily::Qwen2 => Qwen2Architecture.config_from_meta(arch_string, meta),
        }
    }

    fn layer_tensor_roles(&self) -> (r: Vec<LayerTensorRole>) {
        match self {
            ArchitectureFamily::BitNet => BitNetArchitecture.layer_tensor_roles(),
            ArchitectureFamily::Llama => LlamaArchitecture.layer_tensor_roles(),
            ArchitectureFamily::Qwen2 => Qwen2Architecture.layer_tensor_roles(),
        }
    }

    fn forward_variant(&self) -> (v: ForwardVariant) {
        match self {
            ArchitectureFamily::BitNet => ForwardVariant::BitNetSubNorm,
            ArchitectureFamily::Llama => ForwardVariant::VanillaLlama,
            ArchitectureFamily::Qwen2 => ForwardVariant::Qwen2,
        }
    }
}

/// A name is claimed by the family that it resolves to and by no other.
pub proof fn one_family_claims_a_name(name: Seq<char>, family: ArchitectureFamily)
    ensures
        family_strings(family).contains(name) <==> family_of(name) == Some(family),
{
    reveal_strlit("bitnet-b1.58");
    reveal_strlit("bitnet-25");
    reveal_strlit("bitnet");
    reveal_strlit("llama");
    reveal_strlit("qwen2");
    let strings = family_strings(family);
    match family {
        ArchitectureFamily::BitNet => {
            assert(strings[0] == "bitnet-b1.58"@ && strings[1] == "bitnet-25"@ && strings[2]
                == "bitnet"@);
        },
        ArchitectureFamily::Llama => {
            assert(strings[0] == "llama"@);
            assert("llama"@.len() == 5 && "bitnet"@.len() == 6 && "bitnet-25"@.len() == 9
                && "bitnet-b1.58"@.len() == 12);
        },
        ArchitectureFamily::Qwen2 => {
            assert(strings[0] == "qwen2"@);
            assert("qwen2"@[0] == 'q' && "llama"@[0] == 'l');
            assert("qwen2"@.len() == 5 && "bitnet"@.len() == 6 && "bitnet-25"@.len() == 9
                && "bitnet-b1.58"@.len() == 12);
        },
    }
}

} // verus!
