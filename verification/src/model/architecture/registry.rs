//! Which family an architecture name belongs to.

use super::{family_of, ArchitectureFamily};
use crate::text::same_text;
use vstd::prelude::*;

verus! {

/// The family that claims an architecture name.
pub fn resolve(arch_string: &str) -> (r: Option<ArchitectureFamily>)
    ensures
        r == family_of(arch_string@),
{
    if same_text(arch_string, "bitnet-b1.58") || same_text(arch_string, "bitnet-25") || same_text(
        arch_string,
        "bitnet",
    ) {
        Some(ArchitectureFamily::BitNet)
    } else if same_text(arch_string, "llama") {
        Some(ArchitectureFamily::Llama)
    } else if same_text(arch_string, "qwen2") {
        Some(ArchitectureFamily::Qwen2)
    } else {
        None
    }
}

} // verus!
