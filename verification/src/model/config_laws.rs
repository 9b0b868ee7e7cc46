//! What a configuration takes from which metadata key, and which numbers fit together.

use crate::error::Fault;
use crate::gguf::metadata::{value_as_f32, value_as_u64};
use crate::gguf::tensor::finite_bits;
use crate::gguf::value::GgufValue;
use crate::model::architecture::{family_of, ArchitectureFamily};
use crate::model::config::{
    asks_for_scaling, bitnet_numbers_fault, config_fault, found_f32, found_str, is_config, key,
    llama_base, llama_heads_fault, llama_kv_heads, llama_numbers_fault, u32_of, vocabulary_len,
    ModelConfig, Table,
};
use crate::model::graph_laws::families_claim_their_names;
use crate::number::{finite_patterns_are_finite_numbers, single};
use crate::text::occurs_at;
use vstd::prelude::*;

verus! {

/// The value under a key is a count.
pub open spec fn holds_count(m: Table, k: Seq<char>, n: u32) -> bool {
    m.contains_key(k) && value_as_u64(m[k]) == Some(n as u64)
}

/// The value under a key is a single-precision number.
pub open spec fn holds_bits(m: Table, k: Seq<char>, bits: u32) -> bool {
    m.contains_key(k) && value_as_f32(m[k]) == Some(bits)
}

/// Keys are written with a full stop between what names the model and what names the number.
proof fn lemma_keys(name: Seq<char>)
    ensures
        key(name, "block_count"@) == name + ".block_count"@,
        key(name, "embedding_length"@) == name + ".embedding_length"@,
        key(name, "feed_forward_length"@) == name + ".feed_forward_length"@,
        key(name, "context_length"@) == name + ".context_length"@,
        key(name, "attention.head_count"@) == name + ".attention.head_count"@,
        key(name, "attention.head_count_kv"@) == name + ".attention.head_count_kv"@,
        key(name, "attention.layer_norm_rms_epsilon"@) == name
            + ".attention.layer_norm_rms_epsilon"@,
        key(name, "rope.dimension_count"@) == name + ".rope.dimension_count"@,
        key(name, "rope.freq_base"@) == name + ".rope.freq_base"@,
        key(name, "vocab_size"@) == name + ".vocab_size"@,
{
    reveal_strlit(".");
    reveal_strlit("block_count");
    reveal_strlit(".block_count");
    reveal_strlit("embedding_length");
    reveal_strlit(".embedding_length");
    reveal_strlit("feed_forward_length");
    reveal_strlit(".feed_forward_length");
    reveal_strlit("context_length");
    reveal_strlit(".context_length");
    reveal_strlit("attention.head_count");
    reveal_strlit(".attention.head_count");
    reveal_strlit("attention.head_count_kv");
    reveal_strlit(".attention.head_count_kv");
    reveal_strlit("attention.layer_norm_rms_epsilon");
    reveal_strlit(".attention.layer_norm_rms_epsilon");
    reveal_strlit("rope.dimension_count");
    reveal_strlit(".rope.dimension_count");
    reveal_strlit("rope.freq_base");
    reveal_strlit(".rope.freq_base");
    reveal_strlit("vocab_size");
    reveal_strlit(".vocab_size");
    assert("."@ + "block_count"@ =~= ".block_count"@);
    assert("."@ + "embedding_length"@ =~= ".embedding_length"@);
    assert("."@ + "feed_forward_length"@ =~= ".feed_forward_length"@);
    assert("."@ + "context_length"@ =~= ".context_length"@);
    assert("."@ + "attention.head_count"@ =~= ".attention.head_count"@);
    assert("."@ + "attention.head_count_kv"@ =~= ".attention.head_count_kv"@);
    assert("."@ + "attention.layer_norm_rms_epsilon"@ =~= ".attention.layer_norm_rms_epsilon"@);
    assert("."@ + "rope.dimension_count"@ =~= ".rope.dimension_count"@);
    assert("."@ + "rope.freq_base"@ =~= ".rope.freq_base"@);
    assert("."@ + "vocab_size"@ =~= ".vocab_size"@);
    assert(key(name, "block_count"@) =~= name + ("."@ + "block_count"@));
    assert(key(name, "embedding_length"@) =~= name + ("."@ + "embedding_length"@));
    assert(key(name, "feed_forward_length"@) =~= name + ("."@ + "feed_forward_length"@));
    assert(key(name, "context_length"@) =~= name + ("."@ + "context_length"@));
    assert(key(name, "attention.head_count"@) =~= name + ("."@ + "attention.head_count"@));
    assert(key(name, "attention.head_count_kv"@) =~= name + ("."@ + "attention.head_count_kv"@));
    assert(key(name, "attention.layer_norm_rms_epsilon"@) =~= name + ("."@
        + "attention.layer_norm_rms_epsilon"@));
    assert(key(name, "rope.dimension_count"@) =~= name + ("."@ + "rope.dimension_count"@));
    assert(key(name, "rope.freq_base"@) =~= name + ("."@ + "rope.freq_base"@));
    assert(key(name, "vocab_size"@) =~= name + ("."@ + "vocab_size"@));
}

/// A configuration holds the numbers that stand under the keys of the model's architecture.
pub proof fn numbers_come_from_their_keys(c: ModelConfig, m: Table)
    requires
        config_fault(m) is None,
        is_config(c, m),
    ensures
        ({
            let name = c.architecture@;
            &&& m.contains_key("general.architecture"@)
            &&& m["general.architecture"@] matches GgufValue::Str(s) && s@ == name
            &&& holds_count(m, name + ".block_count"@, c.block_count)
            &&& holds_count(m, name + ".embedding_length"@, c.embedding_length)
            &&& holds_count(m, name + ".feed_forward_length"@, c.feed_forward_length)
            &&& holds_count(m, name + ".context_length"@, c.context_length)
            &&& holds_count(m, name + ".attention.head_count"@, c.head_count)
            &&& holds_bits(
                m,
                name + ".attention.layer_norm_rms_epsilon"@,
                c.layer_norm_rms_epsilon,
            )
            &&& m.contains_key(name + ".attention.head_count_kv"@) ==> holds_count(
                m,
                name + ".attention.head_count_kv"@,
                c.head_count_kv,
            )
            &&& m.contains_key(name + ".rope.dimension_count"@) ==> holds_count(
                m,
                name + ".rope.dimension_count"@,
                c.rope_dimension_count,
            )
            &&& m.contains_key(name + ".rope.freq_base"@) ==> holds_bits(
                m,
                name + ".rope.freq_base"@,
                c.rope_freq_base,
            )
        }),
{
    let name = found_str(m, "general.architecture"@)->0;
    let family = family_of(name)->0;
    families_claim_their_names(name, family);
    lemma_keys(name);
}

/// A BitNet model states everything. The others may leave out how many key and value heads
/// they have, which are then as many as the query heads, how much of a head is rotated,
/// which is then all of it, and the base of the rotation; their vocabulary is a list.
pub proof fn numbers_left_out_have_defaults(c: ModelConfig, m: Table)
    requires
        config_fault(m) is None,
        is_config(c, m),
    ensures
        ({
            let name = c.architecture@;
            &&& family_of(name) == Some(ArchitectureFamily::BitNet) ==> {
                &&& m.contains_key(name + ".attention.head_count_kv"@)
                &&& m.contains_key(name + ".rope.dimension_count"@)
                &&& m.contains_key(name + ".rope.freq_base"@)
                &&& holds_count(m, name + ".vocab_size"@, c.vocab_size)
            }
            &&& family_of(name) != Some(ArchitectureFamily::BitNet) ==> {
                &&& m["tokenizer.ggml.tokens"@] matches GgufValue::Array(items) && c.vocab_size
                    == items@.len()
            }
            &&& !m.contains_key(name + ".attention.head_count_kv"@) ==> c.head_count_kv
                == c.head_count
            &&& !m.contains_key(name + ".rope.dimension_count"@) ==> c.rope_dimension_count
                == c.embedding_length / c.head_count
            &&& !m.contains_key(name + ".rope.freq_base"@) ==> c.rope_freq_base == 0x461c_4000
        }),
{
    let name = found_str(m, "general.architecture"@)->0;
    let family = family_of(name)->0;
    families_claim_their_names(name, family);
    lemma_keys(name);
}

/// The numbers of a BitNet model fit together where whole heads of equal width make up the
/// embedding, key and value heads are shared evenly, whole heads are rotated, and there are
/// blocks and tokens.
pub proof fn bitnet_numbers_fit_together(m: Table, prefix: Seq<char>)
    ensures
        bitnet_numbers_fault(m, prefix) is None <==> {
            let heads = u32_of(m, key(prefix, "attention.head_count"@));
            let kv_heads = u32_of(m, key(prefix, "attention.head_count_kv"@));
            let width = u32_of(m, key(prefix, "rope.dimension_count"@));
            &&& heads > 0 && kv_heads > 0
            &&& u32_of(m, key(prefix, "embedding_length"@)) == heads * width
            &&& heads == kv_heads * (heads / kv_heads)
            &&& width * kv_heads <= u32::MAX
            &&& u32_of(m, key(prefix, "block_count"@)) > 0
            &&& u32_of(m, key(prefix, "vocab_size"@)) > 0
        },
{
    let embedding = u32_of(m, key(prefix, "embedding_length"@));
    let heads = u32_of(m, key(prefix, "attention.head_count"@));
    let kv_heads = u32_of(m, key(prefix, "attention.head_count_kv"@));
    let width = u32_of(m, key(prefix, "rope.dimension_count"@));
    if heads > 0 && kv_heads > 0 {
        vstd::arithmetic::div_mod::lemma_fundamental_div_mod(heads, kv_heads);
        vstd::arithmetic::div_mod::lemma_fundamental_div_mod(embedding, heads);
        if embedding == heads * width {
            vstd::arithmetic::div_mod::lemma_fundamental_div_mod_converse(embedding, heads, width, 0);
        }
    }
}

/// The numbers of a Llama model fit together on the same terms, and where heads are made of
/// whole pairs, nothing is empty, the two real numbers are positive, and the rotation is not
/// scaled. What it leaves out stands in nobody's way: then the query heads have key and value
/// heads of their own, and all of a head is rotated.
pub proof fn llama_numbers_fit_together(m: Table, prefix: Seq<char>)
    ensures
        llama_heads_fault(m, prefix) is None && llama_numbers_fault(m, prefix) is None <==> {
            let embedding = u32_of(m, key(prefix, "embedding_length"@));
            let heads = u32_of(m, key(prefix, "attention.head_count"@));
            let shared = key(prefix, "attention.head_count_kv"@);
            let kv_heads = if m.contains_key(shared) {
                u32_of(m, shared)
            } else {
                heads
            };
            let rotated = key(prefix, "rope.dimension_count"@);
            let base = key(prefix, "rope.freq_base"@);
            let width = embedding / heads;
            let epsilon = found_f32(m, key(prefix, "attention.layer_norm_rms_epsilon"@))->0;
            &&& heads > 0 && kv_heads > 0
            &&& embedding == heads * width
            &&& m.contains_key(rotated) ==> embedding == heads * u32_of(m, rotated)
            &&& heads == kv_heads * (heads / kv_heads)
            &&& width * kv_heads <= u32::MAX
            &&& width == 2 * (width / 2)
            &&& !asks_for_scaling(m, prefix)
            &&& u32_of(m, key(prefix, "block_count"@)) > 0
            &&& embedding > 0
            &&& u32_of(m, key(prefix, "feed_forward_length"@)) > 0
            &&& u32_of(m, key(prefix, "context_length"@)) > 0
            &&& vocabulary_len(m) > 0
            &&& finite_bits(epsilon) && single(epsilon) > 0
            &&& m.contains_key(base) ==> finite_bits(found_f32(m, base)->0) && single(
                found_f32(m, base)->0,
            ) > 0
        },
{
    let embedding = u32_of(m, key(prefix, "embedding_length"@));
    let heads = u32_of(m, key(prefix, "attention.head_count"@));
    let kv_heads = llama_kv_heads(m, prefix);
    let rotated = key(prefix, "rope.dimension_count"@);
    let epsilon = found_f32(m, key(prefix, "attention.layer_norm_rms_epsilon"@))->0;
    finite_patterns_are_finite_numbers(epsilon);
    finite_patterns_are_finite_numbers(llama_base(m, prefix));
    if heads > 0 && kv_heads > 0 {
        vstd::arithmetic::div_mod::lemma_fundamental_div_mod(heads, kv_heads);
        vstd::arithmetic::div_mod::lemma_fundamental_div_mod(embedding, heads);
        if m.contains_key(rotated) && embedding == heads * u32_of(m, rotated) {
            vstd::arithmetic::div_mod::lemma_fundamental_div_mod_converse(
                embedding,
                heads,
                u32_of(m, rotated),
                0,
            );
        }
    }
}

/// Any key that begins as a scaled rotation does asks for one, but for a type of "none".
pub proof fn scaled_rotations_are_noticed(m: Table, prefix: Seq<char>, rest: Seq<char>)
    ensures
        ({
            let k = prefix + ".rope.scaling"@ + rest;
            &&& m.contains_key(k) && rest != ".type"@ ==> asks_for_scaling(m, prefix)
            &&& m.contains_key(k) && rest == ".type"@ ==> {
                ||| asks_for_scaling(m, prefix)
                ||| m[k] matches GgufValue::Str(s) && s@ == "none"@
            }
        }),
{
    reveal_strlit(".");
    reveal_strlit("rope.scaling");
    reveal_strlit(".rope.scaling");
    reveal_strlit("rope.scaling.type");
    reveal_strlit(".type");
    let k = prefix + ".rope.scaling"@ + rest;
    let start = key(prefix, "rope.scaling"@);
    assert(start =~= prefix + ".rope.scaling"@);
    assert(k =~= start + rest);
    assert(k.subrange(0, start.len() as int) =~= start);
    assert(occurs_at(k, start, 0));
    let full = key(prefix, "rope.scaling.type"@);
    assert(full =~= start + ".type"@);
    if k == full {
        assert(rest =~= k.skip(start.len() as int));
        assert(full.skip(start.len() as int) =~= ".type"@);
    }
    if m.contains_key(k) {
        assert(m.contains_key(k) && occurs_at(k, start, 0));
    }
}

/// No other key asks for a scaled rotation.
pub proof fn other_keys_scale_nothing(m: Table, prefix: Seq<char>)
    requires
        forall|rest: Seq<char>|
            m.contains_key(#[trigger] (prefix + ".rope.scaling"@ + rest)) ==> rest == ".type"@ && (
            m[prefix + ".rope.scaling"@ + rest] matches GgufValue::Str(s) && s@ == "none"@),
    ensures
        !asks_for_scaling(m, prefix),
{
    reveal_strlit(".");
    reveal_strlit("rope.scaling");
    reveal_strlit(".rope.scaling");
    reveal_strlit("rope.scaling.type");
    reveal_strlit(".type");
    let start = key(prefix, "rope.scaling"@);
    assert(start =~= prefix + ".rope.scaling"@);
    assert(key(prefix, "rope.scaling.type"@) =~= start + ".type"@);
    assert forall|k: Seq<char>| #[trigger]
        m.contains_key(k) && occurs_at(k, start, 0) implies k == key(prefix, "rope.scaling.type"@)
        && found_str(m, k) == Some("none"@) by {
        let rest = k.skip(start.len() as int);
        assert(k.subrange(0, start.len() as int) == start);
        assert(k =~= start + rest);
        assert(m.contains_key(prefix + ".rope.scaling"@ + rest));
    }
}

/// The value under a key is a count of 32 bits.
pub open spec fn has_count(m: Table, k: Seq<char>) -> bool {
    m.contains_key(k) && (value_as_u64(m[k]) matches Some(n) && n <= u32::MAX)
}

/// The value under a key is a real number.
pub open spec fn has_real(m: Table, k: Seq<char>) -> bool {
    m.contains_key(k) && (m[k] is Float32 || m[k] is Float64)
}

/// The metadata of a model is taken exactly where its architecture is known, each of the
/// numbers that such a model states is there, and the numbers fit together.
pub proof fn complete_metadata_is_taken(m: Table, name: Seq<char>)
    requires
        m.contains_key("general.architecture"@),
        m["general.architecture"@] matches GgufValue::Str(s) && s@ == name,
    ensures
        family_of(name) is None ==> config_fault(m) == Some(Fault::UnsupportedArchitecture(name)),
        family_of(name) == Some(ArchitectureFamily::BitNet) ==> (config_fault(m) is None <==> {
            &&& has_count(m, name + ".block_count"@)
            &&& has_count(m, name + ".embedding_length"@)
            &&& has_count(m, name + ".feed_forward_length"@)
            &&& has_count(m, name + ".context_length"@)
            &&& has_count(m, name + ".attention.head_count"@)
            &&& has_count(m, name + ".attention.head_count_kv"@)
            &&& has_real(m, name + ".attention.layer_norm_rms_epsilon"@)
            &&& has_count(m, name + ".rope.dimension_count"@)
            &&& has_real(m, name + ".rope.freq_base"@)
            &&& has_count(m, name + ".vocab_size"@)
            &&& bitnet_numbers_fault(m, name) is None
        }),
        family_of(name) is Some && family_of(name) != Some(ArchitectureFamily::BitNet) ==> (
        config_fault(m) is None <==> {
            let tokens = "tokenizer.ggml.tokens"@;
            &&& has_count(m, name + ".block_count"@)
            &&& has_count(m, name + ".embedding_length"@)
            &&& has_count(m, name + ".feed_forward_length"@)
            &&& has_count(m, name + ".context_length"@)
            &&& has_count(m, name + ".attention.head_count"@)
            &&& m.contains_key(name + ".attention.head_count_kv"@) ==> has_count(
                m,
                name + ".attention.head_count_kv"@,
            )
            &&& has_real(m, name + ".attention.layer_norm_rms_epsilon"@)
            &&& m.contains_key(name + ".rope.dimension_count"@) ==> has_count(
                m,
                name + ".rope.dimension_count"@,
            )
            &&& m.contains_key(name + ".rope.freq_base"@) ==> has_real(m, name + ".rope.freq_base"@)
            &&& m.contains_key(tokens)
            &&& m[tokens] matches GgufValue::Array(items) && items@.len() <= u32::MAX && forall|
                i: int,
            |
                0 <= i < items@.len() ==> (#[trigger] items@[i]) is Str
            &&& llama_heads_fault(m, name) is None
            &&& llama_numbers_fault(m, name) is None
        }),
{
    if family_of(name) is Some {
        families_claim_their_names(name, family_of(name)->0);
    }
    lemma_keys(name);
}

/// A file without an architecture is no model.
pub proof fn models_name_their_architecture(m: Table)
    ensures
        !m.contains_key("general.architecture"@) ==> config_fault(m) is Some,
        m.contains_key("general.architecture"@) && !(m["general.architecture"@] is Str)
            ==> config_fault(m) is Some,
{
}

} // verus!
