//! The hyper-parameters of a model, read from the metadata of its file.

use crate::error::{Fault, WillametteError};
use crate::gguf::metadata::{value_as_f32, value_as_u64, Metadata};
use crate::gguf::value::GgufValue;
use crate::model::architecture::{
    family_of, family_prefix, resolve, ArchitectureFamily, ModelArchitecture,
};
use crate::model::primitives::heads_fit;
use crate::text::{
    begins_with, cat2, cat3, cat4, cat5, dec, decimal, occurs_at, owned, same_text, views,
};
use vstd::prelude::*;

verus! {

/// The hyper-parameters of a model. The two real numbers are held by their
/// single-precision bits.
#[derive(Debug)]
pub struct ModelConfig {
    /// The architecture name in the file.
    pub architecture: String,
    pub block_count: u32,
    pub embedding_length: u32,
    pub feed_forward_length: u32,
    pub context_length: u32,
    pub head_count: u32,
    pub head_count_kv: u32,
    /// The embedding length divided by the head count.
    pub head_dim: u32,
    /// The width of all key heads, or of all value heads, for one token.
    pub kv_dim: u32,
    pub layer_norm_rms_epsilon: u32,
    pub rope_dimension_count: u32,
    pub rope_freq_base: u32,
    pub vocab_size: u32,
}

/// The configuration of a BitNet model.
pub type BitNetConfig = ModelConfig;

/// A metadata table.
pub type Table = Map<Seq<char>, GgufValue>;

/// The earlier of two faults.
pub open spec fn first(a: Option<Fault>, b: Option<Fault>) -> Option<Fault> {
    if a is Some {
        a
    } else {
        b
    }
}

/// A metadata key of a model.
pub open spec fn key(prefix: Seq<char>, suffix: Seq<char>) -> Seq<char> {
    prefix + "."@ + suffix
}

/// The count under a key, if there is one.
pub open spec fn found_u64(m: Table, key: Seq<char>) -> Option<u64> {
    if m.contains_key(key) {
        value_as_u64(m[key])
    } else {
        None
    }
}

/// The single-precision bits under a key, if there are any.
pub open spec fn found_f32(m: Table, key: Seq<char>) -> Option<u32> {
    if m.contains_key(key) {
        value_as_f32(m[key])
    } else {
        None
    }
}

/// The text under a key, if there is one.
pub open spec fn found_str(m: Table, key: Seq<char>) -> Option<Seq<char>> {
    if m.contains_key(key) && m[key] is Str {
        Some(m[key]->Str_0@)
    } else {
        None
    }
}

/// A key without the value it needs.
pub open spec fn missing(key: Seq<char>, kind: Seq<char>) -> Option<Fault> {
    Some(Fault::MissingMetadata(seq![key + kind]))
}

/// Why a key gives no text.
pub open spec fn str_fault(m: Table, key: Seq<char>) -> Option<Fault> {
    if found_str(m, key) is None {
        missing(key, " (string)"@)
    } else {
        None
    }
}

/// Why a number under a key is too large.
pub open spec fn wide_fault(key: Seq<char>, n: u64) -> Option<Fault> {
    if n > u32::MAX {
        Some(
            Fault::GgufParse(
                "metadata key "@ + key + " value "@ + dec(n as int) + " does not fit in u32"@,
            ),
        )
    } else {
        None
    }
}

/// Why a key gives no 32-bit count.
pub open spec fn u32_fault(m: Table, key: Seq<char>) -> Option<Fault> {
    match found_u64(m, key) {
        None => missing(key, " (u32/u64)"@),
        Some(n) => wide_fault(key, n),
    }
}

/// The count under a key.
pub open spec fn u32_of(m: Table, key: Seq<char>) -> int {
    found_u64(m, key)->0 as int
}

/// Why a key that may be absent gives no 32-bit count.
pub open spec fn optional_u32_fault(m: Table, key: Seq<char>) -> Option<Fault> {
    if m.contains_key(key) {
        u32_fault(m, key)
    } else {
        None
    }
}

/// The count under a key, or another where the key is absent.
pub open spec fn u32_or(m: Table, key: Seq<char>, default: int) -> int {
    if m.contains_key(key) {
        u32_of(m, key)
    } else {
        default
    }
}

/// Why a key gives no real number.
pub open spec fn f32_fault(m: Table, key: Seq<char>) -> Option<Fault> {
    if found_f32(m, key) is None {
        missing(key, " (f32)"@)
    } else {
        None
    }
}

/// Why a key that may be absent gives no real number.
pub open spec fn optional_f32_fault(m: Table, key: Seq<char>) -> Option<Fault> {
    if m.contains_key(key) {
        f32_fault(m, key)
    } else {
        None
    }
}

/// The vocabulary under its key is a list of strings.
pub open spec fn has_vocabulary(m: Table) -> bool {
    &&& m.contains_key("tokenizer.ggml.tokens"@)
    &&& m["tokenizer.ggml.tokens"@] matches GgufValue::Array(items) && forall|i: int|
        0 <= i < items@.len() ==> (#[trigger] items@[i]) is Str
}

/// How many tokens the vocabulary has.
pub open spec fn vocabulary_len(m: Table) -> int {
    m["tokenizer.ggml.tokens"@]->Array_0@.len() as int
}

/// Why the vocabulary cannot be counted.
pub open spec fn vocabulary_fault(m: Table) -> Option<Fault> {
    if !has_vocabulary(m) {
        Some(Fault::MissingMetadata(seq!["tokenizer.ggml.tokens (string array)"@]))
    } else if vocabulary_len(m) > u32::MAX {
        Some(Fault::GgufParse("tokenizer vocabulary does not fit in u32"@))
    } else {
        None
    }
}

/// What is wrong with the numbers of a BitNet model.
pub open spec fn bitnet_numbers_fault(m: Table, prefix: Seq<char>) -> Option<Fault> {
    let blocks = u32_of(m, key(prefix, "block_count"@));
    let embedding = u32_of(m, key(prefix, "embedding_length"@));
    let heads = u32_of(m, key(prefix, "attention.head_count"@));
    let kv_heads = u32_of(m, key(prefix, "attention.head_count_kv"@));
    let rope = u32_of(m, key(prefix, "rope.dimension_count"@));
    let vocab = u32_of(m, key(prefix, "vocab_size"@));
    if heads == 0 {
        Some(Fault::GgufParse("head_count must be > 0"@))
    } else if embedding % heads != 0 {
        Some(
            Fault::GgufParse(
                "embedding_length "@ + dec(embedding) + " not divisible by head_count "@ + dec(
                    heads,
                ),
            ),
        )
    } else if kv_heads == 0 {
        Some(Fault::GgufParse("head_count_kv must be > 0"@))
    } else if heads % kv_heads != 0 {
        Some(
            Fault::GgufParse(
                "head_count "@ + dec(heads) + " not divisible by head_count_kv "@ + dec(kv_heads)
                    + " (GQA ratio must be integer)"@,
            ),
        )
    } else if embedding / heads * kv_heads > u32::MAX {
        Some(Fault::GgufParse("head_dim * head_count_kv overflow"@))
    } else if rope != embedding / heads {
        Some(
            Fault::GgufParse(
                "rope.dimension_count ("@ + dec(rope) + ") must equal head_dim ("@ + dec(
                    embedding / heads,
                ) + "); BitNet b1.58 build_bitnet_158 asserts n_embd_head == n_rot"@,
            ),
        )
    } else if blocks == 0 {
        Some(Fault::GgufParse("block_count must be > 0"@))
    } else if vocab == 0 {
        Some(Fault::GgufParse("vocab_size must be > 0"@))
    } else {
        None
    }
}

/// What is wrong with the metadata of a BitNet model.
pub open spec fn bitnet_fault(m: Table, prefix: Seq<char>) -> Option<Fault> {
    first(
        u32_fault(m, key(prefix, "block_count"@)),
        first(
            u32_fault(m, key(prefix, "embedding_length"@)),
            first(
                u32_fault(m, key(prefix, "feed_forward_length"@)),
                first(
                    u32_fault(m, key(prefix, "context_length"@)),
                    first(
                        u32_fault(m, key(prefix, "attention.head_count"@)),
                        first(
                            u32_fault(m, key(prefix, "attention.head_count_kv"@)),
                            first(
                                f32_fault(m, key(prefix, "attention.layer_norm_rms_epsilon"@)),
                                first(
                                    u32_fault(m, key(prefix, "rope.dimension_count"@)),
                                    first(
                                        f32_fault(m, key(prefix, "rope.freq_base"@)),
                                        first(
                                            u32_fault(m, key(prefix, "vocab_size"@)),
                                            bitnet_numbers_fault(m, prefix),
                                        ),
                                    ),
                                ),
                            ),
                        ),
                    ),
                ),
            ),
        ),
    )
}

/// `c` holds what the metadata of a BitNet model says.
pub open spec fn is_bitnet_config(
    c: ModelConfig,
    m: Table,
    name: Seq<char>,
    prefix: Seq<char>,
) -> bool {
    &&& c.architecture@ == name
    &&& c.block_count == u32_of(m, key(prefix, "block_count"@))
    &&& c.embedding_length == u32_of(m, key(prefix, "embedding_length"@))
    &&& c.feed_forward_length == u32_of(m, key(prefix, "feed_forward_length"@))
    &&& c.context_length == u32_of(m, key(prefix, "context_length"@))
    &&& c.head_count == u32_of(m, key(prefix, "attention.head_count"@))
    &&& c.head_count_kv == u32_of(m, key(prefix, "attention.head_count_kv"@))
    &&& c.head_dim == c.embedding_length / c.head_count
    &&& c.kv_dim == c.head_dim * c.head_count_kv
    &&& Some(c.layer_norm_rms_epsilon) == found_f32(
        m,
        key(prefix, "attention.layer_norm_rms_epsilon"@),
    )
    &&& c.rope_dimension_count == u32_of(m, key(prefix, "rope.dimension_count"@))
    &&& Some(c.rope_freq_base) == found_f32(m, key(prefix, "rope.freq_base"@))
    &&& c.vocab_size == u32_of(m, key(prefix, "vocab_size"@))
}

/// The bits of a finite number above zero.
pub open spec fn positive_bits(bits: u32) -> bool {
    0 < bits < 0x7f80_0000
}

/// The single-precision bits of ten thousand.
pub const DEFAULT_ROPE_FREQ_BASE: u32 = 0x461c_4000;

/// Some key other than an explicit `none` asks for scaled rotary embedding.
pub open spec fn asks_for_scaling(m: Table, prefix: Seq<char>) -> bool {
    exists|k: Seq<char>| #[trigger]
        m.contains_key(k) && occurs_at(k, key(prefix, "rope.scaling"@), 0) && !(k == key(
            prefix,
            "rope.scaling.type"@,
        ) && found_str(m, k) == Some("none"@))
}

/// The number of key and value heads of a Llama model: by default that of the
/// query heads.
pub open spec fn llama_kv_heads(m: Table, prefix: Seq<char>) -> int {
    u32_or(
        m,
        key(prefix, "attention.head_count_kv"@),
        u32_of(m, key(prefix, "attention.head_count"@)),
    )
}

/// The width of one head of a Llama model.
pub open spec fn llama_head_dim(m: Table, prefix: Seq<char>) -> int {
    u32_of(m, key(prefix, "embedding_length"@)) / u32_of(
        m,
        key(prefix, "attention.head_count"@),
    )
}

/// The rotated width of a Llama model: by default the whole head.
pub open spec fn llama_rope(m: Table, prefix: Seq<char>) -> int {
    u32_or(m, key(prefix, "rope.dimension_count"@), llama_head_dim(m, prefix))
}

/// The bits of the rotary base of a Llama model.
pub open spec fn llama_base(m: Table, prefix: Seq<char>) -> u32 {
    if m.contains_key(key(prefix, "rope.freq_base"@)) {
        found_f32(m, key(prefix, "rope.freq_base"@))->0
    } else {
        DEFAULT_ROPE_FREQ_BASE
    }
}

/// What is wrong with the head counts of a Llama model.
pub open spec fn llama_heads_fault(m: Table, prefix: Seq<char>) -> Option<Fault> {
    let embedding = u32_of(m, key(prefix, "embedding_length"@));
    let heads = u32_of(m, key(prefix, "attention.head_count"@));
    if heads == 0 || embedding % heads != 0 {
        Some(
            Fault::GgufParse(
                "embedding_length "@ + dec(embedding)
                    + " must be divisible by non-zero head_count "@ + dec(heads),
            ),
        )
    } else {
        None
    }
}

/// What is wrong with the remaining numbers of a Llama model.
pub open spec fn llama_numbers_fault(m: Table, prefix: Seq<char>) -> Option<Fault> {
    let heads = u32_of(m, key(prefix, "attention.head_count"@));
    let kv_heads = llama_kv_heads(m, prefix);
    let head_dim = llama_head_dim(m, prefix);
    let rope = llama_rope(m, prefix);
    if kv_heads == 0 || heads % kv_heads != 0 {
        Some(
            Fault::GgufParse(
                "head_count "@ + dec(heads) + " must be divisible by non-zero head_count_kv "@
                    + dec(kv_heads),
            ),
        )
    } else if head_dim * kv_heads > u32::MAX {
        Some(Fault::GgufParse("head_dim * head_count_kv overflow"@))
    } else if rope != head_dim {
        Some(
            Fault::NotImplemented(
                "Llama partial RoPE is not supported: rope.dimension_count="@ + dec(rope)
                    + ", head_dim="@ + dec(head_dim),
            ),
        )
    } else if rope % 2 != 0 {
        Some(
            Fault::GgufParse("Llama rope.dimension_count must be even, got "@ + dec(rope)),
        )
    } else if asks_for_scaling(m, prefix) {
        Some(Fault::NotImplemented("Llama RoPE scaling is not supported"@))
    } else if u32_of(m, key(prefix, "block_count"@)) == 0 || u32_of(
        m,
        key(prefix, "embedding_length"@),
    ) == 0 || u32_of(m, key(prefix, "feed_forward_length"@)) == 0 || u32_of(
        m,
        key(prefix, "context_length"@),
    ) == 0 || vocabulary_len(m) == 0 {
        Some(Fault::GgufParse("Llama dimensions and vocabulary must be non-zero"@))
    } else if !positive_bits(found_f32(m, key(prefix, "attention.layer_norm_rms_epsilon"@))->0) {
        Some(Fault::GgufParse("Llama RMS epsilon must be finite and positive"@))
    } else if !positive_bits(llama_base(m, prefix)) {
        Some(Fault::GgufParse("Llama RoPE frequency base must be finite and positive"@))
    } else {
        None
    }
}

/// What is wrong with the metadata of a Llama model.
pub open spec fn llama_fault(m: Table, prefix: Seq<char>) -> Option<Fault> {
    first(
        u32_fault(m, key(prefix, "block_count"@)),
        first(
            u32_fault(m, key(prefix, "embedding_length"@)),
            first(
                u32_fault(m, key(prefix, "feed_forward_length"@)),
                first(
                    u32_fault(m, key(prefix, "context_length"@)),
                    first(
                        u32_fault(m, key(prefix, "attention.head_count"@)),
                        first(
                            optional_u32_fault(m, key(prefix, "attention.head_count_kv"@)),
                            first(
                                f32_fault(m, key(prefix, "attention.layer_norm_rms_epsilon"@)),
                                first(
                                    llama_heads_fault(m, prefix),
                                    first(
                                        optional_u32_fault(
                                            m,
                                            key(prefix, "rope.dimension_count"@),
                                        ),
                                        first(
                                            optional_f32_fault(m, key(prefix, "rope.freq_base"@)),
                                            first(
                                                vocabulary_fault(m),
                                                llama_numbers_fault(m, prefix),
                                            ),
                                        ),
                                    ),
                                ),
                            ),
                        ),
                    ),
                ),
            ),
        ),
    )
}

/// `c` holds what the metadata of a Llama model says.
pub open spec fn is_llama_config(
    c: ModelConfig,
    m: Table,
    name: Seq<char>,
    prefix: Seq<char>,
) -> bool {
    &&& c.architecture@ == name
    &&& c.block_count == u32_of(m, key(prefix, "block_count"@))
    &&& c.embedding_length == u32_of(m, key(prefix, "embedding_length"@))
    &&& c.feed_forward_length == u32_of(m, key(prefix, "feed_forward_length"@))
    &&& c.context_length == u32_of(m, key(prefix, "context_length"@))
    &&& c.head_count == u32_of(m, key(prefix, "attention.head_count"@))
    &&& c.head_count_kv == llama_kv_heads(m, prefix)
    &&& c.head_dim == llama_head_dim(m, prefix)
    &&& c.kv_dim == c.head_dim * c.head_count_kv
    &&& Some(c.layer_norm_rms_epsilon) == found_f32(
        m,
        key(prefix, "attention.layer_norm_rms_epsilon"@),
    )
    &&& c.rope_dimension_count == llama_rope(m, prefix)
    &&& c.rope_freq_base == llama_base(m, prefix)
    &&& c.vocab_size == vocabulary_len(m)
}

/// A metadata key.
fn make_key(prefix: &str, suffix: &str) -> (k: String)
    ensures
        k@ == key(prefix@, suffix@),
{
    cat3(prefix, ".", suffix)
}

/// The error for a key without the value it needs.
fn missing_key(key: &str, kind: &str) -> (e: WillametteError)
    ensures
        Some(e@) == missing(key@, kind@),
{
    let mut keys: Vec<String> = Vec::new();
    keys.push(cat2(key, kind));
    proof {
        assert(views(keys@) =~= seq![key@ + kind@]);
    }
    WillametteError::MissingMetadata(keys)
}

/// The text under a key.
fn required_str<'a>(meta: &'a Metadata, key: &str) -> (r: Result<&'a str, WillametteError>)
    requires
        meta.wf(),
    ensures
        match r {
            Ok(s) => str_fault(meta@, key@) is None && found_str(meta@, key@) == Some(s@),
            Err(e) => str_fault(meta@, key@) == Some(e@),
        },
{
    match meta.get(key) {
        Some(v) => match v.as_str() {
            Some(s) => Ok(s),
            None => Err(missing_key(key, " (string)")),
        },
        None => Err(missing_key(key, " (string)")),
    }
}

/// A number that must fit in 32 bits.
fn narrow_count(key: &str, n: u64) -> (r: Result<u32, WillametteError>)
    ensures
        match r {
            Ok(v) => wide_fault(key@, n) is None && v == n,
            Err(e) => wide_fault(key@, n) == Some(e@),
        },
{
    if n > 0xffff_ffff {
        let number = decimal(n);
        return Err(
            WillametteError::GgufParse(
                cat5(
                    "metadata key ",
                    key,
                    " value ",
                    number.as_str(),
                    " does not fit in u32",
                ),
            ),
        );
    }
    Ok(n as u32)
}

/// The 32-bit count under a key.
fn required_u32(meta: &Metadata, key: &str) -> (r: Result<u32, WillametteError>)
    requires
        meta.wf(),
    ensures
        match r {
            Ok(v) => u32_fault(meta@, key@) is None && v == u32_of(meta@, key@),
            Err(e) => u32_fault(meta@, key@) == Some(e@),
        },
{
    match meta.get(key) {
        Some(v) => match v.as_u64() {
            Some(n) => narrow_count(key, n),
            None => Err(missing_key(key, " (u32/u64)")),
        },
        None => Err(missing_key(key, " (u32/u64)")),
    }
}

/// The 32-bit count under a key that may be absent.
fn optional_u32(meta: &Metadata, key: &str) -> (r: Result<Option<u32>, WillametteError>)
    requires
        meta.wf(),
    ensures
        match r {
            Ok(None) => !meta@.contains_key(key@),
            Ok(Some(v)) => meta@.contains_key(key@) && u32_fault(meta@, key@) is None && v
                == u32_of(meta@, key@),
            Err(e) => optional_u32_fault(meta@, key@) == Some(e@),
        },
{
    match meta.get(key) {
        Some(v) => match v.as_u64() {
            Some(n) => match narrow_count(key, n) {
                Ok(v) => Ok(Some(v)),
                Err(e) => Err(e),
            },
            None => Err(missing_key(key, " (u32/u64)")),
        },
        None => Ok(None),
    }
}

/// The bits of the real number under a key.
fn required_f32(meta: &Metadata, key: &str) -> (r: Result<u32, WillametteError>)
    requires
        meta.wf(),
    ensures
        match r {
            Ok(bits) => f32_fault(meta@, key@) is None && found_f32(meta@, key@) == Some(bits),
            Err(e) => f32_fault(meta@, key@) == Some(e@),
        },
{
    match meta.get(key) {
        Some(v) => match v.as_f32() {
            Some(bits) => Ok(bits),
            None => Err(missing_key(key, " (f32)")),
        },
        None => Err(missing_key(key, " (f32)")),
    }
}

/// The bits of the real number under a key that may be absent.
fn optional_f32(meta: &Metadata, key: &str) -> (r: Result<Option<u32>, WillametteError>)
    requires
        meta.wf(),
    ensures
        match r {
            Ok(None) => !meta@.contains_key(key@),
            Ok(Some(bits)) => meta@.contains_key(key@) && found_f32(meta@, key@) == Some(bits),
            Err(e) => optional_f32_fault(meta@, key@) == Some(e@),
        },
{
    match meta.get(key) {
        Some(v) => match v.as_f32() {
            Some(bits) => Ok(Some(bits)),
            None => Err(missing_key(key, " (f32)")),
        },
        None => Ok(None),
    }
}

/// How many tokens the vocabulary in the metadata has.
fn tokenizer_vocab_size(meta: &Metadata) -> (r: Result<u32, WillametteError>)
    requires
        meta.wf(),
    ensures
        match r {
            Ok(n) => vocabulary_fault(meta@) is None && n == vocabulary_len(meta@),
            Err(e) => vocabulary_fault(meta@) == Some(e@),
        },
{
    let tokens: Option<usize> = match meta.get("tokenizer.ggml.tokens") {
        Some(v) => match v.as_string_array() {
            Some(texts) => Some(texts.len()),
            None => None,
        },
        None => None,
    };
    match tokens {
        Some(n) => {
            if n as u64 > 0xffff_ffff {
                Err(
                    WillametteError::GgufParse(
                        owned("tokenizer vocabulary does not fit in u32"),
                    ),
                )
            } else {
                Ok(n as u32)
            }
        },
        None => {
            let mut keys: Vec<String> = Vec::new();
            keys.push(owned("tokenizer.ggml.tokens (string array)"));
            proof {
                assert(views(keys@) =~= seq!["tokenizer.ggml.tokens (string array)"@]);
            }
            Err(WillametteError::MissingMetadata(keys))
        },
    }
}

/// Whether some key asks for scaled rotary embedding.
fn wants_scaling(meta: &Metadata, prefix: &str) -> (b: bool)
    requires
        meta.wf(),
    ensures
        b == asks_for_scaling(meta@, prefix@),
{
    let scaling = make_key(prefix, "rope.scaling");
    let plain = make_key(prefix, "rope.scaling.type");
    let mut i: usize = 0;
    while i < meta.len()
        invariant
            i <= meta.size(),
            meta.wf(),
            scaling@ == key(prefix@, "rope.scaling"@),
            plain@ == key(prefix@, "rope.scaling.type"@),
            forall|j: int|
                0 <= j < i ==> !(occurs_at(#[trigger] meta.key_at(j), scaling@, 0) && !(
                meta.key_at(j) == plain@ && found_str(meta@, meta.key_at(j)) == Some("none"@))),
        decreases meta.size() - i,
    {
        let (name, value) = meta.entry(i);
        if begins_with(name, scaling.as_str()) {
            let unscaled: bool = same_text(name, plain.as_str()) && match value.as_str() {
                Some(s) => same_text(s, "none"),
                None => false,
            };
            if !unscaled {
                return true;
            }
        }
        i = i + 1;
    }
    proof {
        assert forall|k: Seq<char>| #[trigger] meta@.contains_key(k) implies !(occurs_at(
            k,
            scaling@,
            0,
        ) && !(k == plain@ && found_str(meta@, k) == Some("none"@))) by {
            meta.keys_stand_in_places(k);
        }
    }
    false
}

impl ModelConfig {
    /// The architecture name of the reference model.
    pub const ARCHITECTURE: &'static str = "bitnet-b1.58";

    /// Reads the configuration of any supported model: the family that claims
    /// the architecture name decides how.
    pub fn from_gguf_metadata(meta: &Metadata) -> (r: Result<Self, WillametteError>)
        requires
            meta.wf(),
        ensures
            match r {
                Ok(c) => config_fault(meta@) is None && is_config(c, meta@),
                Err(e) => config_fault(meta@) == Some(e@),
            },
    {
        let name = match required_str(meta, "general.architecture") {
            Ok(s) => s,
            Err(e) => {
                return Err(e);
            },
        };
        match resolve(name) {
            Some(family) => family.config_from_meta(name, meta),
            None => Err(WillametteError::UnsupportedArchitecture(owned(name))),
        }
    }

    /// Reads the configuration of a BitNet model.
    pub fn from_gguf_metadata_with_prefix(
        arch_string: &str,
        prefix: &str,
        meta: &Metadata,
    ) -> (r: Result<Self, WillametteError>)
        requires
            meta.wf(),
        ensures
            match r {
                Ok(c) => bitnet_fault(meta@, prefix@) is None && is_bitnet_config(
                    c,
                    meta@,
                    arch_string@,
                    prefix@,
                ),
                Err(e) => bitnet_fault(meta@, prefix@) == Some(e@),
            },
    {
        let block_count: u32 = match required_u32(
            meta,
            make_key(prefix, "block_count").as_str(),
        ) {
            Ok(v) => v,
            Err(e) => {
                return Err(e);
            },
        };
        let embedding_length: u32 = match required_u32(
            meta,
            make_key(prefix, "embedding_length").as_str(),
        ) {
            Ok(v) => v,
            Err(e) => {
                return Err(e);
            },
        };
        let feed_forward_length: u32 = match required_u32(
            meta,
            make_key(prefix, "feed_forward_length").as_str(),
        ) {
            Ok(v) => v,
            Err(e) => {
                return Err(e);
            },
        };
        let context_length: u32 = match required_u32(
            meta,
            make_key(prefix, "context_length").as_str(),
        ) {
            Ok(v) => v,
            Err(e) => {
                return Err(e);
            },
        };
        let head_count: u32 = match required_u32(
            meta,
            make_key(prefix, "attention.head_count").as_str(),
        ) {
            Ok(v) => v,
            Err(e) => {
                return Err(e);
            },
        };
        let head_count_kv: u32 = match required_u32(
            meta,
            make_key(prefix, "attention.head_count_kv").as_str(),
        ) {
            Ok(v) => v,
            Err(e) => {
                return Err(e);
            },
        };
        let layer_norm_rms_epsilon: u32 = match required_f32(
            meta,
            make_key(prefix, "attention.layer_norm_rms_epsilon").as_str(),
        ) {
            Ok(v) => v,
            Err(e) => {
                return Err(e);
            },
        };
        let rope_dimension_count: u32 = match required_u32(
            meta,
            make_key(prefix, "rope.dimension_count").as_str(),
        ) {
            Ok(v) => v,
            Err(e) => {
                return Err(e);
            },
        };
        let rope_freq_base: u32 = match required_f32(
            meta,
            make_key(prefix, "rope.freq_base").as_str(),
        ) {
            Ok(v) => v,
            Err(e) => {
                return Err(e);
            },
        };
        let vocab_size: u32 = match required_u32(meta, make_key(prefix, "vocab_size").as_str()) {
            Ok(v) => v,
            Err(e) => {
                return Err(e);
            },
        };
        if head_count == 0 {
            return Err(WillametteError::GgufParse(owned("head_count must be > 0")));
        }
        if embedding_length % head_count != 0 {
            let width = decimal(embedding_length as u64);
            let heads = decimal(head_count as u64);
            return Err(
                WillametteError::GgufParse(
                    cat4(
                        "embedding_length ",
                        width.as_str(),
                        " not divisible by head_count ",
                        heads.as_str(),
                    ),
                ),
            );
        }
        let head_dim: u32 = embedding_length / head_count;
        if head_count_kv == 0 {
            return Err(WillametteError::GgufParse(owned("head_count_kv must be > 0")));
        }
        if head_count % head_count_kv != 0 {
            let heads = decimal(head_count as u64);
            let kv = decimal(head_count_kv as u64);
            return Err(
                WillametteError::GgufParse(
                    cat5(
                        "head_count ",
                        heads.as_str(),
                        " not divisible by head_count_kv ",
                        kv.as_str(),
                        " (GQA ratio must be integer)",
                    ),
                ),
            );
        }
        let kv_dim: u32 = match head_dim.checked_mul(head_count_kv) {
            Some(n) => n,
            None => {
                return Err(
                    WillametteError::GgufParse(owned("head_dim * head_count_kv overflow")),
                );
            },
        };
        if rope_dimension_count != head_dim {
            let rope = decimal(rope_dimension_count as u64);
            let width = decimal(head_dim as u64);
            return Err(
                WillametteError::GgufParse(
                    cat5(
                        "rope.dimension_count (",
                        rope.as_str(),
                        ") must equal head_dim (",
                        width.as_str(),
                        "); BitNet b1.58 build_bitnet_158 asserts n_embd_head == n_rot",
                    ),
                ),
            );
        }
        if block_count == 0 {
            return Err(WillametteError::GgufParse(owned("block_count must be > 0")));
        }
        if vocab_size == 0 {
            return Err(WillametteError::GgufParse(owned("vocab_size must be > 0")));
        }
        Ok(
            ModelConfig {
                architecture: owned(arch_string),
                block_count,
                embedding_length,
                feed_forward_length,
                context_length,
                head_count,
                head_count_kv,
                head_dim,
                kv_dim,
                layer_norm_rms_epsilon,
                rope_dimension_count,
                rope_freq_base,
                vocab_size,
            },
        )
    }

    /// Reads the configuration of a Llama model without rotary scaling.
    pub fn from_llama_metadata_with_prefix(
        arch_string: &str,
        prefix: &str,
        meta: &Metadata,
    ) -> (r: Result<Self, WillametteError>)
        requires
            meta.wf(),
        ensures
            match r {
                Ok(c) => llama_fault(meta@, prefix@) is None && is_llama_config(
                    c,
                    meta@,
                    arch_string@,
                    prefix@,
                ),
                Err(e) => llama_fault(meta@, prefix@) == Some(e@),
            },
    {
        let block_count: u32 = match required_u32(
            meta,
            make_key(prefix, "block_count").as_str(),
        ) {
            Ok(v) => v,
            Err(e) => {
                return Err(e);
            },
        };
        let embedding_length: u32 = match required_u32(
            meta,
            make_key(prefix, "embedding_length").as_str(),
        ) {
            Ok(v) => v,
            Err(e) => {
                return Err(e);
            },
        };
        let feed_forward_length: u32 = match required_u32(
            meta,
            make_key(prefix, "feed_forward_length").as_str(),
        ) {
            Ok(v) => v,
            Err(e) => {
                return Err(e);
            },
        };
        let context_length: u32 = match required_u32(
            meta,
            make_key(prefix, "context_length").as_str(),
        ) {
            Ok(v) => v,
            Err(e) => {
                return Err(e);
            },
        };
        let head_count: u32 = match required_u32(
            meta,
            make_key(prefix, "attention.head_count").as_str(),
        ) {
            Ok(v) => v,
            Err(e) => {
                return Err(e);
            },
        };
        let head_count_kv: u32 = match optional_u32(
            meta,
            make_key(prefix, "attention.head_count_kv").as_str(),
        ) {
            Ok(Some(v)) => v,
            Ok(None) => head_count,
            Err(e) => {
                return Err(e);
            },
        };
        let layer_norm_rms_epsilon: u32 = match required_f32(
            meta,
            make_key(prefix, "attention.layer_norm_rms_epsilon").as_str(),
        ) {
            Ok(v) => v,
            Err(e) => {
                return Err(e);
            },
        };
        if head_count == 0 || embedding_length % head_count != 0 {
            let width = decimal(embedding_length as u64);
            let heads = decimal(head_count as u64);
            return Err(
                WillametteError::GgufParse(
                    cat4(
                        "embedding_length ",
                        width.as_str(),
                        " must be divisible by non-zero head_count ",
                        heads.as_str(),
                    ),
                ),
            );
        }
        let head_dim: u32 = embedding_length / head_count;
        let rope_dimension_count: u32 = match optional_u32(
            meta,
            make_key(prefix, "rope.dimension_count").as_str(),
        ) {
            Ok(Some(v)) => v,
            Ok(None) => head_dim,
            Err(e) => {
                return Err(e);
            },
        };
        let rope_freq_base: u32 = match optional_f32(
            meta,
            make_key(prefix, "rope.freq_base").as_str(),
        ) {
            Ok(Some(v)) => v,
            Ok(None) => DEFAULT_ROPE_FREQ_BASE,
            Err(e) => {
                return Err(e);
            },
        };
        let vocab_size: u32 = match tokenizer_vocab_size(meta) {
            Ok(v) => v,
            Err(e) => {
                return Err(e);
            },
        };
        if head_count_kv == 0 || head_count % head_count_kv != 0 {
            let heads = decimal(head_count as u64);
            let kv = decimal(head_count_kv as u64);
            return Err(
                WillametteError::GgufParse(
                    cat4(
                        "head_count ",
                        heads.as_str(),
                        " must be divisible by non-zero head_count_kv ",
                        kv.as_str(),
                    ),
                ),
            );
        }
        let kv_dim: u32 = match head_dim.checked_mul(head_count_kv) {
            Some(n) => n,
            None => {
                return Err(
                    WillametteError::GgufParse(owned("head_dim * head_count_kv overflow")),
                );
            },
        };
        if rope_dimension_count != head_dim {
            let rope = decimal(rope_dimension_count as u64);
            let width = decimal(head_dim as u64);
            return Err(
                WillametteError::NotImplemented(
                    cat4(
                        "Llama partial RoPE is not supported: rope.dimension_count=",
                        rope.as_str(),
                        ", head_dim=",
                        width.as_str(),
                    ),
                ),
            );
        }
        if rope_dimension_count % 2 != 0 {
            let rope = decimal(rope_dimension_count as u64);
            return Err(
                WillametteError::GgufParse(
                    cat2("Llama rope.dimension_count must be even, got ", rope.as_str()),
                ),
            );
        }
        if wants_scaling(meta, prefix) {
            return Err(
                WillametteError::NotImplemented(owned("Llama RoPE scaling is not supported")),
            );
        }
        if block_count == 0 || embedding_length == 0 || feed_forward_length == 0 || context_length
            == 0 || vocab_size == 0 {
            return Err(
                WillametteError::GgufParse(
                    owned("Llama dimensions and vocabulary must be non-zero"),
                ),
            );
        }
        if layer_norm_rms_epsilon == 0 || layer_norm_rms_epsilon >= 0x7f80_0000 {
            return Err(
                WillametteError::GgufParse(owned("Llama RMS epsilon must be finite and positive")),
            );
        }
        if rope_freq_base == 0 || rope_freq_base >= 0x7f80_0000 {
            return Err(
                WillametteError::GgufParse(
                    owned("Llama RoPE frequency base must be finite and positive"),
                ),
            );
        }
        Ok(
            ModelConfig {
                architecture: owned(arch_string),
                block_count,
                embedding_length,
                feed_forward_length,
                context_length,
                head_count,
                head_count_kv,
                head_dim,
                kv_dim,
                layer_norm_rms_epsilon,
                rope_dimension_count,
                rope_freq_base,
                vocab_size,
            },
        )
    }
}

/// What is wrong with the metadata of a model.
pub open spec fn config_fault(m: Table) -> Option<Fault> {
    match found_str(m, "general.architecture"@) {
        None => str_fault(m, "general.architecture"@),
        Some(name) => match family_of(name) {
            None => Some(Fault::UnsupportedArchitecture(name)),
            Some(ArchitectureFamily::BitNet) => bitnet_fault(m, name),
            Some(family) => llama_fault(m, family_prefix(family, name)),
        },
    }
}

/// `c` holds what the metadata of a model says.
pub open spec fn is_config(c: ModelConfig, m: Table) -> bool {
    match found_str(m, "general.architecture"@) {
        None => false,
        Some(name) => match family_of(name) {
            None => false,
            Some(ArchitectureFamily::BitNet) => is_bitnet_config(c, m, name, name),
            Some(family) => is_llama_config(c, m, name, family_prefix(family, name)),
        },
    }
}

/// In every configuration that is read, the heads divide the embedding, the
/// query heads share the key and value heads evenly, whole heads are rotated,
/// there is at least one block and one token, and 32 bits hold the widths of a
/// token's queries, keys and values.
pub proof fn configurations_are_consistent(c: ModelConfig, m: Table)
    requires
        config_fault(m) is None,
        is_config(c, m),
    ensures
        c.head_count > 0,
        c.head_count_kv > 0,
        c.embedding_length as int == c.head_dim * c.head_count,
        c.head_count as int % c.head_count_kv as int == 0,
        c.kv_dim as int == c.head_dim * c.head_count_kv,
        c.kv_dim <= c.embedding_length,
        c.rope_dimension_count == c.head_dim,
        c.block_count > 0,
        c.vocab_size > 0,
        heads_fit(c.head_count as int, c.head_count_kv as int, c.head_dim as int),
{
    let d = c.head_dim as int;
    let h = c.head_count as int;
    let k = c.head_count_kv as int;
    vstd::arithmetic::div_mod::lemma_fundamental_div_mod(c.embedding_length as int, h);
    assert(c.embedding_length == d * h) by {
        assert(h * d == d * h) by (nonlinear_arith);
    }
    vstd::arithmetic::div_mod::lemma_fundamental_div_mod(h, k);
    assert(k <= h) by (nonlinear_arith)
        requires
            h > 0,
            k > 0,
            h == k * (h / k),
    ;
    assert(d * k <= d * h) by (nonlinear_arith)
        requires
            k <= h,
            d >= 0,
    ;
    assert(h * d == d * h) by (nonlinear_arith);
    assert(k * d == d * k) by (nonlinear_arith);
}

} // verus!
